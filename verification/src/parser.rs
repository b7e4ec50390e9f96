use vstd::prelude::*;
use crate::ast::{BinOp, Class, Expr, ExprBox, Function, Program, Stmt, StmtBox, UnOp, Unit};
use crate::ids::{ClassId, FunId, MAX_ID};
use crate::lexer::{
    Lexer, ParseError, SrcPos, FileIdMap, MAX_INPUT_LEN, MAX_FILES, str_chars, string_from_chars,
    is_ident_start, is_ident_ch, spec_is_digit, occurs_at, msg_open_comment,
    skip_ws, lemma_skip_ws, char_at, spec_to_digit, lemma_peek2, keyword_at,
    spec_is_ident_start, lemma_ident_end, ident_end, pos_after,
};
use crate::insns::str_eq;

verus! {

/// A lexer that can go on reading: well formed, and not past the end
pub open spec fn ready(input: Lexer) -> bool {
    &&& input.wf()
    &&& input.spec_idx() <= input.spec_input().len()
}

/// A lexer that has moved forward over the same input
pub open spec fn advanced(old_in: Lexer, new_in: Lexer) -> bool {
    &&& new_in.wf()
    &&& new_in.same_source(old_in)
    &&& old_in.spec_idx() <= new_in.spec_idx()
}

/// Characters left to read
pub open spec fn remaining(input: Lexer) -> int {
    input.spec_input().len() - input.spec_idx()
}

/// Value of a string of decimal digits, with an optional sign, as
/// `str::parse::<i64>` reads it; None if it is not such a string
pub open spec fn spec_decimal(s: Seq<char>) -> Option<int> {
    let neg = s.len() > 0 && s[0] == '-';
    let start: int = if s.len() > 0 && (s[0] == '-' || s[0] == '+') { 1 } else { 0 };
    if start >= s.len() || !(forall|k: int| start <= k < s.len() ==> spec_is_digit(#[trigger] s[k])) {
        None
    } else {
        let mag = digits_mag(s, start, s.len() as int);
        let v = if neg { -mag } else { mag };
        if i64::MIN <= v <= i64::MAX { Some(v) } else { None }
    }
}

/// Value of the decimal digits at positions `a..b`
pub open spec fn digits_mag(s: Seq<char>, a: int, b: int) -> int
    decreases b - a,
{
    if b <= a {
        0
    } else {
        digits_mag(s, a, b - 1) * 10 + (s[b - 1] as int - '0' as int)
    }
}

proof fn lemma_digits_mag_monotonic(s: Seq<char>, a: int, b: int, c: int)
    requires
        a <= b <= c <= s.len(),
        forall|k: int| a <= k < c ==> spec_is_digit(#[trigger] s[k]),
    ensures
        0 <= digits_mag(s, a, b) <= digits_mag(s, a, c),
    decreases c - a,
{
    if c > b {
        lemma_digits_mag_monotonic(s, a, b, c - 1);
    } else if b > a {
        lemma_digits_mag_monotonic(s, a, b - 1, b - 1);
    }
}

/// Parse a string of decimal digits with an optional sign into an i64
pub fn parse_i64(text: &str) -> (r: Option<i64>)
    ensures
        r matches Some(v) ==> spec_decimal(text@) == Some(v as int),
        r is None ==> spec_decimal(text@) is None,
{
    let s = str_chars(text);
    let n = s.len();
    let neg = n > 0 && s[0] == '-';
    let start: usize = if n > 0 && (s[0] == '-' || s[0] == '+') { 1 } else { 0 };
    if start >= n {
        return None;
    }
    // Accumulate as a negative number, which reaches i64::MIN
    let mut acc: i128 = 0;
    let mut k: usize = start;
    while k < n
        invariant
            s@ == text@,
            n == s@.len(),
            start <= k <= n,
            start == (if n > 0 && (s@[0] == '-' || s@[0] == '+') { 1int } else { 0int }),
            forall|j: int| start <= j < k ==> spec_is_digit(#[trigger] s@[j]),
            acc == digits_mag(s@, start as int, k as int),
            0 <= acc <= 0x8000_0000_0000_0000,
        decreases n - k,
    {
        let ch = s[k];
        if !('0' <= ch && ch <= '9') {
            proof {
                assert(!spec_is_digit(s@[k as int]));
            }
            return None;
        }
        let d = (ch as u32 - '0' as u32) as i128;
        let next = acc * 10 + d;
        if next > 0x8000_0000_0000_0000 {
            proof {
                assert(forall|j: int| start <= j < k + 1 ==> spec_is_digit(#[trigger] s@[j]));
                if forall|j: int| start <= j < n ==> spec_is_digit(#[trigger] s@[j]) {
                    lemma_digits_mag_monotonic(s@, start as int, k + 1, n as int);
                }
            }
            return None;
        }
        acc = next;
        k = k + 1;
    }
    let v: i128 = if neg { -acc } else { acc };
    if v < i64::MIN as i128 || v > i64::MAX as i128 {
        return None;
    }
    Some(v as i64)
}

/// Binary operators and their precedence level
/// Lower numbers mean higher precedence
#[derive(Copy, Clone)]
pub struct OpInfo {
    pub op_str: &'static str,
    pub prec: usize,
    pub op: BinOp,
    pub rtl: bool,
}

/// Number of binary operators
pub const NUM_BIN_OPS: usize = 20;

/// Precedence level of the ternary operator (a? b:c)
pub const TERNARY_PREC: usize = 13;

/// The binary operators, in the order they are tried: token, precedence
/// and operator of each
pub open spec fn spec_bin_op(k: int) -> (Seq<char>, int, BinOp) {
    if k == 0 { ("*"@, 3, BinOp::Mul) }
    else if k == 1 { ("/"@, 3, BinOp::Div) }
    else if k == 2 { ("_/"@, 3, BinOp::IntDiv) }
    else if k == 3 { ("%"@, 3, BinOp::Mod) }
    else if k == 4 { ("+"@, 4, BinOp::Add) }
    else if k == 5 { ("-"@, 4, BinOp::Sub) }
    else if k == 6 { ("<<"@, 5, BinOp::LShift) }
    else if k == 7 { (">>"@, 5, BinOp::RShift) }
    else if k == 8 { ("<="@, 6, BinOp::Le) }
    else if k == 9 { ("<"@, 6, BinOp::Lt) }
    else if k == 10 { (">="@, 6, BinOp::Ge) }
    else if k == 11 { (">"@, 6, BinOp::Gt) }
    else if k == 12 { ("=="@, 7, BinOp::Eq) }
    else if k == 13 { ("!="@, 7, BinOp::Ne) }
    else if k == 14 { ("&&"@, 11, BinOp::And) }
    else if k == 15 { ("||"@, 12, BinOp::Or) }
    else if k == 16 { ("&"@, 8, BinOp::BitAnd) }
    else if k == 17 { ("^"@, 9, BinOp::BitXor) }
    else if k == 18 { ("|"@, 10, BinOp::BitOr) }
    else { ("="@, 14, BinOp::Assign) }
}

/// The binary operators, in the order they are tried: a longer token
/// comes before a shorter one it starts with
pub fn bin_op(k: usize) -> (r: OpInfo)
    requires
        k < NUM_BIN_OPS,
    ensures
        (r.op_str@, r.prec as int, r.op) == spec_bin_op(k as int),
        r.op_str@.len() >= 1,
        r.rtl <==> r.op == BinOp::Assign,
        r.rtl || r.prec < TERNARY_PREC,
{
    match k {
        0 => { proof { reveal_strlit("*"); } OpInfo { op_str: "*", prec: 3, op: BinOp::Mul, rtl: false } }
        1 => { proof { reveal_strlit("/"); } OpInfo { op_str: "/", prec: 3, op: BinOp::Div, rtl: false } }
        2 => { proof { reveal_strlit("_/"); } OpInfo { op_str: "_/", prec: 3, op: BinOp::IntDiv, rtl: false } }
        3 => { proof { reveal_strlit("%"); } OpInfo { op_str: "%", prec: 3, op: BinOp::Mod, rtl: false } }
        4 => { proof { reveal_strlit("+"); } OpInfo { op_str: "+", prec: 4, op: BinOp::Add, rtl: false } }
        5 => { proof { reveal_strlit("-"); } OpInfo { op_str: "-", prec: 4, op: BinOp::Sub, rtl: false } }
        6 => { proof { reveal_strlit("<<"); } OpInfo { op_str: "<<", prec: 5, op: BinOp::LShift, rtl: false } }
        7 => { proof { reveal_strlit(">>"); } OpInfo { op_str: ">>", prec: 5, op: BinOp::RShift, rtl: false } }
        8 => { proof { reveal_strlit("<="); } OpInfo { op_str: "<=", prec: 6, op: BinOp::Le, rtl: false } }
        9 => { proof { reveal_strlit("<"); } OpInfo { op_str: "<", prec: 6, op: BinOp::Lt, rtl: false } }
        10 => { proof { reveal_strlit(">="); } OpInfo { op_str: ">=", prec: 6, op: BinOp::Ge, rtl: false } }
        11 => { proof { reveal_strlit(">"); } OpInfo { op_str: ">", prec: 6, op: BinOp::Gt, rtl: false } }
        12 => { proof { reveal_strlit("=="); } OpInfo { op_str: "==", prec: 7, op: BinOp::Eq, rtl: false } }
        13 => { proof { reveal_strlit("!="); } OpInfo { op_str: "!=", prec: 7, op: BinOp::Ne, rtl: false } }
        // Logical AND, logical OR. These come before the bitwise operators
        // because they are longer tokens
        14 => { proof { reveal_strlit("&&"); } OpInfo { op_str: "&&", prec: 11, op: BinOp::And, rtl: false } }
        15 => { proof { reveal_strlit("||"); } OpInfo { op_str: "||", prec: 12, op: BinOp::Or, rtl: false } }
        16 => { proof { reveal_strlit("&"); } OpInfo { op_str: "&", prec: 8, op: BinOp::BitAnd, rtl: false } }
        17 => { proof { reveal_strlit("^"); } OpInfo { op_str: "^", prec: 9, op: BinOp::BitXor, rtl: false } }
        18 => { proof { reveal_strlit("|"); } OpInfo { op_str: "|", prec: 10, op: BinOp::BitOr, rtl: false } }
        // Assignment operator, evaluates right to left
        _ => { proof { reveal_strlit("="); } OpInfo { op_str: "=", prec: 14, op: BinOp::Assign, rtl: true } }
    }
}

/// Whether the operator numbered `k` is the first one whose token occurs
/// at position `j`
pub open spec fn first_bin_op_at(s: Seq<char>, j: int, k: int) -> bool {
    &&& 0 <= k < NUM_BIN_OPS
    &&& occurs_at(s, j, spec_bin_op(k).0)
    &&& forall|k2: int| 0 <= k2 < k ==> !occurs_at(s, j, #[trigger] spec_bin_op(k2).0)
}

/// Try to match a binary operator in the input
fn match_bin_op(input: &mut Lexer) -> (r: Result<Option<OpInfo>, ParseError>)
    requires
        ready(*old(input)),
    ensures
        advanced(*old(input), *final(input)),
        r is Ok ==> ready(*final(input)),
        r is Ok <==> old(input).spec_ws_end() is Some,
        r is Err ==> final(input).is_error_here(r, msg_open_comment()),
        r matches Ok(Some(o)) ==> {
            let j = old(input).spec_ws_end()->0;
            &&& exists|k: int| #[trigger] first_bin_op_at(old(input).spec_input(), j, k)
                && (o.op_str@, o.prec as int, o.op) == spec_bin_op(k)
            &&& final(input).spec_idx() == j + o.op_str@.len()
        },
        r matches Ok(None) ==> {
            let j = old(input).spec_ws_end()->0;
            &&& forall|k: int| 0 <= k < NUM_BIN_OPS ==> !occurs_at(old(input).spec_input(), j, #[trigger] spec_bin_op(k).0)
            &&& final(input).spec_idx() == j
        },
        r matches Ok(Some(o)) ==> old(input).spec_idx() < final(input).spec_idx()
            && (o.rtl <==> o.op == BinOp::Assign) && (o.rtl || o.prec < TERNARY_PREC),
{
    let mut k: usize = 0;
    while k < NUM_BIN_OPS
        invariant
            advanced(*old(input), *input),
            ready(*input),
            k == 0 ==> *input == *old(input),
            k > 0 ==> old(input).spec_ws_end() == Some(input.spec_idx())
                && input.spec_ws_end() == Some(input.spec_idx()),
            forall|k2: int| 0 <= k2 < k ==> !occurs_at(old(input).spec_input(), input.spec_idx(), #[trigger] spec_bin_op(k2).0),
        decreases NUM_BIN_OPS - k,
    {
        let op_info = bin_op(k);
        let m = input.match_token(op_info.op_str);
        match m {
            Err(e) => {
                return Err(e);
            }
            Ok(true) => {
                assert(first_bin_op_at(old(input).spec_input(), old(input).spec_ws_end()->0, k as int));
                return Ok(Some(op_info));
            }
            Ok(false) => {}
        }
        k = k + 1;
    }
    Ok(None)
}

/// The expression that folding the operators from index `i` up to the
/// top of the operator stack leaves: each operator combines the
/// expression below it, as its left operand, with what folding the
/// operators above it left, as its right operand
pub open spec fn folded(es: Seq<ExprBox>, os: Seq<OpInfo>, i: int) -> ExprBox
    decreases os.len() - i,
{
    if i < 0 || i >= os.len() {
        es.last()
    } else {
        ExprBox { expr: Box::new(Expr::Binary { op: os[i].op, lhs: es[i], rhs: folded(es, os, i + 1) }), pos: es[i].pos }
    }
}

/// Folding one operator builds it with the expression second from the
/// top of the stack as its left operand and the top one as its right
/// operand, at the left operand's position: `a - b` is `a` minus `b`,
/// never `b` minus `a`. Folding two builds the lower operator over the
/// expression below it and the result of folding the upper one
pub proof fn law_fold_keeps_operand_order(es: Seq<ExprBox>, os: Seq<OpInfo>)
    requires
        os.len() >= 1,
        es.len() == os.len() + 1,
    ensures
        ({
            let n = os.len() as int;
            let t = folded(es, os, n - 1);
            &&& *t.expr == Expr::Binary { op: os[n - 1].op, lhs: es[n - 1], rhs: es[n] }
            &&& t.pos == es[n - 1].pos
        }),
        os.len() >= 2 ==> ({
            let n = os.len() as int;
            let t = folded(es, os, n - 2);
            *t.expr == Expr::Binary { op: os[n - 2].op, lhs: es[n - 2], rhs: folded(es, os, n - 1) }
        }),
{
    let n = os.len() as int;
    assert(folded(es, os, n) == es.last());
    assert(es.last() == es[n]);
    assert(*folded(es, os, n - 1).expr == Expr::Binary { op: os[n - 1].op, lhs: es[n - 1], rhs: folded(es, os, n) });
}

/// Operators of equal precedence group to the left: with `a op b` on the
/// stacks, a new operator that binds no more tightly than `op` first
/// turns them into the single expression `(a op b)`, which then becomes
/// the new operator's left operand, so `a - b - c` is `(a - b) - c`.
/// The stacks before and after are related as folding relates them
pub proof fn law_equal_precedence_groups_left(es0: Seq<ExprBox>, os0: Seq<OpInfo>,
    es1: Seq<ExprBox>, os1: Seq<OpInfo>, new_op_prec: usize)
    requires
        os0.len() == 1,
        es0.len() == 2,
        os0[0].prec <= new_op_prec,
        os1.len() <= os0.len(),
        os1 == os0.subrange(0, os1.len() as int),
        os1.len() == 0 || os1.last().prec > new_op_prec,
        es1 == es0.take(os1.len() as int).push(folded(es0, os0, os1.len() as int)),
    ensures
        os1.len() == 0,
        es1.len() == 1,
        *es1[0].expr == (Expr::Binary { op: os0[0].op, lhs: es0[0], rhs: es0[1] }),
        es1[0].pos == es0[0].pos,
{
    if os1.len() == 1 {
        assert(os1.last() == os0[0]);
    }
    assert(folded(es0, os0, 1) == es0.last());
    assert(es0.last() == es0[1]);
}

/// Combine the two expressions on top of the stack with the operator on
/// top of its stack, as long as that operator binds at least as tightly
/// as a new one of precedence `new_op_prec`
fn eval_lower_prec(op_stack: &mut Vec<OpInfo>, expr_stack: &mut Vec<ExprBox>, new_op_prec: usize)
    requires
        old(expr_stack)@.len() == old(op_stack)@.len() + 1,
    ensures
        final(expr_stack)@.len() == final(op_stack)@.len() + 1,
        final(op_stack)@.len() <= old(op_stack)@.len(),
        final(op_stack)@ == old(op_stack)@.subrange(0, final(op_stack)@.len() as int),
        final(op_stack)@.len() == 0 || final(op_stack)@.last().prec > new_op_prec,
        forall|i: int| final(op_stack)@.len() <= i < old(op_stack)@.len()
            ==> (#[trigger] old(op_stack)@[i]).prec <= new_op_prec,
        final(expr_stack)@.subrange(0, final(op_stack)@.len() as int)
            == old(expr_stack)@.subrange(0, final(op_stack)@.len() as int),
        final(expr_stack)@ == old(expr_stack)@.take(final(op_stack)@.len() as int)
            .push(folded(old(expr_stack)@, old(op_stack)@, final(op_stack)@.len() as int)),
{
    while op_stack.len() > 0
        invariant
            expr_stack@.len() == op_stack@.len() + 1,
            op_stack@.len() <= old(op_stack)@.len(),
            op_stack@ == old(op_stack)@.subrange(0, op_stack@.len() as int),
            old(expr_stack)@.len() == old(op_stack)@.len() + 1,
            forall|i: int| op_stack@.len() <= i < old(op_stack)@.len()
                ==> (#[trigger] old(op_stack)@[i]).prec <= new_op_prec,
            expr_stack@.subrange(0, op_stack@.len() as int)
                == old(expr_stack)@.subrange(0, op_stack@.len() as int),
            expr_stack@ == old(expr_stack)@.take(op_stack@.len() as int)
                .push(folded(old(expr_stack)@, old(op_stack)@, op_stack@.len() as int)),
        ensures
            op_stack@.len() == 0 || op_stack@.last().prec > new_op_prec,
        decreases op_stack@.len(),
    {
        // Get the operator at the top of the stack
        let top_prec = op_stack[op_stack.len() - 1].prec;
        let ghost es0 = expr_stack@;
        let ghost n0 = op_stack@.len() as int;

        if top_prec <= new_op_prec {
            let rhs = expr_stack.pop().unwrap();
            let lhs = expr_stack.pop().unwrap();
            let top_op = op_stack.pop().unwrap();

            let pos = lhs.pos;
            let bin_expr = Expr::Binary { op: top_op.op, lhs, rhs };
            expr_stack.push(ExprBox::new(bin_expr, pos));
            proof {
                let n = op_stack@.len() as int;
                let es = old(expr_stack)@;
                let os = old(op_stack)@;
                assert(es0 =~= es.take(n0).push(folded(es, os, n0)));
                assert(es0[n0 - 1] == es[n0 - 1]);
                assert(top_op == os[n0 - 1]);
                assert(expr_stack@.last() == folded(es, os, n));
                assert(expr_stack@ =~= es.take(n).push(folded(es, os, n)));
                assert(expr_stack@.subrange(0, n) =~= es0.subrange(0, n));
                assert(es0.subrange(0, n0) == old(expr_stack)@.subrange(0, n0));
                assert(es0.subrange(0, n) =~= es0.subrange(0, n0).subrange(0, n));
                assert(es0.subrange(0, n) =~= old(expr_stack)@.subrange(0, n));
            }
        } else {
            break;
        }
    }
}

/// Parse an atomic expression
fn parse_atom(input: &mut Lexer, prog: &mut Program) -> (r: Result<ExprBox, ParseError>)
    requires
        ready(*old(input)),
        old(prog).wf(),
    ensures
        advanced(*old(input), *final(input)),
        r is Ok ==> ready(*final(input)),
        final(prog).wf(),
        old(input).spec_ws_end() is None ==> r is Err,
        only_blank_left(*old(input)) ==> r is Err,
        (old(input).spec_ws_end() matches Some(j) && keyword_at(old(input).spec_input(), j, "true"@))
            ==> (r matches Ok(e) && *e.expr is True && e.pos == pos_at(*old(input), old(input).spec_ws_end()->0)),
        (old(input).spec_ws_end() matches Some(j) && keyword_at(old(input).spec_input(), j, "false"@))
            ==> (r matches Ok(e) && *e.expr is False && e.pos == pos_at(*old(input), old(input).spec_ws_end()->0)),
        (old(input).spec_ws_end() matches Some(j) && keyword_at(old(input).spec_input(), j, "nil"@))
            ==> (r matches Ok(e) && *e.expr is Nil && e.pos == pos_at(*old(input), old(input).spec_ws_end()->0)),
    decreases remaining(*old(input)), 5int,
{
    proof {
        reveal_strlit("0x");
        reveal_strlit("0b");
        reveal_strlit(")");
        reveal_strlit("true");
        reveal_strlit("false");
        reveal_strlit("nil");
    }
    input.eat_ws()?;
    let ch = input.peek_ch();
    let pos = input.get_pos();
    proof {
        let s = input.spec_input();
        let j = input.spec_idx();
        input.lemma_wf();
        if keyword_at(s, j, "true"@) || keyword_at(s, j, "false"@) || keyword_at(s, j, "nil"@) {
            if keyword_at(s, j, "true"@) { assert(s.subrange(j, j + 4)[0] == s[j]); }
            if keyword_at(s, j, "false"@) { assert(s.subrange(j, j + 5)[0] == s[j]); }
            if keyword_at(s, j, "nil"@) { assert(s.subrange(j, j + 3)[0] == s[j]); }
            lemma_not_at(s, j, "0x"@);
            lemma_not_at(s, j, "0b"@);
            if s[j] != 't' { lemma_not_at(s, j, "true"@); }
            if s[j] == 'n' { lemma_not_at(s, j, "false"@); }
        }
    }

    // Hexadecimal integer literal
    if input.match_token("0x")? {
        let int_val = input.parse_int(16)?;

        if int_val < i64::MIN as i128 || int_val > i64::MAX as i128 {
            return input.parse_error("integer literal outside of int64 range");
        }

        return Ok(ExprBox::new(Expr::Int64(int_val as i64), pos));
    }

    // Binary integer literal
    if input.match_token("0b")? {
        let int_val = input.parse_int(2)?;

        if int_val < i64::MIN as i128 || int_val > i64::MAX as i128 {
            return input.parse_error("integer literal outside of int64 range");
        }

        return Ok(ExprBox::new(Expr::Int64(int_val as i64), pos));
    }

    // Decimal numeric value
    if '0' <= ch && ch <= '9' {
        let num_str = input.read_numeric()?;

        // If we can parse this value as an integer
        match parse_i64(num_str.as_str()) {
            Some(int_val) => {
                return Ok(ExprBox::new(Expr::Int64(int_val), pos));
            }
            None => {
                // Otherwise this is a floating-point number
                return Ok(ExprBox::new(Expr::Float64(num_str), pos));
            }
        }
    }

    if input.match_keyword("true")? {
        return Ok(ExprBox::new(Expr::True, pos));
    }

    if input.match_keyword("false")? {
        return Ok(ExprBox::new(Expr::False, pos));
    }

    if input.match_keyword("nil")? {
        return Ok(ExprBox::new(Expr::Nil, pos));
    }

    // String literal
    if ch == '"' || ch == '\'' {
        let mut str_val: Vec<char> = Vec::new();

        // As a convenience feature, we concatenate multiple
        // double-quoted strings in a row, but not single-quoted strings.
        // This makes it less error-prone to write machine code with
        // single-quoted VM instructions.
        loop
            invariant_except_break
                input.spec_idx() < input.spec_input().len(),
                input.spec_peek_at(0) == ch,
            invariant
                ch == '"' || ch == '\'',
                old(input).spec_ws_end() is Some,
                !keyword_at(old(input).spec_input(), old(input).spec_ws_end()->0, "true"@),
                !keyword_at(old(input).spec_input(), old(input).spec_ws_end()->0, "false"@),
                !keyword_at(old(input).spec_input(), old(input).spec_ws_end()->0, "nil"@),
                advanced(*old(input), *input),
                ready(*input),
                prog.wf(),
            decreases remaining(*input),
        {
            let part = input.parse_str(ch)?;
            let mut part_chars = str_chars(part.as_str());
            str_val.append(&mut part_chars);

            if ch == '\'' {
                break;
            }

            input.eat_ws()?;
            if input.peek_ch() != ch {
                break;
            }
        }

        return Ok(ExprBox::new(Expr::String(string_from_chars(str_val.as_slice())), pos));
    }

    // Parenthesized expression
    if ch == '(' {
        proof { input.lemma_wf(); }
        input.eat_ch();
        let expr = parse_expr(input, prog)?;
        input.expect_token(")")?;
        return Ok(expr);
    }

    // Array literal
    proof { input.lemma_wf(); }
    if input.match_char('[') {
        let exprs = parse_expr_list(input, prog, "]")?;
        return Ok(ExprBox::new(Expr::Array { exprs }, pos));
    }

    // Dictionary literal
    if input.match_char('{') {
        return parse_dict(input, prog, pos);
    }

    // Byte array literal
    let hash_bracket = ['#', '['];
    if input.match_chars(&hash_bracket) {
        return parse_bytearray(input, pos);
    }

    // Host constant
    if ch == '$' {
        input.eat_ch();
        let name = input.parse_ident()?;
        return Ok(ExprBox::new(Expr::HostConst(name), pos));
    }

    // Anonymous function expression
    if input.match_keyword("fun")? {
        proof { reveal_strlit("fun"); }
        let fun_id = parse_function(input, prog, "lambda".to_owned(), pos)?;
        return Ok(ExprBox::new(Expr::Fun { fun_id, captured: Vec::new() }, pos));
    }

    // Lambda expression
    if ch == '|' {
        let fun_id = parse_lambda(input, prog, pos)?;
        return Ok(ExprBox::new(Expr::Fun { fun_id, captured: Vec::new() }, pos));
    }

    // Identifier (variable reference)
    if is_ident_start(ch) {
        let ident = input.parse_ident()?;
        return Ok(ExprBox::new(Expr::Ident(ident), pos));
    }

    input.parse_error("unknown atomic expression")
}

/// The message given for a postfix increment or decrement
fn msg_postfix_incr() -> (r: &'static str) {
    "the postfix increment operator (i.e. i++) is not supported, use prefix increment (i.e. ++i) instead."
}

/// Parse a postfix expression
fn parse_postfix(input: &mut Lexer, prog: &mut Program) -> (r: Result<ExprBox, ParseError>)
    requires
        ready(*old(input)),
        old(prog).wf(),
    ensures
        advanced(*old(input), *final(input)),
        r is Ok ==> ready(*final(input)),
        final(prog).wf(),
        old(input).spec_ws_end() is None ==> r is Err,
        only_blank_left(*old(input)) ==> r is Err,
    decreases remaining(*old(input)), 6int,
{
    proof {
        reveal_strlit("(");
        reveal_strlit(")");
        reveal_strlit("[");
        reveal_strlit("]");
        reveal_strlit(".");
        reveal_strlit("instanceof");
    }
    let mut base_expr = parse_atom(input, prog)?;

    loop
        invariant
            advanced(*old(input), *input),
            ready(*input),
            prog.wf(),
        decreases remaining(*input),
    {
        proof {
            reveal_strlit("(");
            reveal_strlit("[");
            reveal_strlit(".");
            reveal_strlit("instanceof");
        }
        input.eat_ws()?;
        let pos = input.get_pos();

        // If this is a function call
        if input.match_token("(")? {
            let arg_exprs = parse_expr_list(input, prog, ")")?;

            // Add one to account for self in constructor and method calls
            if arg_exprs.len() >= 255 {
                return input.parse_error("too many arguments in function call");
            }

            base_expr = ExprBox::new(Expr::Call { callee: base_expr, args: arg_exprs }, pos);
            continue;
        }

        // Array indexing
        if input.match_token("[")? {
            let index_expr = parse_expr(input, prog)?;
            input.expect_token("]")?;

            base_expr = ExprBox::new(Expr::Index { base: base_expr, index: index_expr }, pos);
            continue;
        }

        // Member operator (a.b)
        if input.match_token(".")? {
            let field_name = input.parse_ident()?;

            base_expr = ExprBox::new(Expr::Member { base: base_expr, field: field_name }, pos);
            continue;
        }

        // Instanceof operator
        if input.match_token("instanceof")? {
            input.eat_ws()?;
            let class_name = input.parse_ident()?;

            base_expr = ExprBox::new(
                Expr::InstanceOf { val: base_expr, class_name, class_id: ClassId::new(0) },
                pos,
            );
            continue;
        }

        // Postfix increment and decrement expressions
        if input.match_token("++")? {
            return input.parse_error(msg_postfix_incr());
        }
        if input.match_token("--")? {
            return input.parse_error(msg_postfix_incr());
        }

        break;
    }

    Ok(base_expr)
}

/// The text of a negated floating-point literal
fn negate_float_text(text: &String) -> (r: String)
    ensures
        text@.len() > 0 && text@[0] == '-' ==> r@ == text@.subrange(1, text@.len() as int),
        !(text@.len() > 0 && text@[0] == '-') ==> r@ == seq!['-'] + text@,
{
    let chars = str_chars(text.as_str());
    if chars.len() > 0 && chars[0] == '-' {
        let mut out: Vec<char> = Vec::new();
        let mut k: usize = 1;
        while k < chars.len()
            invariant
                1 <= k <= chars@.len(),
                out@ == chars@.subrange(1, k as int),
            decreases chars@.len() - k,
        {
            out.push(chars[k]);
            k = k + 1;
            assert(out@ =~= chars@.subrange(1, k as int));
        }
        string_from_chars(out.as_slice())
    } else {
        let mut out: Vec<char> = Vec::new();
        out.push('-');
        let mut rest = chars;
        out.append(&mut rest);
        string_from_chars(out.as_slice())
    }
}

/// Parse an prefix expression
/// Note: this function should only call parse_postfix directly
/// to respect the priority of operations in C
fn parse_prefix(input: &mut Lexer, prog: &mut Program) -> (r: Result<ExprBox, ParseError>)
    requires
        ready(*old(input)),
        old(prog).wf(),
    ensures
        advanced(*old(input), *final(input)),
        r is Ok ==> ready(*final(input)),
        final(prog).wf(),
        old(input).spec_ws_end() is None ==> r is Err,
        only_blank_left(*old(input)) ==> r is Err,
    decreases remaining(*old(input)), 7int,
{
    proof {
        reveal_strlit("++");
        reveal_strlit("--");
    }
    input.eat_ws()?;
    let ch = input.peek_ch();
    let pos = input.get_pos();

    // Unary not expression (bitwise or logical not)
    if ch == '!' {
        proof { input.lemma_wf(); }
        input.eat_ch();
        let child = parse_prefix(input, prog)?;
        return Ok(ExprBox::new(Expr::Unary { op: UnOp::Not, child }, pos));
    }

    // Pre-increment expression
    if input.match_token("++")? {
        let sub_expr = parse_prefix(input, prog)?;
        let sub_pos = sub_expr.pos;

        // Transform into i = i + 1
        let lhs = sub_expr.copy();
        let rhs = ExprBox::new(
            Expr::Binary { op: BinOp::Add, lhs: sub_expr, rhs: ExprBox::new(Expr::Int64(1), sub_pos) },
            sub_pos,
        );
        return Ok(ExprBox::new(Expr::Binary { op: BinOp::Assign, lhs, rhs }, sub_pos));
    }

    // Pre-decrement expression
    if input.match_token("--")? {
        let sub_expr = parse_prefix(input, prog)?;
        let sub_pos = sub_expr.pos;

        // Transform into i = i - 1
        let lhs = sub_expr.copy();
        let rhs = ExprBox::new(
            Expr::Binary { op: BinOp::Sub, lhs: sub_expr, rhs: ExprBox::new(Expr::Int64(1), sub_pos) },
            sub_pos,
        );
        return Ok(ExprBox::new(Expr::Binary { op: BinOp::Assign, lhs, rhs }, sub_pos));
    }

    // Unary minus expression
    if ch == '-' {
        proof { input.lemma_wf(); }
        input.eat_ch();
        let sub_expr = parse_prefix(input, prog)?;
        let sub_pos = sub_expr.pos;

        // If this is an integer or floating-point value, negate it
        let expr = match *sub_expr.expr {
            Expr::Int64(int_val) => {
                if int_val == i64::MIN {
                    // No literal reaches this value, whose negation does
                    // not fit; it stays a negation like any other operand
                    Expr::Unary { op: UnOp::Minus, child: ExprBox::new(Expr::Int64(int_val), sub_pos) }
                } else {
                    Expr::Int64(-int_val)
                }
            }
            Expr::Float64(text) => Expr::Float64(negate_float_text(&text)),
            other => Expr::Unary { op: UnOp::Minus, child: ExprBox::new(other, sub_pos) },
        };

        return Ok(ExprBox::new(expr, sub_pos));
    }

    // Unary plus expression
    if ch == '+' {
        proof { input.lemma_wf(); }
        input.eat_ch();
        let sub_expr = parse_prefix(input, prog)?;

        // If this is an integer or floating-point value, do nothing
        let is_num = match &*sub_expr.expr {
            Expr::Int64(_) => true,
            Expr::Float64(_) => true,
            _ => false,
        };
        if is_num {
            return Ok(sub_expr);
        }
        return input.parse_error("plus operator applied to non-constant value");
    }

    // Try to parse this as a postfix expression
    parse_postfix(input, prog)
}

/// Parse a list of expressions separated by commas, up to an end token
fn parse_expr_list(input: &mut Lexer, prog: &mut Program, end_token: &str) -> (r: Result<Vec<ExprBox>, ParseError>)
    requires
        ready(*old(input)),
        old(prog).wf(),
    ensures
        advanced(*old(input), *final(input)),
        r is Ok ==> ready(*final(input)),
        final(prog).wf(),
        old(input).spec_ws_end() is None ==> r is Err,
        (old(input).spec_ws_end() matches Some(j) && j >= old(input).spec_input().len()) ==> r is Err,
        (old(input).spec_ws_end() matches Some(j) && j < old(input).spec_input().len()
            && occurs_at(old(input).spec_input(), j, end_token@)) ==> (r matches Ok(v) && v@.len() == 0),
    decreases remaining(*old(input)), 9int,
{
    proof { reveal_strlit(","); }
    let mut arg_exprs: Vec<ExprBox> = Vec::new();
    let ghost opens_empty = old(input).spec_ws_end() matches Some(j) && j < old(input).spec_input().len()
        && occurs_at(old(input).spec_input(), j, end_token@);

    loop
        invariant_except_break
            arg_exprs@.len() == 0 ==> *input == *old(input),
        invariant
            advanced(*old(input), *input),
            ready(*input),
            prog.wf(),
            arg_exprs@.len() > 0 ==> !opens_empty && old(input).spec_ws_end() is Some
                && old(input).spec_ws_end()->0 < old(input).spec_input().len(),
            opens_empty == (old(input).spec_ws_end() matches Some(j) && j < old(input).spec_input().len()
                && occurs_at(old(input).spec_input(), j, end_token@)),
        ensures
            old(input).spec_ws_end() is Some && old(input).spec_ws_end()->0 < old(input).spec_input().len(),
            arg_exprs@.len() == 0 ==> opens_empty,
        decreases remaining(*input),
    {
        proof { reveal_strlit(","); }
        input.eat_ws()?;

        if input.eof() {
            return input.parse_error("unexpected end of input in call expression");
        }

        if input.match_token(end_token)? {
            break;
        }

        // Parse one argument
        let arg = parse_expr(input, prog)?;
        arg_exprs.push(arg);

        if input.match_token(end_token)? {
            break;
        }

        // If this isn't the last argument, there
        // has to be a comma separator
        input.expect_token(",")?;
    }

    Ok(arg_exprs)
}

/// Parse a dictionary literal, after its opening brace
fn parse_dict(input: &mut Lexer, prog: &mut Program, pos: SrcPos) -> (r: Result<ExprBox, ParseError>)
    requires
        ready(*old(input)),
        old(prog).wf(),
    ensures
        advanced(*old(input), *final(input)),
        r is Ok ==> ready(*final(input)),
        final(prog).wf(),
        r matches Ok(e) ==> e.pos == pos && *e.expr is Dict,
        old(input).spec_ws_end() is None ==> r is Err,
        (old(input).spec_ws_end() matches Some(j) && j >= old(input).spec_input().len()) ==> r is Err,
        (old(input).spec_ws_end() matches Some(j) && j < old(input).spec_input().len()
            && old(input).spec_input()[j] == '}') ==> (r matches Ok(e) && *e.expr matches Expr::Dict { pairs } && pairs@.len() == 0),
    decreases remaining(*old(input)), 9int,
{
    proof {
        reveal_strlit(",");
        reveal_strlit(":");
        reveal_strlit("}");
    }

    // List of key, value pairs
    let mut pairs: Vec<(String, ExprBox)> = Vec::new();
    let ghost opens_empty = old(input).spec_ws_end() matches Some(j) && j < old(input).spec_input().len()
        && old(input).spec_input()[j] == '}';
    proof {
        input.lemma_wf();
        lemma_skip_ws(input.spec_input(), input.spec_idx());
        if opens_empty {
            let j = old(input).spec_ws_end()->0;
            assert(old(input).spec_input().subrange(j, j + 1) =~= "}"@);
        }
    }

    loop
        invariant_except_break
            pairs@.len() == 0 ==> *input == *old(input),
        invariant
            advanced(*old(input), *input),
            ready(*input),
            prog.wf(),
            pairs@.len() > 0 ==> !opens_empty && old(input).spec_ws_end() is Some
                && old(input).spec_ws_end()->0 < old(input).spec_input().len(),
            opens_empty ==> occurs_at(old(input).spec_input(), old(input).spec_ws_end()->0, "}"@),
            opens_empty == (old(input).spec_ws_end() matches Some(j) && j < old(input).spec_input().len()
                && old(input).spec_input()[j] == '}'),
        ensures
            old(input).spec_ws_end() is Some && old(input).spec_ws_end()->0 < old(input).spec_input().len(),
            pairs@.len() == 0 ==> occurs_at(old(input).spec_input(), old(input).spec_ws_end()->0, "}"@),
            opens_empty ==> pairs@.len() == 0,
        decreases remaining(*input),
    {
        proof { reveal_strlit(","); reveal_strlit("}"); reveal_strlit(":"); }
        input.eat_ws()?;

        if input.eof() {
            return input.parse_error("unexpected end of input inside dictionary literal");
        }

        if input.match_token("}")? {
            break;
        }

        // Parse a field name: an identifier, or a quoted string
        input.eat_ws()?;
        let qc = input.peek_ch();
        let field_name = if !input.eof() && (qc == '\'' || qc == '"') {
            input.parse_str(qc)?
        } else {
            input.parse_ident()?
        };

        // Parse the field value
        input.expect_token(":")?;
        let field_expr = parse_expr(input, prog)?;
        pairs.push((field_name, field_expr));

        if input.match_token("}")? {
            break;
        }

        // If this isn't the last field, there
        // has to be a comma separator
        input.expect_token(",")?;
    }

    Ok(ExprBox::new(Expr::Dict { pairs }, pos))
}

/// Whether a character is printable ASCII, other than space
fn is_ascii_graphic(ch: char) -> (r: bool)
    ensures
        r == ('!' <= ch <= '~'),
{
    '!' <= ch && ch <= '~'
}

/// Whether a character is an ASCII letter or digit
fn is_ascii_alphanumeric(ch: char) -> (r: bool)
    ensures
        r == (('a' <= ch <= 'z') || ('A' <= ch <= 'Z') || ('0' <= ch <= '9')),
{
    ('a' <= ch && ch <= 'z') || ('A' <= ch && ch <= 'Z') || ('0' <= ch && ch <= '9')
}

/// Whether the two characters `x`, `y` stand at positions `i` and `i + 1`
pub open spec fn pair_at(s: Seq<char>, i: int, x: char, y: char) -> bool {
    0 <= i && i + 1 < s.len() && s[i] == x && s[i + 1] == y
}

/// The byte that an escape sequence of an ASCII sequence stands for
pub open spec fn ascii_escape(e: char) -> Option<u8> {
    if e == '\\' { Some(92u8) }
    else if e == '\'' { Some(39u8) }
    else if e == '"' { Some(34u8) }
    else if e == 't' { Some(9u8) }
    else if e == 'r' { Some(13u8) }
    else if e == 'n' { Some(10u8) }
    else if e == '0' { Some(0u8) }
    else { None }
}

/// Whether the last byte read is a space
pub open spec fn ends_in_space(bytes: Seq<u8>) -> bool {
    bytes.len() > 0 && bytes.last() == 32
}

/// The ASCII sequence of a byte array literal that starts at `i`, where
/// `prev_space` says whether the byte before it is a space: printable
/// characters and escape sequences, up to a `]`, a control sequence, a
/// comment, an end of line or another character. Its bytes and the
/// position after it, or none where it is malformed
pub open spec fn ascii_seq(s: Seq<char>, i: int, prev_space: bool) -> Option<(Seq<u8>, int)>
    decreases s.len() - i,
{
    if i < 0 || i > s.len() {
        None
    } else {
        let ch = char_at(s, i);
        if ch == ']' || pair_at(s, i, '\\', 'x') || pair_at(s, i, '\\', 'b')
            || pair_at(s, i, '/', '/') || pair_at(s, i, '/', '*') {
            Some((Seq::empty(), i))
        } else if ch == '\r' || ch == '\n' {
            if prev_space { None } else { Some((Seq::empty(), i)) }
        } else if ch == '\t' {
            None
        } else if ch == '\\' {
            match ascii_escape(char_at(s, i + 1)) {
                Some(b) => if i + 2 <= s.len() { prepend_bytes(seq![b], ascii_seq(s, i + 2, false)) } else { None },
                None => None,
            }
        } else if !('!' <= ch <= '~') && ch != ' ' {
            Some((Seq::empty(), i))
        } else {
            prepend_bytes(seq![(ch as u32) as u8], ascii_seq(s, i + 1, ch == ' '))
        }
    }
}

/// Read the ASCII sequence of a byte array literal
fn parse_ascii(input: &mut Lexer, bytes: &mut Vec<u8>) -> (r: Result<(), ParseError>)
    requires
        ready(*old(input)),
    ensures
        advanced(*old(input), *final(input)),
        r is Ok ==> ready(*final(input)),
        r is Ok <==> ascii_seq(old(input).spec_input(), old(input).spec_idx(), ends_in_space(old(bytes)@)) is Some,
        r is Ok ==> ascii_seq(old(input).spec_input(), old(input).spec_idx(), ends_in_space(old(bytes)@))
            == Some((final(bytes)@.subrange(old(bytes)@.len() as int, final(bytes)@.len() as int), final(input).spec_idx())),
        final(bytes)@.len() >= old(bytes)@.len(),
        final(bytes)@.subrange(0, old(bytes)@.len() as int) == old(bytes)@,
{
    let bs_x = ['\\', 'x'];
    let bs_b = ['\\', 'b'];
    let slash_slash = ['/', '/'];
    let slash_star = ['/', '*'];
    let ghost s = input.spec_input();
    let ghost n0 = bytes@.len() as int;
    let ghost p0 = ends_in_space(old(bytes)@);
    proof {
        assert(bs_x@ =~= seq!['\\', 'x']);
        assert(bs_b@ =~= seq!['\\', 'b']);
        assert(slash_slash@ =~= seq!['/', '/']);
        assert(slash_star@ =~= seq!['/', '*']);
        assert(bytes@.subrange(0, n0) =~= old(bytes)@);
        assert(bytes@.subrange(n0, bytes@.len() as int) =~= Seq::<u8>::empty());
        let o = ascii_seq(s, input.spec_idx(), p0);
        assert(prepend_bytes(Seq::<u8>::empty(), o) =~= o) by {
            if let Some((bs, e)) = o {
                assert(Seq::<u8>::empty() + bs =~= bs);
            }
        }
    }

    loop
        invariant
            advanced(*old(input), *input),
            ready(*input),
            s == input.spec_input(),
            n0 == old(bytes)@.len(),
            p0 == ends_in_space(old(bytes)@),
            bs_x@ == seq!['\\', 'x'],
            bs_b@ == seq!['\\', 'b'],
            slash_slash@ == seq!['/', '/'],
            slash_star@ == seq!['/', '*'],
            bytes@.len() >= n0,
            bytes@.subrange(0, n0) == old(bytes)@,
            n0 == bytes@.len() ==> p0 == ends_in_space(bytes@),
            ascii_seq(s, old(input).spec_idx(), p0)
                == prepend_bytes(bytes@.subrange(n0, bytes@.len() as int), ascii_seq(s, input.spec_idx(), ends_in_space(bytes@))),
        ensures
            ascii_seq(s, old(input).spec_idx(), p0)
                == Some((bytes@.subrange(n0, bytes@.len() as int), input.spec_idx())),
        decreases remaining(*input),
    {
        let ghost i = input.spec_idx();
        let ghost added = bytes@.subrange(n0, bytes@.len() as int);
        proof {
            input.lemma_wf();
            lemma_peek2(s, i, '\\', 'x');
            lemma_peek2(s, i, '\\', 'b');
            lemma_peek2(s, i, '/', '/');
            lemma_peek2(s, i, '/', '*');
            assert(added + Seq::<u8>::empty() =~= added);
        }
        let ch = input.peek_ch();

        if ch == ']' {
            break;
        }

        if input.peek_chars(&bs_x) {
            break;
        }

        if input.peek_chars(&bs_b) {
            break;
        }

        if input.peek_chars(&slash_slash) {
            break;
        }

        if input.peek_chars(&slash_star) {
            break;
        }

        // End of line terminates the ascii sequence
        if ch == '\r' || ch == '\n' {
            if bytes.len() > 0 && bytes[bytes.len() - 1] == 32u8 {
                return input.parse_error("spaces cannot immediately precede end of line in ascii sequence");
            }

            break;
        }

        if ch == '\t' {
            return input.parse_error("tabs disallowed inside bytearray ASCII sequences");
        }

        // Escape sequence
        if ch == '\\' {
            input.eat_ch();
            let e = input.eat_ch();
            let byte: u8 = if e == '\\' {
                92
            } else if e == '\'' {
                39
            } else if e == '"' {
                34
            } else if e == 't' {
                9
            } else if e == 'r' {
                13
            } else if e == 'n' {
                10
            } else if e == '0' {
                0
            } else {
                return input.parse_error("unknown escape sequence");
            };

            bytes.push(byte);
            proof {
                assert(bytes@.subrange(n0, bytes@.len() as int) =~= added.push(byte));
                assert(bytes@.subrange(0, n0) =~= old(bytes)@);
                lemma_prepend_push(added, byte, ascii_seq(s, input.spec_idx(), false));
            }
            continue;
        }

        if !is_ascii_graphic(ch) && ch != ' ' {
            break;
        }

        input.eat_ch();
        let byte: u8 = (ch as u32) as u8;
        bytes.push(byte);
        proof {
            assert(bytes@.subrange(n0, bytes@.len() as int) =~= added.push(byte));
            assert(bytes@.subrange(0, n0) =~= old(bytes)@);
            lemma_prepend_push(added, byte, ascii_seq(s, input.spec_idx(), ch == ' '));
        }
    }

    Ok(())
}

/// Whether a character is an ASCII letter or digit
pub open spec fn spec_is_alnum(ch: char) -> bool {
    ('a' <= ch <= 'z') || ('A' <= ch <= 'Z') || ('0' <= ch <= '9')
}

/// Bytes `p` put in front of the bytes of a sequence that was read, if
/// it was
pub open spec fn prepend_bytes(p: Seq<u8>, o: Option<(Seq<u8>, int)>) -> Option<(Seq<u8>, int)> {
    match o {
        Some((bs, e)) => Some((p + bs, e)),
        None => None,
    }
}

/// The hexadecimal sequence of a byte array literal that starts at `i`:
/// pairs of hexadecimal digits, with whitespace and comments around them,
/// up to a `]` or another character that is not a letter or digit. Its
/// bytes and the position after it, or none where it is malformed
pub open spec fn hex_seq(s: Seq<char>, i: int) -> Option<(Seq<u8>, int)>
    decreases s.len() - i,
{
    if i < 0 || i > s.len() {
        None
    } else {
        proof { lemma_skip_ws(s, i); }
        match skip_ws(s, i) {
            None => None,
            Some(j) => {
                let c = char_at(s, j);
                if c == ']' || !spec_is_alnum(c) {
                    Some((Seq::empty(), j))
                } else if j + 1 < s.len() && spec_to_digit(c, 16) is Some
                    && spec_to_digit(s[j + 1], 16) is Some {
                    let b = (spec_to_digit(c, 16)->0 * 16 + spec_to_digit(s[j + 1], 16)->0) as u8;
                    prepend_bytes(seq![b], hex_seq(s, j + 2))
                } else {
                    None
                }
            }
        }
    }
}

proof fn lemma_prepend_push(p: Seq<u8>, b: u8, o: Option<(Seq<u8>, int)>)
    ensures
        prepend_bytes(p, prepend_bytes(seq![b], o)) == prepend_bytes(p.push(b), o),
{
    if let Some((bs, e)) = o {
        assert(p + (seq![b] + bs) =~= p.push(b) + bs);
    }
}

/// Read the hexadecimal sequence of a byte array literal
fn parse_hex(input: &mut Lexer, bytes: &mut Vec<u8>) -> (r: Result<(), ParseError>)
    requires
        ready(*old(input)),
    ensures
        advanced(*old(input), *final(input)),
        r is Ok ==> ready(*final(input)),
        r is Ok <==> hex_seq(old(input).spec_input(), old(input).spec_idx()) is Some,
        r is Ok ==> hex_seq(old(input).spec_input(), old(input).spec_idx())
            == Some((final(bytes)@.subrange(old(bytes)@.len() as int, final(bytes)@.len() as int), final(input).spec_idx())),
        final(bytes)@.len() >= old(bytes)@.len(),
        final(bytes)@.subrange(0, old(bytes)@.len() as int) == old(bytes)@,
{
    let ghost s = input.spec_input();
    let ghost n0 = bytes@.len() as int;
    proof {
        assert(bytes@.subrange(0, n0) =~= old(bytes)@);
        assert(bytes@.subrange(n0, bytes@.len() as int) =~= Seq::<u8>::empty());
        assert(prepend_bytes(Seq::<u8>::empty(), hex_seq(s, input.spec_idx())) =~= hex_seq(s, input.spec_idx())) by {
            if let Some((bs, e)) = hex_seq(s, input.spec_idx()) {
                assert(Seq::<u8>::empty() + bs =~= bs);
            }
        }
    }
    loop
        invariant
            advanced(*old(input), *input),
            ready(*input),
            s == input.spec_input(),
            n0 == old(bytes)@.len(),
            bytes@.len() >= n0,
            bytes@.subrange(0, n0) == old(bytes)@,
            hex_seq(s, old(input).spec_idx())
                == prepend_bytes(bytes@.subrange(n0, bytes@.len() as int), hex_seq(s, input.spec_idx())),
        ensures
            hex_seq(s, old(input).spec_idx())
                == Some((bytes@.subrange(n0, bytes@.len() as int), input.spec_idx())),
        decreases remaining(*input),
    {
        let ghost i = input.spec_idx();
        proof {
            input.lemma_wf();
            lemma_skip_ws(s, i);
            assert(hex_seq(s, i) == (match skip_ws(s, i) {
                None => None,
                Some(j) => {
                    let c = char_at(s, j);
                    if c == ']' || !spec_is_alnum(c) {
                        Some((Seq::empty(), j))
                    } else if j + 1 < s.len() && spec_to_digit(c, 16) is Some
                        && spec_to_digit(s[j + 1], 16) is Some {
                        let b = (spec_to_digit(c, 16)->0 * 16 + spec_to_digit(s[j + 1], 16)->0) as u8;
                        prepend_bytes(seq![b], hex_seq(s, j + 2))
                    } else {
                        None
                    }
                }
            }));
        }
        // Ignore whitespace
        input.eat_ws()?;

        let ch = input.peek_ch();

        if ch == ']' || !is_ascii_alphanumeric(ch) {
            proof {
                let added = bytes@.subrange(n0, bytes@.len() as int);
                assert(added + Seq::<u8>::empty() =~= added);
            }
            break;
        }

        // Read one hex byte
        let ch0 = crate::lexer::to_digit(input.eat_ch(), 16);
        let ch1 = crate::lexer::to_digit(input.eat_ch(), 16);

        match (ch0, ch1) {
            (Some(d0), Some(d1)) => {
                let ghost added = bytes@.subrange(n0, bytes@.len() as int);
                bytes.push((d0 * 16 + d1) as u8);
                proof {
                    let b = (d0 * 16 + d1) as u8;
                    assert(bytes@.subrange(n0, bytes@.len() as int) =~= added.push(b));
                    assert(bytes@.subrange(0, n0) =~= old(bytes)@);
                    lemma_prepend_push(added, b, hex_seq(s, input.spec_idx()));
                }
            }
            _ => {
                return input.parse_error("invalid or incomplete hex byte");
            }
        }
    }

    Ok(())
}

/// Largest value, plus one, that `i` bits hold
pub open spec fn bits_bound(i: nat) -> nat
    decreases i,
{
    if i == 0 { 1 } else { 2 * bits_bound((i - 1) as nat) }
}

/// Value of the binary digits at positions `a..b`
pub open spec fn bits_value(s: Seq<char>, a: int, b: int) -> int
    decreases b - a,
{
    if b <= a { 0 } else { 2 * bits_value(s, a, b - 1) + (if s[b - 1] == '1' { 1int } else { 0 }) }
}

/// Whether every position in `a..b` holds a binary digit
pub open spec fn all_bits(s: Seq<char>, a: int, b: int) -> bool {
    forall|k: int| a <= k < b ==> #[trigger] s[k] == '0' || s[k] == '1'
}

/// The binary sequence of a byte array literal that starts at `i`: groups
/// of eight binary digits, with whitespace and comments around them, up
/// to a `]` or another character that is not a binary digit. Its bytes
/// and the position after it, or none where it is malformed
pub open spec fn bin_seq(s: Seq<char>, i: int) -> Option<(Seq<u8>, int)>
    decreases s.len() - i,
{
    if i < 0 || i > s.len() {
        None
    } else {
        proof { lemma_skip_ws(s, i); }
        match skip_ws(s, i) {
            None => None,
            Some(j) => {
                let c = char_at(s, j);
                if c == ']' || (c != '0' && c != '1') {
                    Some((Seq::empty(), j))
                } else if j + 8 <= s.len() && all_bits(s, j, j + 8) {
                    prepend_bytes(seq![bits_value(s, j, j + 8) as u8], bin_seq(s, j + 8))
                } else {
                    None
                }
            }
        }
    }
}

/// Read the binary sequence of a byte array literal
fn parse_bin(input: &mut Lexer, bytes: &mut Vec<u8>) -> (r: Result<(), ParseError>)
    requires
        ready(*old(input)),
    ensures
        advanced(*old(input), *final(input)),
        r is Ok ==> ready(*final(input)),
        r is Ok <==> bin_seq(old(input).spec_input(), old(input).spec_idx()) is Some,
        r is Ok ==> bin_seq(old(input).spec_input(), old(input).spec_idx())
            == Some((final(bytes)@.subrange(old(bytes)@.len() as int, final(bytes)@.len() as int), final(input).spec_idx())),
        final(bytes)@.len() >= old(bytes)@.len(),
        final(bytes)@.subrange(0, old(bytes)@.len() as int) == old(bytes)@,
{
    let ghost s = input.spec_input();
    let ghost n0 = bytes@.len() as int;
    proof {
        assert(bytes@.subrange(0, n0) =~= old(bytes)@);
        assert(bytes@.subrange(n0, bytes@.len() as int) =~= Seq::<u8>::empty());
        assert(prepend_bytes(Seq::<u8>::empty(), bin_seq(s, input.spec_idx())) =~= bin_seq(s, input.spec_idx())) by {
            if let Some((bs, e)) = bin_seq(s, input.spec_idx()) {
                assert(Seq::<u8>::empty() + bs =~= bs);
            }
        }
    }
    loop
        invariant
            advanced(*old(input), *input),
            ready(*input),
            s == input.spec_input(),
            n0 == old(bytes)@.len(),
            bytes@.len() >= n0,
            bytes@.subrange(0, n0) == old(bytes)@,
            bin_seq(s, old(input).spec_idx())
                == prepend_bytes(bytes@.subrange(n0, bytes@.len() as int), bin_seq(s, input.spec_idx())),
        ensures
            bin_seq(s, old(input).spec_idx())
                == Some((bytes@.subrange(n0, bytes@.len() as int), input.spec_idx())),
        decreases remaining(*input),
    {
        let ghost i0 = input.spec_idx();
        proof {
            input.lemma_wf();
            lemma_skip_ws(s, i0);
            assert(bin_seq(s, i0) == (match skip_ws(s, i0) {
                None => None,
                Some(j) => {
                    let c = char_at(s, j);
                    if c == ']' || (c != '0' && c != '1') {
                        Some((Seq::empty(), j))
                    } else if j + 8 <= s.len() && all_bits(s, j, j + 8) {
                        prepend_bytes(seq![bits_value(s, j, j + 8) as u8], bin_seq(s, j + 8))
                    } else {
                        None
                    }
                }
            }));
        }
        // Ignore whitespace
        input.eat_ws()?;

        let ch = input.peek_ch();

        if ch == ']' || (ch != '0' && ch != '1') {
            proof {
                let added = bytes@.subrange(n0, bytes@.len() as int);
                assert(added + Seq::<u8>::empty() =~= added);
            }
            break;
        }

        // Read one binary byte
        let mut byte: u32 = 0;
        let mut i: usize = 0;
        let ghost start = input.spec_idx();
        while i < 8
            invariant
                advanced(*old(input), *input),
                ready(*input),
                s == input.spec_input(),
                i <= 8,
                byte < bits_bound(i as nat),
                byte == bits_value(s, start, start + i),
                input.spec_idx() == start + i,
                start + i <= s.len(),
                all_bits(s, start, start + i),
                0 <= start,
                n0 == old(bytes)@.len(),
                bytes@.len() >= n0,
                bytes@.subrange(0, n0) == old(bytes)@,
                bin_seq(s, old(input).spec_idx())
                    == prepend_bytes(bytes@.subrange(n0, bytes@.len() as int), bin_seq(s, i0)),
                bin_seq(s, i0) == (if start + 8 <= s.len() && all_bits(s, start, start + 8) {
                    prepend_bytes(seq![bits_value(s, start, start + 8) as u8], bin_seq(s, start + 8))
                } else {
                    None
                }),
            decreases 8 - i,
        {
            proof { input.lemma_wf(); }
            let d = crate::lexer::to_digit(input.eat_ch(), 2);

            match d {
                None => {
                    proof {
                        assert(!(start + 8 <= s.len() && all_bits(s, start, start + 8))) by {
                            if start + 8 <= s.len() && all_bits(s, start, start + 8) {
                                assert(s[start + i] == '0' || s[start + i] == '1');
                            }
                        }
                    }
                    return input.parse_error("each binary byte must contain exactly 8 bits");
                }
                Some(d) => {
                    proof {
                        reveal_with_fuel(bits_bound, 9);
                    }
                    byte = byte * 2 + d;
                }
            }
            i = i + 1;
        }

        proof { reveal_with_fuel(bits_bound, 9); }
        let ghost added = bytes@.subrange(n0, bytes@.len() as int);
        bytes.push(byte as u8);
        proof {
            let b = byte as u8;
            assert(bytes@.subrange(n0, bytes@.len() as int) =~= added.push(b));
            assert(bytes@.subrange(0, n0) =~= old(bytes)@);
            lemma_prepend_push(added, b, bin_seq(s, input.spec_idx()));
        }
    }

    Ok(())
}

pub proof fn lemma_hex_seq_end(s: Seq<char>, i: int)
    ensures
        hex_seq(s, i) matches Some((_, e)) ==> i <= e <= s.len(),
    decreases s.len() - i,
{
    if 0 <= i <= s.len() {
        lemma_skip_ws(s, i);
        if let Some(j) = skip_ws(s, i) {
            if j + 1 < s.len() {
                lemma_hex_seq_end(s, j + 2);
            }
        }
    }
}

pub proof fn lemma_bin_seq_end(s: Seq<char>, i: int)
    ensures
        bin_seq(s, i) matches Some((_, e)) ==> i <= e <= s.len(),
    decreases s.len() - i,
{
    if 0 <= i <= s.len() {
        lemma_skip_ws(s, i);
        if let Some(j) = skip_ws(s, i) {
            if j + 8 <= s.len() {
                lemma_bin_seq_end(s, j + 8);
            }
        }
    }
}

pub proof fn lemma_ascii_seq_end(s: Seq<char>, i: int, prev_space: bool)
    ensures
        ascii_seq(s, i, prev_space) matches Some((_, e)) ==> i <= e <= s.len(),
    decreases s.len() - i,
{
    if 0 <= i <= s.len() {
        if i + 2 <= s.len() {
            lemma_ascii_seq_end(s, i + 2, false);
        }
        if i + 1 <= s.len() {
            lemma_ascii_seq_end(s, i + 1, true);
            lemma_ascii_seq_end(s, i + 1, false);
        }
    }
}

/// The rest of a byte array literal from position `i`, where `acc` holds
/// the bytes read so far: control sequences `\a`, `\x` and `\b`, each
/// followed by its sequence, with whitespace and comments between them,
/// up to the closing `]`. All of its bytes and the position after the
/// `]`, or none where it is malformed
pub open spec fn bytearray_rest(s: Seq<char>, i: int, acc: Seq<u8>) -> Option<(Seq<u8>, int)>
    decreases s.len() - i,
{
    if i < 0 || i > s.len() {
        None
    } else {
        proof { lemma_skip_ws(s, i); }
        match skip_ws(s, i) {
            None => None,
            Some(j) => {
                if j >= s.len() {
                    None
                } else if s[j] == ']' {
                    Some((acc, j + 1))
                } else if s[j] != '\\' || j + 1 >= s.len() {
                    None
                } else if s[j + 1] == 'a' {
                    proof { lemma_ascii_seq_end(s, j + 2, ends_in_space(acc)); }
                    match ascii_seq(s, j + 2, ends_in_space(acc)) {
                        Some((bs, e)) => bytearray_rest(s, e, acc + bs),
                        None => None,
                    }
                } else if s[j + 1] == 'x' {
                    proof { lemma_hex_seq_end(s, j + 2); }
                    match hex_seq(s, j + 2) {
                        Some((bs, e)) => bytearray_rest(s, e, acc + bs),
                        None => None,
                    }
                } else if s[j + 1] == 'b' {
                    proof { lemma_bin_seq_end(s, j + 2); }
                    match bin_seq(s, j + 2) {
                        Some((bs, e)) => bytearray_rest(s, e, acc + bs),
                        None => None,
                    }
                } else {
                    None
                }
            }
        }
    }
}

/// Parse a byte array literal, after its opening `#[`
fn parse_bytearray(input: &mut Lexer, pos: SrcPos) -> (r: Result<ExprBox, ParseError>)
    requires
        ready(*old(input)),
    ensures
        advanced(*old(input), *final(input)),
        r is Ok ==> ready(*final(input)),
        r is Ok <==> bytearray_rest(old(input).spec_input(), old(input).spec_idx(), Seq::empty()) is Some,
        r matches Ok(e) ==> e.pos == pos && (*e.expr matches Expr::ByteArray(v)
            && bytearray_rest(old(input).spec_input(), old(input).spec_idx(), Seq::empty())
                == Some((v@, final(input).spec_idx()))),
{
    proof { reveal_strlit("]"); }
    let mut bytes: Vec<u8> = Vec::new();
    let ghost s = input.spec_input();

    loop
        invariant_except_break
            bytearray_rest(s, old(input).spec_idx(), Seq::empty())
                == bytearray_rest(s, input.spec_idx(), bytes@),
        invariant
            advanced(*old(input), *input),
            ready(*input),
            s == input.spec_input(),
        ensures
            bytearray_rest(s, old(input).spec_idx(), Seq::empty()) == Some((bytes@, input.spec_idx())),
        decreases remaining(*input),
    {
        let ghost i = input.spec_idx();
        proof {
            input.lemma_wf();
            lemma_skip_ws(s, i);
        }
        // Ignore whitespace
        input.eat_ws()?;

        proof { reveal_strlit("]"); }
        if input.eof() {
            return input.parse_error("unexpected end of input inside byte array literal");
        }

        let ghost j = input.spec_idx();
        if input.match_token("]")? {
            proof {
                assert(s.subrange(j, j + 1)[0] == s[j]);
            }
            break;
        }
        proof {
            if s[j] == ']' {
                assert(s.subrange(j, j + 1) =~= "]"@);
            }
        }

        let ch = input.eat_ch();

        if ch != '\\' {
            return input.parse_error("expected control sequence inside bytearray literal");
        }

        let kind = input.eat_ch();
        let ghost before = bytes@;
        if kind == 'a' {
            parse_ascii(input, &mut bytes)?;
        } else if kind == 'x' {
            parse_hex(input, &mut bytes)?;
        } else if kind == 'b' {
            parse_bin(input, &mut bytes)?;
        } else {
            return input.parse_error("unknown control sequence in bytearray literal");
        }
        proof {
            assert(bytes@ =~= before + bytes@.subrange(before.len() as int, bytes@.len() as int));
        }
    }

    Ok(ExprBox::new(Expr::ByteArray(bytes), pos))
}

/// Parse a complex infix expression
/// This uses the shunting yard algorithm to parse infix expressions:
/// https://en.wikipedia.org/wiki/Shunting_yard_algorithm
fn parse_expr(input: &mut Lexer, prog: &mut Program) -> (r: Result<ExprBox, ParseError>)
    requires
        ready(*old(input)),
        old(prog).wf(),
    ensures
        advanced(*old(input), *final(input)),
        r is Ok ==> ready(*final(input)),
        final(prog).wf(),
        old(input).spec_ws_end() is None ==> r is Err,
        only_blank_left(*old(input)) ==> r is Err,
    decreases remaining(*old(input)), 8int,
{
    proof {
        reveal_strlit("?");
        reveal_strlit(":");
    }

    // Operator stack
    let mut op_stack: Vec<OpInfo> = Vec::new();

    // Expression stack
    let mut expr_stack: Vec<ExprBox> = Vec::new();

    // Parse the prefix sub-expression
    let first = parse_prefix(input, prog)?;
    expr_stack.push(first);

    loop
        invariant
            advanced(*old(input), *input),
            ready(*input),
            prog.wf(),
            expr_stack@.len() == op_stack@.len() + 1,
        decreases remaining(*input),
    {
        proof { reveal_strlit("?"); reveal_strlit(":"); }
        if input.eof() {
            break;
        }

        // Ternary operator
        if input.match_token("?")? {
            // We have to evaluate lower-precedence operators now
            // in order to use the resulting value for the boolean test
            eval_lower_prec(&mut op_stack, &mut expr_stack, TERNARY_PREC);

            let test_expr = expr_stack.pop().unwrap();
            let then_expr = parse_expr(input, prog)?;
            input.expect_token(":")?;
            let else_expr = parse_expr(input, prog)?;

            let pos = test_expr.pos;
            expr_stack.push(ExprBox::new(Expr::Ternary { test_expr, then_expr, else_expr }, pos));

            break;
        }

        let new_op = match match_bin_op(input)? {
            // If no operator could be matched, stop
            None => { break; }
            Some(o) => o,
        };

        // If this operator evaluates right-to-left,
        // e.g. an assignment operator
        if new_op.rtl {
            // Recursively parse the rhs expression,
            // forcing it to be evaluated before the lhs
            let rhs = parse_expr(input, prog)?;
            let lhs = expr_stack.pop().unwrap();

            let pos = lhs.pos;
            expr_stack.push(ExprBox::new(Expr::Binary { op: new_op.op, lhs, rhs }, pos));

            break;
        }

        // Evaluate the operators with lower precedence than
        // the new operator we just read
        eval_lower_prec(&mut op_stack, &mut expr_stack, new_op.prec);

        op_stack.push(new_op);

        // There must be another prefix sub-expression following
        let operand = parse_prefix(input, prog)?;
        expr_stack.push(operand);
    }

    // Emit all operators remaining on the operator stack
    while op_stack.len() > 0
        invariant
            expr_stack@.len() == op_stack@.len() + 1,
        decreases op_stack@.len(),
    {
        let rhs = expr_stack.pop().unwrap();
        let lhs = expr_stack.pop().unwrap();
        let top_op = op_stack.pop().unwrap();

        let pos = lhs.pos;
        expr_stack.push(ExprBox::new(Expr::Binary { op: top_op.op, lhs, rhs }, pos));
    }

    Ok(expr_stack.pop().unwrap())
}

/// Parse a block statement
fn parse_block_stmt(input: &mut Lexer, prog: &mut Program) -> (r: Result<StmtBox, ParseError>)
    requires
        ready(*old(input)),
        old(prog).wf(),
    ensures
        advanced(*old(input), *final(input)),
        r is Ok ==> ready(*final(input)) && old(input).spec_idx() < final(input).spec_idx(),
        final(prog).wf(),
        !(old(input).spec_ws_end() matches Some(j) && j < old(input).spec_input().len()
            && old(input).spec_input()[j] == '{') ==> r is Err,
        r matches Ok(st) ==> *st.stmt is Block && st.pos == pos_at(*old(input), old(input).spec_ws_end()->0),
    decreases remaining(*old(input)), 9int,
{
    proof {
        reveal_strlit("{");
        reveal_strlit("}");
        reveal_strlit(";");
    }
    input.eat_ws()?;
    let pos = input.get_pos();
    proof {
        input.lemma_wf();
        let s = input.spec_input();
        let j = input.spec_idx();
        if j < s.len() && s[j] == '{' {
            assert(s.subrange(j, j + 1) =~= "{"@);
        }
        if occurs_at(s, j, "{"@) {
            assert(s.subrange(j, j + 1)[0] == s[j]);
        }
    }
    input.expect_token("{")?;

    let mut stmts: Vec<StmtBox> = Vec::new();

    loop
        invariant
            advanced(*old(input), *input),
            ready(*input),
            old(input).spec_idx() < input.spec_idx(),
            prog.wf(),
        decreases remaining(*input),
    {
        proof { reveal_strlit("}"); reveal_strlit(";"); }
        if input.eof() {
            return input.parse_error("unexpected end of input in block statement");
        }

        if input.match_token("}")? {
            break;
        }

        if input.match_token(";")? {
            // Empty statements are ignored
            continue;
        }

        let stmt = parse_stmt(input, prog)?;
        stmts.push(stmt);
    }

    Ok(StmtBox::new(Stmt::Block(stmts), pos))
}

/// Source position of index `j` of a lexer's input
pub open spec fn pos_at(input: Lexer, j: int) -> SrcPos {
    SrcPos::spec_new(input.spec_file_id(), pos_after(input.spec_input(), 1, 1, 0, j).0 as u32,
        pos_after(input.spec_input(), 1, 1, 0, j).1 as u32)
}

/// A text whose first character differs from the one at `j` does not
/// occur there
proof fn lemma_not_at(s: Seq<char>, j: int, t: Seq<char>)
    requires
        0 <= j < s.len(),
        t.len() >= 1,
        s[j] != t[0],
    ensures
        !occurs_at(s, j, t),
{
    if occurs_at(s, j, t) {
        assert(s.subrange(j, j + t.len())[0] == s[j]);
    }
}

/// Parse a statement
fn parse_stmt(input: &mut Lexer, prog: &mut Program) -> (r: Result<StmtBox, ParseError>)
    requires
        ready(*old(input)),
        old(prog).wf(),
    ensures
        advanced(*old(input), *final(input)),
        r is Ok ==> ready(*final(input)) && old(input).spec_idx() < final(input).spec_idx(),
        final(prog).wf(),
        old(input).spec_ws_end() is None ==> r is Err,
        only_blank_left(*old(input)) ==> r is Err,
        (old(input).spec_ws_end() matches Some(j) && j < old(input).spec_input().len()
            && old(input).spec_input()[j] == ';') ==> r is Err,
        (old(input).spec_ws_end() matches Some(j) && keyword_at(old(input).spec_input(), j, "break"@)
            && (skip_ws(old(input).spec_input(), j + 5) matches Some(k) && k < old(input).spec_input().len()
                && old(input).spec_input()[k] == ';'))
            ==> (r matches Ok(st) && *st.stmt is Break),
        (old(input).spec_ws_end() matches Some(j) && keyword_at(old(input).spec_input(), j, "continue"@)
            && (skip_ws(old(input).spec_input(), j + 8) matches Some(k) && k < old(input).spec_input().len()
                && old(input).spec_input()[k] == ';'))
            ==> (r matches Ok(st) && *st.stmt is Continue),
    decreases remaining(*old(input)), 10int,
{
    proof {
        reveal_strlit("return");
        reveal_strlit("break");
        reveal_strlit("continue");
        reveal_strlit("if");
        reveal_strlit("else");
        reveal_strlit("loop");
        reveal_strlit("while");
        reveal_strlit("for");
        reveal_strlit("assert");
        reveal_strlit("let");
        reveal_strlit("var");
        reveal_strlit("fun");
        reveal_strlit(";");
        reveal_strlit("(");
        reveal_strlit(")");
        reveal_strlit("=");
    }
    input.eat_ws()?;
    let pos = input.get_pos();
    let ghost j0 = input.spec_idx();
    assert(j0 == old(input).spec_ws_end()->0);
    proof {
        let s = input.spec_input();
        let j = input.spec_idx();
        if 0 <= j < s.len() && (s[j] == 'b' || s[j] == 'c') {
            lemma_not_at(s, j, "return"@);
            if s[j] == 'c' {
                lemma_not_at(s, j, "break"@);
            }
        }
        if keyword_at(s, j, "break"@) {
            assert(s.subrange(j, j + 5)[0] == s[j]);
        }
        if keyword_at(s, j, "continue"@) {
            assert(s.subrange(j, j + 8)[0] == s[j]);
        }
        if 0 <= j < s.len() && s[j] == ';' {
            lemma_not_at(s, j, "return"@);
            lemma_not_at(s, j, "break"@);
            lemma_not_at(s, j, "continue"@);
            lemma_not_at(s, j, "if"@);
            lemma_not_at(s, j, "loop"@);
            lemma_not_at(s, j, "while"@);
            lemma_not_at(s, j, "for"@);
            lemma_not_at(s, j, "assert"@);
            lemma_not_at(s, j, "let"@);
            lemma_not_at(s, j, "fun"@);
        }
    }

    if input.match_keyword("return")? {
        if input.match_token(";")? {
            return Ok(StmtBox::new(Stmt::Return { value: ExprBox::new(Expr::Nil, pos) }, pos));
        } else {
            let expr = parse_expr(input, prog)?;
            input.expect_token(";")?;
            return Ok(StmtBox::new(Stmt::Return { value: expr }, pos));
        }
    }

    if input.match_keyword("break")? {
        proof {
            let s = input.spec_input();
            input.lemma_wf();
            lemma_skip_ws(s, input.spec_idx());
            if let Some(k) = input.spec_ws_end() {
                if k < s.len() && s[k] == ';' {
                    assert(s.subrange(k, k + 1) =~= ";"@);
                }
            }
        }
        input.expect_token(";")?;
        return Ok(StmtBox::new(Stmt::Break, pos));
    }

    if input.match_keyword("continue")? {
        proof {
            let s = input.spec_input();
            input.lemma_wf();
            lemma_skip_ws(s, input.spec_idx());
            if let Some(k) = input.spec_ws_end() {
                if k < s.len() && s[k] == ';' {
                    assert(s.subrange(k, k + 1) =~= ";"@);
                }
            }
        }
        input.expect_token(";")?;
        return Ok(StmtBox::new(Stmt::Continue, pos));
    }

    // If-else statement
    if input.match_keyword("if")? {
        // Parse the test expression
        input.expect_token("(")?;
        let test_expr = parse_expr(input, prog)?;
        input.expect_token(")")?;

        // Parse the then statement
        let then_stmt = parse_stmt(input, prog)?;

        // If there is an else statement
        if input.match_keyword("else")? {
            // Parse the else statement
            let else_stmt = parse_stmt(input, prog)?;
            return Ok(StmtBox::new(Stmt::If { test_expr, then_stmt, else_stmt: Some(else_stmt) }, pos));
        } else {
            return Ok(StmtBox::new(Stmt::If { test_expr, then_stmt, else_stmt: None }, pos));
        }
    }

    // Infinite loop
    if input.match_keyword("loop")? {
        // Parse the loop body
        let body_stmt = parse_stmt(input, prog)?;

        return Ok(StmtBox::new(
            Stmt::For {
                init_stmt: StmtBox::empty(),
                test_expr: ExprBox::new(Expr::True, pos),
                incr_expr: ExprBox::new(Expr::Nil, SrcPos(0)),
                body_stmt,
            },
            pos,
        ));
    }

    // While loop
    if input.match_keyword("while")? {
        // Parse the test expression
        input.expect_token("(")?;
        let test_expr = parse_expr(input, prog)?;
        input.expect_token(")")?;

        // Parse the loop body
        let body_stmt = parse_stmt(input, prog)?;

        return Ok(StmtBox::new(
            Stmt::For {
                init_stmt: StmtBox::empty(),
                test_expr,
                incr_expr: ExprBox::new(Expr::Nil, SrcPos(0)),
                body_stmt,
            },
            pos,
        ));
    }

    // For loop
    if input.match_keyword("for")? {
        input.expect_token("(")?;

        // Initialization statement
        let init_stmt = if input.match_token(";")? {
            StmtBox::empty()
        } else {
            parse_stmt(input, prog)?
        };

        // Test expression
        let test_expr = if input.match_token(";")? {
            ExprBox::new(Expr::True, pos)
        } else {
            let expr = parse_expr(input, prog)?;
            input.expect_token(";")?;
            expr
        };

        // Increment expression
        let incr_expr = if input.match_token(")")? {
            ExprBox::new(Expr::Nil, SrcPos(0))
        } else {
            let expr = parse_expr(input, prog)?;
            input.expect_token(")")?;
            expr
        };

        // Parse the loop body
        let body_stmt = parse_stmt(input, prog)?;

        return Ok(StmtBox::new(Stmt::For { init_stmt, test_expr, incr_expr, body_stmt }, pos));
    }

    // Assert statement
    if input.match_keyword("assert")? {
        // Parse the test expression
        input.expect_token("(")?;
        let test_expr = parse_expr(input, prog)?;
        input.expect_token(")")?;
        input.expect_token(";")?;

        return Ok(StmtBox::new(Stmt::Assert { test_expr }, pos));
    }

    // Block statement
    if input.peek_ch() == '{' {
        return parse_block_stmt(input, prog);
    }

    // Variable declaration
    if input.match_keyword("let")? {
        let mutable = input.match_keyword("var")?;
        input.eat_ws()?;
        let var_name = input.parse_ident()?;
        input.expect_token("=")?;
        let init_expr = parse_expr(input, prog)?;
        input.expect_token(";")?;

        return Ok(StmtBox::new(Stmt::Let { mutable, var_name, init_expr, decl: None }, pos));
    }

    // Function declaration
    if input.match_keyword("fun")? {
        input.eat_ws()?;
        let name = input.parse_ident()?;
        let fun_name = name.clone();
        let fun_id = parse_function(input, prog, name, pos)?;

        let fun_expr = ExprBox::new(Expr::Fun { fun_id, captured: Vec::new() }, pos);

        return Ok(StmtBox::new(
            Stmt::Let { mutable: false, var_name: fun_name, init_expr: fun_expr, decl: None },
            pos,
        ));
    }

    // Unexpected semicolon
    assert(input.spec_idx() == j0);
    assert(input.spec_input() == old(input).spec_input());
    if input.peek_ch() == ';' {
        return input.parse_error("extraneous semicolon `;`");
    }
    proof {
        input.lemma_wf();
        if j0 < old(input).spec_input().len() {
            assert(input.spec_peek_at(0) == old(input).spec_input()[j0]);
        }
    }

    // Try to parse this as an expression statement
    let expr = parse_expr(input, prog)?;
    input.expect_token(";")?;

    Ok(StmtBox::new(Stmt::Expr { value: expr }, pos))
}

/// The names of a list of strings
pub open spec fn names_of(v: Seq<String>) -> Seq<Seq<char>> {
    v.map_values(|x: String| x@)
}

/// The rest of a parameter list from position `i`, where `acc` holds the
/// names read so far: identifiers separated by commas, with whitespace
/// and comments around them, up to the token `end`. All of its names and
/// the position after `end`, or none where it is malformed
pub open spec fn params_rest(s: Seq<char>, i: int, end: Seq<char>, acc: Seq<Seq<char>>) -> Option<(Seq<Seq<char>>, int)>
    decreases s.len() - i,
{
    if i < 0 || i > s.len() {
        None
    } else {
        proof { lemma_skip_ws(s, i); }
        match skip_ws(s, i) {
            None => None,
            Some(j) => {
                if j >= s.len() {
                    None
                } else if occurs_at(s, j, end) {
                    Some((acc, j + end.len()))
                } else if !spec_is_ident_start(s[j]) {
                    None
                } else {
                    proof { lemma_ident_end(s, j); }
                    let e = ident_end(s, j);
                    let acc2 = acc.push(s.subrange(j, e));
                    proof { lemma_skip_ws(s, e); }
                    match skip_ws(s, e) {
                        None => None,
                        Some(k) => {
                            if occurs_at(s, k, end) {
                                Some((acc2, k + end.len()))
                            } else if occurs_at(s, k, seq![',']) {
                                params_rest(s, k + 1, end, acc2)
                            } else {
                                None
                            }
                        }
                    }
                }
            }
        }
    }
}

/// Parse a parameter list, up to its closing token
fn parse_params(input: &mut Lexer, end_token: &str, eoi_msg: &str) -> (r: Result<Vec<String>, ParseError>)
    requires
        ready(*old(input)),
    ensures
        advanced(*old(input), *final(input)),
        r is Ok ==> ready(*final(input)),
        r matches Ok(p) ==> p@.len() <= 255,
        r is Ok <==> (params_rest(old(input).spec_input(), old(input).spec_idx(), end_token@, Seq::empty())
            matches Some((ps, _)) && ps.len() <= 255),
        r matches Ok(p) ==> params_rest(old(input).spec_input(), old(input).spec_idx(), end_token@, Seq::empty())
            == Some((names_of(p@), final(input).spec_idx())),
{
    proof { reveal_strlit(","); }
    let mut params: Vec<String> = Vec::new();
    let ghost s = input.spec_input();
    proof { assert(names_of(params@) =~= Seq::<Seq<char>>::empty()); }

    loop
        invariant_except_break
            params_rest(s, old(input).spec_idx(), end_token@, Seq::empty())
                == params_rest(s, input.spec_idx(), end_token@, names_of(params@)),
        invariant
            advanced(*old(input), *input),
            ready(*input),
            s == input.spec_input(),
        ensures
            params_rest(s, old(input).spec_idx(), end_token@, Seq::empty())
                == Some((names_of(params@), input.spec_idx())),
        decreases remaining(*input),
    {
        proof { reveal_strlit(","); }
        let ghost i = input.spec_idx();
        proof {
            input.lemma_wf();
            lemma_skip_ws(s, i);
            assert(","@ =~= seq![',']);
        }
        input.eat_ws()?;

        if input.eof() {
            return input.parse_error(eoi_msg);
        }

        if input.match_token(end_token)? {
            break;
        }

        // Parse one parameter
        let ghost j = input.spec_idx();
        proof { lemma_ident_end(s, j); }
        let param_name = input.parse_ident()?;
        let ghost before = names_of(params@);
        params.push(param_name);
        proof {
            assert(names_of(params@) =~= before.push(s.subrange(j, ident_end(s, j))));
            lemma_skip_ws(s, input.spec_idx());
        }

        if input.match_token(end_token)? {
            break;
        }

        // If this isn't the last argument, there
        // has to be a comma separator
        input.expect_token(",")?;
    }

    if params.len() > 255 {
        return input.parse_error("too many function parameters");
    }

    Ok(params)
}

/// Whether the last function registered in `prog` has id `id`, name
/// `name` and the parameters of a parameter list that was read
pub open spec fn registered_fun(prog: Program, id: FunId, name: Seq<char>, params: Option<(Seq<Seq<char>>, int)>) -> bool {
    &&& prog.funs@.len() > 0
    &&& prog.funs@.last().id == id
    &&& prog.funs@.last().name@ == name
    &&& params matches Some((ps, _))
    &&& names_of(prog.funs@.last().params@) == ps
}

/// Parse a function declaration, from its parameter list on
fn parse_function(input: &mut Lexer, prog: &mut Program, name: String, pos: SrcPos) -> (r: Result<FunId, ParseError>)
    requires
        ready(*old(input)),
        old(prog).wf(),
    ensures
        advanced(*old(input), *final(input)),
        r is Ok ==> ready(*final(input)) && old(input).spec_idx() < final(input).spec_idx(),
        final(prog).wf(),
        r matches Ok(id) ==> final(prog).has_fun(id),
        !(old(input).spec_ws_end() matches Some(j) && occurs_at(old(input).spec_input(), j, "("@)) ==> r is Err,
        r matches Ok(id) ==> registered_fun(*final(prog), id, name@,
            params_rest(old(input).spec_input(), old(input).spec_ws_end()->0 + 1, ")"@, Seq::empty())),
    decreases remaining(*old(input)), 11int,
{
    proof { reveal_strlit("("); }
    input.expect_token("(")?;
    let params = parse_params(input, ")", "unexpected end of input inside function parameter list")?;

    // Parse the function body (must be a block statement)
    let body = parse_block_stmt(input, prog)?;

    let fun = Function::new(name, params, body, false, pos);

    match prog.reg_fun(fun) {
        Some(fun_id) => {
            assert(prog.funs@[prog.funs@.len() - 1].id == fun_id);
            Ok(fun_id)
        }
        None => input.parse_error("too many functions in the program"),
    }
}

/// Parse a lambda expression
fn parse_lambda(input: &mut Lexer, prog: &mut Program, pos: SrcPos) -> (r: Result<FunId, ParseError>)
    requires
        ready(*old(input)),
        old(prog).wf(),
    ensures
        advanced(*old(input), *final(input)),
        r is Ok ==> ready(*final(input)),
        final(prog).wf(),
        r matches Ok(id) ==> final(prog).has_fun(id),
        !(old(input).spec_ws_end() matches Some(j) && occurs_at(old(input).spec_input(), j, "|"@)) ==> r is Err,
        r matches Ok(id) ==> registered_fun(*final(prog), id, "lambda"@,
            params_rest(old(input).spec_input(), old(input).spec_ws_end()->0 + 1, "|"@, Seq::empty())),
    decreases remaining(*old(input)), 4int,
{
    proof { reveal_strlit("|"); reveal_strlit("lambda"); }
    input.expect_token("|")?;
    let params = parse_params(input, "|", "unexpected end of input inside lambda parameter list")?;

    input.eat_ws()?;

    let body = if input.peek_ch() == '{' {
        // Parse the function body (must be a block statement)
        parse_block_stmt(input, prog)?
    } else {
        let expr = parse_expr(input, prog)?;
        StmtBox::new(Stmt::Return { value: expr }, pos)
    };

    let fun = Function::new("lambda".to_owned(), params, body, false, pos);

    match prog.reg_fun(fun) {
        Some(fun_id) => {
            assert(prog.funs@[prog.funs@.len() - 1].id == fun_id);
            Ok(fun_id)
        }
        None => input.parse_error("too many functions in the program"),
    }
}

/// Whether no two entries of a list are under the same name
pub open spec fn distinct_names(methods: Seq<(String, FunId)>) -> bool {
    forall|a: int, b: int| 0 <= a < methods.len() && 0 <= b < methods.len() && a != b
        ==> (#[trigger] methods[a]).0@ != (#[trigger] methods[b]).0@
}

/// Parse a class declaration, after its `class` keyword
fn parse_class(input: &mut Lexer, prog: &mut Program, pos: SrcPos) -> (r: Result<(String, ClassId), ParseError>)
    requires
        ready(*old(input)),
        old(prog).wf(),
    ensures
        advanced(*old(input), *final(input)),
        r is Ok ==> ready(*final(input)),
        final(prog).wf(),
        !(old(input).spec_ws_end() matches Some(j) && j < old(input).spec_input().len()
            && spec_is_ident_start(old(input).spec_input()[j])) ==> r is Err,
        r matches Ok((cname, id)) ==> {
            let s = old(input).spec_input();
            let j = old(input).spec_ws_end()->0;
            &&& cname@ == s.subrange(j, ident_end(s, j))
            &&& final(prog).classes@.len() > 0
            &&& final(prog).classes@.last().id == id
            &&& final(prog).classes@.last().name == cname
            &&& distinct_names(final(prog).classes@.last().methods@)
        },
{
    proof { reveal_strlit("{"); reveal_strlit("}"); }
    let ghost s = input.spec_input();
    proof { input.lemma_wf(); lemma_skip_ws(s, input.spec_idx()); }
    input.eat_ws()?;
    let class_name = input.parse_ident()?;
    let ghost j = old(input).spec_ws_end()->0;
    assert(class_name@ == s.subrange(j, ident_end(s, j)));
    input.expect_token("{")?;

    let mut methods: Vec<(String, FunId)> = Vec::new();

    loop
        invariant
            advanced(*old(input), *input),
            ready(*input),
            prog.wf(),
            distinct_names(methods@),
        decreases remaining(*input),
    {
        proof { reveal_strlit("}"); }
        input.eat_ws()?;

        if input.eof() {
            return input.parse_error("unexpected end of input inside class declaration");
        }

        if input.match_token("}")? {
            break;
        }

        // Parse a method declaration
        let pos = input.get_pos();
        let method_name = input.parse_ident()?;
        let fun_id = parse_function(input, prog, method_name.clone(), pos)?;

        let num_params: usize = match prog.fun_idx(fun_id) {
            Some(i) => prog.funs[i].params.len(),
            None => 0,
        };
        if str_eq(method_name.as_str(), "init") && num_params == 0 {
            return input.parse_error("the init method must have a self parameter");
        }

        // A later method of the same name replaces an earlier one
        let mut replaced = false;
        let mut k: usize = 0;
        while k < methods.len()
            invariant
                k <= methods@.len(),
                distinct_names(methods@),
                !replaced ==> forall|i: int| 0 <= i < k ==> (#[trigger] methods@[i]).0@ != method_name@,
            decreases methods@.len() - k,
        {
            if str_eq(methods[k].0.as_str(), method_name.as_str()) {
                let ghost before = methods@;
                methods.set(k, (method_name.clone(), fun_id));
                assert(forall|i: int| 0 <= i < methods@.len() ==> (#[trigger] methods@[i]).0@ == before[i].0@);
                replaced = true;
            }
            k = k + 1;
        }
        if !replaced {
            methods.push((method_name, fun_id));
        }
    }

    let mut class = Class::new(class_name.clone(), pos);
    class.methods = methods;
    let class_id = match prog.reg_class(class) {
        Some(id) => id,
        None => { return input.parse_error("too many classes in the program"); }
    };

    // Tag each method with the class id
    let n = prog.classes.len();
    let num_methods = prog.classes[n - 1].methods.len();
    let ghost classes = prog.classes;
    assert(classes@.last().name == class_name);
    let mut k: usize = 0;
    while k < num_methods
        invariant
            prog.classes == classes,
            prog.wf(),
            n == prog.classes@.len(),
            n > 0,
            num_methods == prog.classes@[n - 1].methods@.len(),
            k <= num_methods,
        decreases num_methods - k,
    {
        let fun_id = prog.classes[n - 1].methods[k].1;
        match prog.fun_idx(fun_id) {
            Some(i) => {
                let mut fun = prog.take_fun(i);
                fun.class_id = class_id;
                prog.put_fun(i, fun);
                assert forall|j: int| 0 <= j < prog.funs@.len() implies #[trigger] prog.funs@[j].id.index() <= prog.last_id by {
                    if j != i {
                    }
                }
            }
            None => {}
        }
        k = k + 1;
    }

    Ok((class_name, class_id))
}


/// Whether only whitespace and comments are left in a lexer's input
pub open spec fn only_blank_left(input: Lexer) -> bool {
    input.spec_ws_end() matches Some(j) && j >= input.spec_input().len()
}
/// Parse a single unit of source code (e.g. one source file)
pub fn parse_unit(input: &mut Lexer, prog: &mut Program) -> (r: Result<Unit, ParseError>)
    requires
        ready(*old(input)),
        old(prog).wf(),
    ensures
        advanced(*old(input), *final(input)),
        final(prog).wf(),
        r matches Ok(u) ==> final(prog).has_fun(u.unit_fn) && final(input).spec_eof(),
        r matches Ok(u) ==> final(prog).funs@.len() > 0 && final(prog).funs@.last().id == u.unit_fn
            && final(prog).funs@.last().is_unit && *final(prog).funs@.last().body.stmt is Block,
        old(input).spec_ws_end() is None ==> r is Err,
        only_blank_left(*old(input)) && old(prog).last_id < MAX_ID ==> r is Ok,
{
    proof { reveal_strlit("class"); }
    let ghost s = input.spec_input();
    proof { input.lemma_wf(); lemma_skip_ws(s, input.spec_idx()); }
    input.eat_ws()?;
    let pos = input.get_pos();

    let mut classes: Vec<(String, ClassId)> = Vec::new();
    let mut stmts: Vec<StmtBox> = Vec::new();

    loop
        invariant_except_break
            stmts@.len() == 0 ==> input.spec_idx() == old(input).spec_ws_end()->0,
        invariant
            advanced(*old(input), *input),
            ready(*input),
            prog.wf(),
            s == input.spec_input(),
            old(input).spec_ws_end() is Some,
            stmts@.len() == 0 ==> *prog == *old(prog),
            stmts@.len() > 0 ==> !only_blank_left(*old(input)),
        ensures
            input.spec_eof(),
            only_blank_left(*old(input)) ==> stmts@.len() == 0,
        decreases remaining(*input),
    {
        proof { input.lemma_wf(); lemma_skip_ws(s, input.spec_idx()); }
        proof { reveal_strlit("class"); }
        input.eat_ws()?;
        let pos = input.get_pos();

        if input.eof() {
            break;
        }

        if input.match_keyword("class")? {
            let (name, id) = parse_class(input, prog, pos)?;

            // A later class of the same name replaces an earlier one
            let mut replaced = false;
            let mut k: usize = 0;
            while k < classes.len()
                invariant
                    k <= classes@.len(),
                decreases classes@.len() - k,
            {
                if str_eq(classes[k].0.as_str(), name.as_str()) {
                    classes.set(k, (name.clone(), id));
                    replaced = true;
                }
                k = k + 1;
            }
            if !replaced {
                classes.push((name, id));
            }

            stmts.push(StmtBox::new(Stmt::ClassDecl { class_id: id }, pos));
            continue;
        }

        let stmt = parse_stmt(input, prog)?;
        stmts.push(stmt);
    }

    let body = StmtBox::new(Stmt::Block(stmts), pos);
    let unit_fn = Function::new(input.get_src_name(), Vec::new(), body, true, pos);

    match prog.reg_fun(unit_fn) {
        Some(id) => {
            assert(prog.funs@[prog.funs@.len() - 1].id == id);
            Ok(Unit { classes, unit_fn: id })
        }
        None => input.parse_error("too many functions in the program"),
    }
}

/// Parse a whole program from a lexer
pub fn parse_program(input: &mut Lexer) -> (r: Result<Program, ParseError>)
    requires
        ready(*old(input)),
    ensures
        advanced(*old(input), *final(input)),
        r matches Ok(p) ==> p.wf() && p.has_fun(p.main_fn) && p.main_unit.unit_fn == p.main_fn,
        old(input).spec_ws_end() is None ==> r is Err,
        only_blank_left(*old(input)) ==> r is Ok,
{
    let mut prog = Program::new();
    let unit = parse_unit(input, &mut prog)?;
    prog.main_fn = unit.unit_fn;
    prog.main_unit = unit;
    Ok(prog)
}

/// Parse a program from a string of source code
pub fn parse_str(src: &str) -> (r: Result<Program, ParseError>)
    ensures
        r matches Ok(p) ==> p.wf() && p.has_fun(p.main_fn) && p.main_unit.unit_fn == p.main_fn,
        src@.len() > MAX_INPUT_LEN ==> r is Err,
        skip_ws(src@, 0) is None ==> r is Err,
        (src@.len() <= MAX_INPUT_LEN && (skip_ws(src@, 0) matches Some(j) && j >= src@.len())) ==> r is Ok,
{
    let mut files = FileIdMap::new();
    let chars = str_chars(src);
    if chars.len() > MAX_INPUT_LEN {
        return ParseError::with_pos("input is too long", &SrcPos(0));
    }
    let mut input = Lexer::new(src, "src", &mut files);
    parse_program(&mut input)
}

/// Parse the contents of a source file. A shebang line at the start is
/// read as a comment
pub fn parse_file_source(src: &str, file_name: &str, files: &mut FileIdMap) -> (r: Result<Program, ParseError>)
    requires
        old(files).wf(),
    ensures
        final(files).wf(),
        r matches Ok(p) ==> p.wf() && p.has_fun(p.main_fn) && p.main_unit.unit_fn == p.main_fn,
        src@.len() > MAX_INPUT_LEN ==> r is Err,
        old(files).names().len() >= MAX_FILES ==> r is Err,
        (src@.len() <= MAX_INPUT_LEN && old(files).names().len() < MAX_FILES
            && (skip_ws(src@, 0) matches Some(j) && j >= src@.len())) ==> r is Ok,
{
    let chars = str_chars(src);
    if chars.len() > MAX_INPUT_LEN {
        return ParseError::with_pos("input is too long", &SrcPos(0));
    }
    if files.len() >= MAX_FILES as usize {
        return ParseError::with_pos("too many source files", &SrcPos(0));
    }
    let mut input = Lexer::new(src, file_name, files);

    // If a shebang line is present, treat it as a comment
    let shebang = ['#', '!'];
    proof {
        assert(shebang@ =~= seq!['#', '!']);
        lemma_peek2(src@, 0, '#', '!');
    }
    if input.match_chars(&shebang) {
        proof { crate::lexer::lemma_line_comment_end(input.spec_input(), input.spec_idx()); }
        input.eat_comment();
    }

    parse_program(&mut input)
}

} // verus!
