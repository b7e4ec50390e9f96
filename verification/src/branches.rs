//! How a condition compiles to branches, leaf by leaf, and why the jumps
//! it hands back are taken exactly when the condition has the value
//! asked for.
use vstd::prelude::*;
use crate::ast::{BinOp, Expr, ExprBox, UnOp};
use crate::insns::{Insn, Opcode};

verus! {

/// Where a leaf's branch goes when it is taken: out of the condition's
/// code through a jump handed back to the caller, to the end of the
/// condition's code, or to the code of a later leaf
pub enum BranchTarget {
    Exit,
    End,
    At(nat),
}

/// Where running a condition's branches ends: through a jump handed back,
/// or past the end of its code
pub enum WalkEnd {
    Exit,
    End,
}

/// Whether an expression is a node of a condition rather than a leaf
pub open spec fn is_cond_node(e: ExprBox) -> bool {
    (*e.expr matches Expr::Unary { op: UnOp::Not, .. })
        || (*e.expr matches Expr::Binary { op: BinOp::And, .. })
        || (*e.expr matches Expr::Binary { op: BinOp::Or, .. })
}

/// The leaves of a condition, left to right: what is not a negation, a
/// conjunction or a disjunction
pub open spec fn cond_leaves(e: ExprBox) -> Seq<ExprBox>
    decreases e,
{
    match *e.expr {
        Expr::Unary { op: UnOp::Not, child } => cond_leaves(child),
        Expr::Binary { op: BinOp::And, lhs, rhs } => cond_leaves(lhs) + cond_leaves(rhs),
        Expr::Binary { op: BinOp::Or, lhs, rhs } => cond_leaves(lhs) + cond_leaves(rhs),
        _ => seq![e],
    }
}

/// The value of a condition, given the values of its leaves in order
pub open spec fn cond_eval(e: ExprBox, vals: Seq<bool>) -> bool
    decreases e,
{
    match *e.expr {
        Expr::Unary { op: UnOp::Not, child } => !cond_eval(child, vals),
        Expr::Binary { op: BinOp::And, lhs, rhs } => {
            let n = cond_leaves(lhs).len() as int;
            cond_eval(lhs, vals.take(n)) && cond_eval(rhs, vals.skip(n))
        },
        Expr::Binary { op: BinOp::Or, lhs, rhs } => {
            let n = cond_leaves(lhs).len() as int;
            cond_eval(lhs, vals.take(n)) || cond_eval(rhs, vals.skip(n))
        },
        _ => vals[0],
    }
}

/// A layout's later part moved past `d` leaves
pub open spec fn shift(lay: Seq<(bool, BranchTarget)>, d: nat) -> Seq<(bool, BranchTarget)> {
    lay.map_values(|b: (bool, BranchTarget)| (b.0, match b.1 {
        BranchTarget::At(k) => BranchTarget::At(k + d),
        t => t,
    }))
}

/// A layout's first part, whose end is where the second part starts and
/// whose exits go to `exit_to`
pub open spec fn first_part(lay: Seq<(bool, BranchTarget)>, exit_to: BranchTarget) -> Seq<(bool, BranchTarget)> {
    lay.map_values(|b: (bool, BranchTarget)| (b.0, match b.1 {
        BranchTarget::End => BranchTarget::At(lay.len()),
        BranchTarget::Exit => exit_to,
        t => t,
    }))
}

/// Two layouts, one after the other
pub open spec fn combine(l: Seq<(bool, BranchTarget)>, r: Seq<(bool, BranchTarget)>, exit_to: BranchTarget)
    -> Seq<(bool, BranchTarget)>
{
    first_part(l, exit_to) + shift(r, l.len())
}

/// The branches a condition compiles to, one per leaf in order: the value
/// of the leaf on which it is taken, and where it goes. A negation flips
/// the value asked for. When a conjunction must be true, a false left
/// side jumps to the end and a true one goes on to the right side; the
/// other cases follow the same way
pub open spec fn layout(e: ExprBox, jump_if_true: bool) -> Seq<(bool, BranchTarget)>
    decreases e,
{
    match *e.expr {
        Expr::Unary { op: UnOp::Not, child } => layout(child, !jump_if_true),
        Expr::Binary { op: BinOp::And, lhs, rhs } => if jump_if_true {
            combine(layout(lhs, false), layout(rhs, true), BranchTarget::End)
        } else {
            combine(layout(lhs, false), layout(rhs, false), BranchTarget::Exit)
        },
        Expr::Binary { op: BinOp::Or, lhs, rhs } => if jump_if_true {
            combine(layout(lhs, true), layout(rhs, true), BranchTarget::Exit)
        } else {
            combine(layout(lhs, true), layout(rhs, false), BranchTarget::End)
        },
        _ => seq![(jump_if_true, BranchTarget::Exit)],
    }
}

/// Running a layout's branches from leaf `i`, with the leaves' values: a
/// branch whose leaf has the value it is taken on goes where it goes,
/// else the next leaf's code runs
pub open spec fn walk(lay: Seq<(bool, BranchTarget)>, i: int, vals: Seq<bool>) -> WalkEnd
    decreases lay.len() - i,
{
    if i < 0 || i >= lay.len() {
        WalkEnd::End
    } else if vals[i] == lay[i].0 {
        match lay[i].1 {
            BranchTarget::Exit => WalkEnd::Exit,
            BranchTarget::End => WalkEnd::End,
            BranchTarget::At(k) => if i < k && k <= lay.len() { walk(lay, k as int, vals) } else { WalkEnd::End },
        }
    } else {
        walk(lay, i + 1, vals)
    }
}

/// Every branch to a later leaf goes forward, and not past the end
pub open spec fn forward(lay: Seq<(bool, BranchTarget)>) -> bool {
    forall|i: int| 0 <= i < lay.len() ==> (#[trigger] lay[i].1 matches BranchTarget::At(k) ==> i < k <= lay.len())
}

proof fn lemma_combine_len_forward(l: Seq<(bool, BranchTarget)>, r: Seq<(bool, BranchTarget)>, exit_to: BranchTarget)
    requires
        forward(l),
        forward(r),
        r.len() >= 1,
        !(exit_to is At),
    ensures
        combine(l, r, exit_to).len() == l.len() + r.len(),
        forward(combine(l, r, exit_to)),
{
    let c = combine(l, r, exit_to);
    assert forall|i: int| 0 <= i < c.len() implies (#[trigger] c[i].1 matches BranchTarget::At(k) ==> i < k <= c.len()) by {
        if i < l.len() {
            assert(c[i] == first_part(l, exit_to)[i]);
            assert(l[i].1 matches BranchTarget::At(k) ==> i < k <= l.len());
        } else {
            assert(c[i] == shift(r, l.len())[i - l.len()]);
            assert(r[i - l.len()].1 matches BranchTarget::At(k) ==> i - l.len() < k <= r.len());
        }
    }
}

/// A layout has one branch per leaf, and its branches go forward
pub proof fn lemma_layout_shape(e: ExprBox, jump_if_true: bool)
    ensures
        layout(e, jump_if_true).len() == cond_leaves(e).len(),
        cond_leaves(e).len() >= 1,
        forward(layout(e, jump_if_true)),
    decreases e,
{
    match *e.expr {
        Expr::Unary { op: UnOp::Not, child } => {
            lemma_layout_shape(child, !jump_if_true);
        },
        Expr::Binary { op: BinOp::And, lhs, rhs } => {
            lemma_layout_shape(lhs, false);
            lemma_layout_shape(rhs, jump_if_true);
            lemma_layout_shape(rhs, false);
            lemma_layout_shape(rhs, true);
            if jump_if_true {
                lemma_combine_len_forward(layout(lhs, false), layout(rhs, true), BranchTarget::End);
            } else {
                lemma_combine_len_forward(layout(lhs, false), layout(rhs, false), BranchTarget::Exit);
            }
        },
        Expr::Binary { op: BinOp::Or, lhs, rhs } => {
            lemma_layout_shape(lhs, true);
            lemma_layout_shape(rhs, true);
            lemma_layout_shape(rhs, false);
            if jump_if_true {
                lemma_combine_len_forward(layout(lhs, true), layout(rhs, true), BranchTarget::Exit);
            } else {
                lemma_combine_len_forward(layout(lhs, true), layout(rhs, false), BranchTarget::End);
            }
        },
        _ => {
            let lay = layout(e, jump_if_true);
            assert(lay =~= seq![(jump_if_true, BranchTarget::Exit)]);
        },
    }
}

/// Running the second part of a combined layout is running that part on
/// its own leaves
proof fn lemma_walk_second(l: Seq<(bool, BranchTarget)>, r: Seq<(bool, BranchTarget)>, exit_to: BranchTarget,
    vals: Seq<bool>, j: int)
    requires
        forward(r),
        vals.len() == l.len() + r.len(),
        0 <= j <= r.len(),
    ensures
        walk(combine(l, r, exit_to), l.len() + j, vals) == walk(r, j, vals.skip(l.len() as int)),
    decreases r.len() - j,
{
    let c = combine(l, r, exit_to);
    let v2 = vals.skip(l.len() as int);
    if j < r.len() {
        let i = l.len() + j;
        assert(c[i] == shift(r, l.len())[j]);
        assert(v2[j] == vals[i]);
        lemma_walk_second(l, r, exit_to, vals, j + 1);
        match r[j].1 {
            BranchTarget::At(k) => {
                assert(j < k <= r.len());
                lemma_walk_second(l, r, exit_to, vals, k as int);
            },
            _ => {},
        }
    }
}

/// Running the first part of a combined layout: an exit of the first
/// part goes where exits were sent, and its end is the start of the
/// second part
proof fn lemma_walk_first(l: Seq<(bool, BranchTarget)>, r: Seq<(bool, BranchTarget)>, exit_to: BranchTarget,
    vals: Seq<bool>, i: int)
    requires
        forward(l),
        forward(r),
        r.len() >= 1,
        !(exit_to is At),
        vals.len() == l.len() + r.len(),
        0 <= i <= l.len(),
    ensures
        walk(combine(l, r, exit_to), i, vals) == match walk(l, i, vals.take(l.len() as int)) {
            WalkEnd::Exit => if exit_to is Exit { WalkEnd::Exit } else { WalkEnd::End },
            WalkEnd::End => walk(combine(l, r, exit_to), l.len() as int, vals),
        },
    decreases l.len() - i,
{
    let c = combine(l, r, exit_to);
    let v1 = vals.take(l.len() as int);
    lemma_combine_len_forward(l, r, exit_to);
    if i < l.len() {
        assert(c[i] == first_part(l, exit_to)[i]);
        assert(v1[i] == vals[i]);
        lemma_walk_first(l, r, exit_to, vals, i + 1);
        match l[i].1 {
            BranchTarget::At(k) => {
                assert(i < k <= l.len());
                lemma_walk_first(l, r, exit_to, vals, k as int);
            },
            _ => {},
        }
    }
}

proof fn lemma_leaf_walk(e: ExprBox, jump_if_true: bool, vals: Seq<bool>)
    requires
        !is_cond_node(e),
        vals.len() == 1,
    ensures
        (walk(layout(e, jump_if_true), 0, vals) is Exit) == (cond_eval(e, vals) == jump_if_true),
{
    let lay = layout(e, jump_if_true);
    assert(lay =~= seq![(jump_if_true, BranchTarget::Exit)]);
    assert(walk(lay, 1, vals) is End);
    assert(cond_eval(e, vals) == vals[0]);
}

/// The jumps a condition's branches hand back are taken exactly when the
/// condition has the value asked for: running the branches of
/// `layout(e, jump_if_true)`, with any values of the leaves, leaves
/// through a handed-back jump exactly when `e` evaluates to
/// `jump_if_true`, and runs past the end otherwise. So `a && b` asked to
/// jump when true jumps only when both hold, and `a || b` when either
/// does
pub proof fn law_branches_decide_condition(e: ExprBox, jump_if_true: bool, vals: Seq<bool>)
    requires
        vals.len() == cond_leaves(e).len(),
    ensures
        (walk(layout(e, jump_if_true), 0, vals) is Exit) == (cond_eval(e, vals) == jump_if_true),
    decreases e,
{
    lemma_layout_shape(e, jump_if_true);
    match *e.expr {
        Expr::Unary { op, child } => {
            if op == UnOp::Not {
                assert(layout(e, jump_if_true) == layout(child, !jump_if_true));
                assert(cond_leaves(e) == cond_leaves(child));
                assert(cond_eval(e, vals) == !cond_eval(child, vals));
                law_branches_decide_condition(child, !jump_if_true, vals);
            } else {
                lemma_leaf_walk(e, jump_if_true, vals);
            }
        },
        Expr::Binary { op, lhs, rhs } => {
            if op == BinOp::And || op == BinOp::Or {
                let nl = cond_leaves(lhs).len() as int;
                let sl = if op == BinOp::And { false } else { true };
                let exit_to = if (op == BinOp::And) == jump_if_true { BranchTarget::End } else { BranchTarget::Exit };
                let l = layout(lhs, sl);
                let r = layout(rhs, jump_if_true);
                lemma_layout_shape(lhs, sl);
                lemma_layout_shape(rhs, jump_if_true);
                assert(layout(e, jump_if_true) == combine(l, r, exit_to));
                law_branches_decide_condition(lhs, sl, vals.take(nl));
                law_branches_decide_condition(rhs, jump_if_true, vals.skip(nl));
                lemma_walk_first(l, r, exit_to, vals, 0);
                lemma_walk_second(l, r, exit_to, vals, 0);
                assert(l.len() == nl);
            } else {
                lemma_leaf_walk(e, jump_if_true, vals);
            }
        },
        _ => {
            lemma_leaf_walk(e, jump_if_true, vals);
        },
    }
}

/// The ordered branch a comparison compiles to, taken when it holds
pub open spec fn ordered_branch(op: BinOp) -> Opcode {
    if op == BinOp::Lt { Opcode::jlt }
    else if op == BinOp::Le { Opcode::jle }
    else if op == BinOp::Gt { Opcode::jgt }
    else { Opcode::jge }
}

/// Whether the branch at `p` lands at `t`
pub open spec fn jumps_to(n: Seq<Insn>, p: int, t: int) -> bool {
    0 <= p < n.len() && n[p].spec_branch_disp() == Some((t - p - 1) as i32)
}

/// Whether a leaf is an ordered comparison tested for false, whose
/// branch is a jump that the comparison skips
pub open spec fn leaf_negated(leaf: ExprBox, sense: bool) -> bool {
    !sense && (*leaf.expr matches Expr::Binary { op, .. }
        && (op == BinOp::Lt || op == BinOp::Le || op == BinOp::Gt || op == BinOp::Ge))
}

/// Whether the instruction at `p` is the branch of a leaf, taken when the
/// leaf has the value `sense`: for an equality, the branch on equal or
/// unequal; for an ordered comparison tested true, its branch; tested
/// false, a jump that the comparison's branch skips when it holds; for
/// any other leaf, the branch on its value being true or false
pub open spec fn leaf_branch_at(n: Seq<Insn>, p: int, leaf: ExprBox, sense: bool) -> bool {
    &&& 0 <= p < n.len()
    &&& match *leaf.expr {
        Expr::Binary { op, .. } => if op == BinOp::Eq || op == BinOp::Ne {
            n[p].spec_opcode() == (if (op == BinOp::Eq) == sense { Opcode::jeq } else { Opcode::jne })
        } else if op == BinOp::Lt || op == BinOp::Le || op == BinOp::Gt || op == BinOp::Ge {
            if sense {
                n[p].spec_opcode() == ordered_branch(op)
            } else {
                &&& n[p].spec_opcode() == Opcode::jmp
                &&& p >= 1
                &&& n[p - 1].spec_opcode() == ordered_branch(op)
                &&& jumps_to(n, p - 1, p + 1)
            }
        } else {
            n[p].spec_opcode() == (if sense { Opcode::if_true } else { Opcode::if_false })
        },
        _ => n[p].spec_opcode() == (if sense { Opcode::if_true } else { Opcode::if_false }),
    }
}

/// The positions of a layout's branches that leave through a jump handed
/// back, in order
pub open spec fn exits(p: Seq<int>, lay: Seq<(bool, BranchTarget)>) -> Seq<usize>
    decreases p.len(),
{
    if p.len() == 0 || lay.len() < p.len() {
        Seq::empty()
    } else {
        let k = p.len() - 1;
        exits(p.drop_last(), lay) + if lay[k].1 is Exit { seq![p[k] as usize] } else { Seq::empty() }
    }
}

/// Whether positions `p` in `n[a..b]` hold the branches of a condition's
/// leaves, in order, each taken on the value the condition's layout
/// gives it, the last one ending the code, and `jumps` are the ones that
/// leave through a jump handed back
pub open spec fn realized_by(n: Seq<Insn>, a: nat, b: nat, e: ExprBox, jump_if_true: bool, jumps: Seq<usize>,
    p: Seq<int>) -> bool
{
    let lay = layout(e, jump_if_true);
    let lv = cond_leaves(e);
    &&& shape_ok(p, a, b, lay)
    &&& leaves_ok(n, p, lv, lay)
    &&& jumps == exits(p, lay)
    &&& neg_ok(p, a, lv, lay)
    &&& targets_ok(n, p, b, lay)
}

/// Whether positions `p` are one per branch, in order, inside `[a, b)`,
/// the last one ending it
pub open spec fn shape_ok(p: Seq<int>, a: nat, b: nat, lay: Seq<(bool, BranchTarget)>) -> bool {
    &&& p.len() == lay.len()
    &&& p.len() >= 1
    &&& forall|i: int| 0 <= i < p.len() ==> a <= #[trigger] p[i] < b
    &&& forall|i: int, j: int| 0 <= i < j < p.len() ==> #[trigger] p[i] < #[trigger] p[j]
    &&& p.last() == b - 1
}

/// Whether each position holds its leaf's branch, taken on the value
/// the layout gives it
pub open spec fn leaves_ok(n: Seq<Insn>, p: Seq<int>, lv: Seq<ExprBox>, lay: Seq<(bool, BranchTarget)>) -> bool {
    forall|i: int| 0 <= i < p.len() ==> leaf_branch_at(n, #[trigger] p[i], lv[i], lay[i].0)
}

/// Whether a negated leaf's skipped comparison lies in its own code
pub open spec fn neg_ok(p: Seq<int>, a: nat, lv: Seq<ExprBox>, lay: Seq<(bool, BranchTarget)>) -> bool {
    forall|i: int| 0 <= i < p.len() && leaf_negated(lv[i], lay[i].0) ==>
        (if i == 0 { a <= p[i] - 1 } else { p[i - 1] < #[trigger] p[i] - 1 })
}

/// Whether each branch that goes to the end or to a later leaf lands
/// there: at `b`, or just past the branch of the leaf before
pub open spec fn targets_ok(n: Seq<Insn>, p: Seq<int>, b: nat, lay: Seq<(bool, BranchTarget)>) -> bool {
    &&& forall|i: int| 0 <= i < p.len() ==> (#[trigger] lay[i].1 matches BranchTarget::End ==> jumps_to(n, p[i], b as int))
    &&& forall|i: int| 0 <= i < p.len() ==> (#[trigger] lay[i].1 matches BranchTarget::At(k)
        ==> 1 <= k <= p.len() && jumps_to(n, p[i], p[k - 1] + 1))
}

/// Whether `n[a..b]` is the code of a condition's branches, handing back
/// `jumps`
pub open spec fn realizes(n: Seq<Insn>, a: nat, b: nat, e: ExprBox, jump_if_true: bool, jumps: Seq<usize>) -> bool {
    exists|p: Seq<int>| #[trigger] realized_by(n, a, b, e, jump_if_true, jumps, p)
}

proof fn lemma_exits_prefix(p: Seq<int>, lay: Seq<(bool, BranchTarget)>, lay2: Seq<(bool, BranchTarget)>)
    requires
        p.len() <= lay.len(),
        p.len() <= lay2.len(),
        forall|i: int| 0 <= i < p.len() ==> (#[trigger] lay[i].1 is Exit) == (lay2[i].1 is Exit),
    ensures
        exits(p, lay) == exits(p, lay2),
    decreases p.len(),
{
    if p.len() > 0 {
        lemma_exits_prefix(p.drop_last(), lay, lay2);
    }
}

/// The exits of two layouts put one after the other
pub proof fn lemma_exits_combine(p1: Seq<int>, p2: Seq<int>, l: Seq<(bool, BranchTarget)>,
    r: Seq<(bool, BranchTarget)>, exit_to: BranchTarget)
    requires
        p1.len() == l.len(),
        p2.len() == r.len(),
        !(exit_to is At),
    ensures
        exits(p1 + p2, combine(l, r, exit_to))
            == (if exit_to is Exit { exits(p1, l) } else { Seq::<usize>::empty() }) + exits(p2, r),
    decreases p2.len(),
{
    let c = combine(l, r, exit_to);
    if p2.len() == 0 {
        assert(p1 + p2 =~= p1);
        assert forall|i: int| 0 <= i < l.len() implies (#[trigger] c[i].1 is Exit) == (l[i].1 is Exit && exit_to is Exit) by {
            assert(c[i] == first_part(l, exit_to)[i]);
        }
        lemma_exits_first(p1, l, c, exit_to);
        assert(exits(p2, r) =~= Seq::<usize>::empty());
        if exit_to is Exit {
            assert(exits(p1, l) + Seq::<usize>::empty() =~= exits(p1, l));
        } else {
            assert(Seq::<usize>::empty() + Seq::<usize>::empty() =~= Seq::<usize>::empty());
        }
    } else {
        let q = p2.drop_last();
        let k = p2.len() - 1;
        lemma_exits_combine(p1, q, l, r.drop_last(), exit_to);
        assert((p1 + p2).drop_last() =~= p1 + q);
        assert(combine(l, r.drop_last(), exit_to).len() == l.len() + r.len() - 1);
        lemma_exits_prefix(p1 + q, c, combine(l, r.drop_last(), exit_to));
        lemma_exits_prefix(q, r, r.drop_last());
        assert(c[l.len() + k] == shift(r, l.len())[k]);
        assert((p1 + p2)[p1.len() + k] == p2[k]);
        let pre = if exit_to is Exit { exits(p1, l) } else { Seq::<usize>::empty() };
        let last = if r[k].1 is Exit { seq![p2[k] as usize] } else { Seq::<usize>::empty() };
        assert(pre + exits(q, r) + last =~= pre + (exits(q, r) + last));
    }
}

proof fn lemma_exits_first(p1: Seq<int>, l: Seq<(bool, BranchTarget)>, c: Seq<(bool, BranchTarget)>, exit_to: BranchTarget)
    requires
        p1.len() <= l.len(),
        c.len() >= l.len(),
        forall|i: int| 0 <= i < l.len() ==> (#[trigger] c[i].1 is Exit) == (l[i].1 is Exit && exit_to is Exit),
    ensures
        exits(p1, c) == if exit_to is Exit { exits(p1, l) } else { Seq::<usize>::empty() },
    decreases p1.len(),
{
    if p1.len() > 0 {
        let k = p1.len() - 1;
        lemma_exits_first(p1.drop_last(), l, c, exit_to);
        if exit_to is Exit {
        } else {
            assert(Seq::<usize>::empty() + Seq::<usize>::empty() =~= Seq::<usize>::empty());
        }
    }
}

/// Branch code stays what it was where its instructions stay the same
pub proof fn lemma_realized_same(n: Seq<Insn>, n2: Seq<Insn>, a: nat, b: nat, e: ExprBox, jump_if_true: bool,
    jumps: Seq<usize>, p: Seq<int>)
    requires
        realized_by(n, a, b, e, jump_if_true, jumps, p),
        b <= n.len(),
        b <= n2.len(),
        forall|x: int| a <= x < b ==> #[trigger] n2[x] == n[x],
    ensures
        realized_by(n2, a, b, e, jump_if_true, jumps, p),
{
    let lay = layout(e, jump_if_true);
    let lv = cond_leaves(e);
    assert forall|i: int| 0 <= i < p.len() implies leaf_branch_at(n2, #[trigger] p[i], lv[i], lay[i].0) by {
        assert(leaf_branch_at(n, p[i], lv[i], lay[i].0));
        assert(n2[p[i]] == n[p[i]]);
        if leaf_negated(lv[i], lay[i].0) {
            if i > 0 { assert(p[i - 1] < p[i] - 1); }
            assert(n2[p[i] - 1] == n[p[i] - 1]);
        }
    }
    assert forall|i: int| 0 <= i < p.len() implies (#[trigger] lay[i].1 matches BranchTarget::End ==> jumps_to(n2, p[i], b as int)) by {
        assert(n2[p[i]] == n[p[i]]);
    }
    assert forall|i: int| 0 <= i < p.len() implies (#[trigger] lay[i].1 matches BranchTarget::At(k)
        ==> 1 <= k <= p.len() && jumps_to(n2, p[i], p[k - 1] + 1)) by {
        assert(n2[p[i]] == n[p[i]]);
    }
}

/// A position among the exits of a layout is the position of a branch
/// that exits
pub proof fn lemma_exits_member(p: Seq<int>, lay: Seq<(bool, BranchTarget)>, x: usize)
    requires
        exits(p, lay).contains(x),
    ensures
        exists|j: int| 0 <= j < p.len() && j < lay.len() && #[trigger] lay[j].1 is Exit && p[j] as usize == x,
    decreases p.len(),
{
    if p.len() > 0 && lay.len() >= p.len() {
        let k = p.len() - 1;
        let pre = exits(p.drop_last(), lay);
        let last = if lay[k].1 is Exit { seq![p[k] as usize] } else { Seq::<usize>::empty() };
        let w = choose|w: int| 0 <= w < (pre + last).len() && (pre + last)[w] == x;
        if w < pre.len() {
            assert(pre[w] == x);
            lemma_exits_member(p.drop_last(), lay, x);
            let j = choose|j: int| 0 <= j < p.drop_last().len() && j < lay.len() && #[trigger] lay[j].1 is Exit
                && p.drop_last()[j] as usize == x;
            assert(p[j] == p.drop_last()[j]);
        } else {
            assert(lay[k].1 is Exit);
        }
    }
}

/// Branch code stays what it was where later changes keep every
/// instruction's opcode and change only branches that exit
pub proof fn lemma_realized_frame(n: Seq<Insn>, n2: Seq<Insn>, a: nat, b: nat, e: ExprBox, jump_if_true: bool,
    jumps: Seq<usize>, p: Seq<int>)
    requires
        realized_by(n, a, b, e, jump_if_true, jumps, p),
        b <= n.len(),
        b <= n2.len(),
        b <= usize::MAX,
        forall|x: int| a <= x < b ==> (#[trigger] n2[x]).spec_opcode() == n[x].spec_opcode()
            && (n2[x] == n[x] || jumps.contains(x as usize)),
    ensures
        realized_by(n2, a, b, e, jump_if_true, jumps, p),
{
    let lay = layout(e, jump_if_true);
    let lv = cond_leaves(e);
    // A branch that does not exit, and the skipped comparison of a
    // negated leaf, are not among the exits
    assert forall|i: int, x: int| 0 <= i < p.len() && a <= x < b && (x == p[i] && !(lay[i].1 is Exit)
        || x == p[i] - 1 && leaf_negated(lv[i], lay[i].0)) implies #[trigger] n2[x] == n[x] && #[trigger] p[i] == p[i] by {
        if jumps.contains(x as usize) {
            lemma_exits_member(p, lay, x as usize);
            let j = choose|j: int| 0 <= j < p.len() && j < lay.len() && #[trigger] lay[j].1 is Exit && p[j] as usize == x as usize;
            assert(p[j] == x);
            if x == p[i] && !(lay[i].1 is Exit) {
                if j < i { assert(p[j] < p[i]); } else if j > i { assert(p[i] < p[j]); }
            } else {
                if j < i {
                    if j < i - 1 { assert(p[j] < p[i - 1]); }
                    if i > 0 { assert(p[i - 1] < p[i] - 1); }
                } else if j > i {
                    assert(p[i] < p[j]);
                }
            }
        }
    }
    assert forall|i: int| 0 <= i < p.len() implies leaf_branch_at(n2, #[trigger] p[i], lv[i], lay[i].0) by {
        assert(leaf_branch_at(n, p[i], lv[i], lay[i].0));
        assert(n2[p[i]].spec_opcode() == n[p[i]].spec_opcode());
        if leaf_negated(lv[i], lay[i].0) {
            if i == 0 { assert(a <= p[i] - 1); } else { assert(p[i - 1] < p[i] - 1); assert(a <= p[i - 1]); }
            assert(n2[p[i] - 1] == n[p[i] - 1] && p[i] == p[i]);
        }
    }
    assert forall|i: int| 0 <= i < p.len() implies (#[trigger] lay[i].1 matches BranchTarget::End ==> jumps_to(n2, p[i], b as int)) by {
        if lay[i].1 is End {
            assert(n2[p[i]] == n[p[i]] && p[i] == p[i]);
        }
    }
    assert forall|i: int| 0 <= i < p.len() implies (#[trigger] lay[i].1 matches BranchTarget::At(k)
        ==> 1 <= k <= p.len() && jumps_to(n2, p[i], p[k - 1] + 1)) by {
        if lay[i].1 is At {
            assert(n2[p[i]] == n[p[i]] && p[i] == p[i]);
        }
    }
}

proof fn lemma_combine_shape(p1: Seq<int>, p2: Seq<int>, a: nat, m: nat, b: nat,
    l: Seq<(bool, BranchTarget)>, r: Seq<(bool, BranchTarget)>, exit_to: BranchTarget)
    requires
        shape_ok(p1, a, m, l),
        shape_ok(p2, m, b, r),
        combine(l, r, exit_to).len() == l.len() + r.len(),
    ensures
        shape_ok(p1 + p2, a, b, combine(l, r, exit_to)),
{
    let p = p1 + p2;
    assert forall|i: int| 0 <= i < p.len() implies a <= #[trigger] p[i] < b by {
        if i < p1.len() { assert(p[i] == p1[i]); } else { assert(p[i] == p2[i - p1.len()]); }
    }
    assert forall|i: int, j: int| 0 <= i < j < p.len() implies #[trigger] p[i] < #[trigger] p[j] by {
        if j < p1.len() {
            assert(p[i] == p1[i] && p[j] == p1[j]);
        } else if i >= p1.len() {
            assert(p[i] == p2[i - p1.len()] && p[j] == p2[j - p1.len()]);
        } else {
            assert(p[i] == p1[i] && p[j] == p2[j - p1.len()]);
        }
    }
    assert(p.last() == p2.last());
}

proof fn lemma_combine_leaves(n: Seq<Insn>, p1: Seq<int>, p2: Seq<int>, lv1: Seq<ExprBox>, lv2: Seq<ExprBox>,
    l: Seq<(bool, BranchTarget)>, r: Seq<(bool, BranchTarget)>, exit_to: BranchTarget)
    requires
        leaves_ok(n, p1, lv1, l),
        leaves_ok(n, p2, lv2, r),
        p1.len() == l.len() == lv1.len(),
        p2.len() == r.len() == lv2.len(),
    ensures
        leaves_ok(n, p1 + p2, lv1 + lv2, combine(l, r, exit_to)),
{
    let p = p1 + p2;
    let lv = lv1 + lv2;
    let lay = combine(l, r, exit_to);
    assert forall|i: int| 0 <= i < p.len() implies leaf_branch_at(n, #[trigger] p[i], lv[i], lay[i].0) by {
        if i < p1.len() {
            assert(p[i] == p1[i]);
            assert(lv[i] == lv1[i]);
            assert(lay[i] == first_part(l, exit_to)[i]);
        } else {
            let k = i - p1.len();
            assert(p[i] == p2[k]);
            assert(lv[i] == lv2[k]);
            assert(lay[i] == shift(r, l.len())[k]);
        }
    }
}

proof fn lemma_combine_neg(p1: Seq<int>, p2: Seq<int>, a: nat, m: nat, lv1: Seq<ExprBox>, lv2: Seq<ExprBox>,
    l: Seq<(bool, BranchTarget)>, r: Seq<(bool, BranchTarget)>, exit_to: BranchTarget)
    requires
        neg_ok(p1, a, lv1, l),
        neg_ok(p2, m, lv2, r),
        p1.len() == l.len() == lv1.len(),
        p2.len() == r.len() == lv2.len(),
        p1.len() >= 1,
        p1.last() == m - 1,
        forall|i: int| 0 <= i < p1.len() ==> a <= #[trigger] p1[i],
    ensures
        neg_ok(p1 + p2, a, lv1 + lv2, combine(l, r, exit_to)),
{
    let p = p1 + p2;
    let lv = lv1 + lv2;
    let lay = combine(l, r, exit_to);
    assert forall|i: int| 0 <= i < p.len() && leaf_negated(lv[i], lay[i].0) implies
        (if i == 0 { a <= p[i] - 1 } else { p[i - 1] < #[trigger] p[i] - 1 }) by {
        if i < p1.len() {
            assert(p[i] == p1[i]);
            assert(lv[i] == lv1[i]);
            assert(lay[i] == first_part(l, exit_to)[i]);
            if i > 0 { assert(p[i - 1] == p1[i - 1]); }
        } else {
            let k = i - p1.len();
            assert(p[i] == p2[k]);
            assert(lv[i] == lv2[k]);
            assert(lay[i] == shift(r, l.len())[k]);
            if k > 0 {
                assert(p[i - 1] == p2[k - 1]);
            } else {
                assert(p[i - 1] == p1.last());
            }
        }
    }
}

proof fn lemma_combine_targets(n: Seq<Insn>, p1: Seq<int>, p2: Seq<int>, m: nat, b: nat,
    l: Seq<(bool, BranchTarget)>, r: Seq<(bool, BranchTarget)>, exit_to: BranchTarget)
    requires
        targets_ok(n, p1, m, l),
        targets_ok(n, p2, b, r),
        p1.len() == l.len(),
        p2.len() == r.len(),
        p1.len() >= 1,
        p1.last() == m - 1,
        !(exit_to is At),
        exit_to is End ==> forall|i: int| 0 <= i < p1.len() && (#[trigger] l[i]).1 is Exit
            ==> jumps_to(n, p1[i], b as int),
    ensures
        targets_ok(n, p1 + p2, b, combine(l, r, exit_to)),
{
    let p = p1 + p2;
    let lay = combine(l, r, exit_to);
    assert forall|i: int| 0 <= i < p.len() implies (#[trigger] lay[i].1 matches BranchTarget::End ==> jumps_to(n, p[i], b as int)) by {
        if i < p1.len() {
            assert(p[i] == p1[i]);
            assert(lay[i] == first_part(l, exit_to)[i]);
        } else {
            let k = i - p1.len();
            assert(p[i] == p2[k]);
            assert(lay[i] == shift(r, l.len())[k]);
        }
    }
    assert forall|i: int| 0 <= i < p.len() implies (#[trigger] lay[i].1 matches BranchTarget::At(k)
        ==> 1 <= k <= p.len() && jumps_to(n, p[i], p[k - 1] + 1)) by {
        if i < p1.len() {
            assert(p[i] == p1[i]);
            assert(lay[i] == first_part(l, exit_to)[i]);
            if l[i].1 is End {
                assert(p[p1.len() - 1] == p1.last());
            } else if l[i].1 is At {
                let k = l[i].1->At_0;
                assert(p[k - 1] == p1[k - 1]);
            }
        } else {
            let j = i - p1.len();
            assert(p[i] == p2[j]);
            assert(lay[i] == shift(r, l.len())[j]);
            if r[j].1 is At {
                let k = r[j].1->At_0;
                assert(p[k + p1.len() - 1] == p2[k - 1]);
            }
        }
    }
}

/// The branch code of a conjunction or disjunction is the code of its
/// left side followed by that of its right side, the left side's exits
/// going to the end where they no longer exit
pub proof fn lemma_realized_combine(n: Seq<Insn>, a: nat, m: nat, b: nat, e: ExprBox, jump_if_true: bool,
    lhs: ExprBox, sl: bool, jl: Seq<usize>, p1: Seq<int>,
    rhs: ExprBox, sr: bool, jr: Seq<usize>, p2: Seq<int>, exit_to: BranchTarget)
    requires
        realized_by(n, a, m, lhs, sl, jl, p1),
        realized_by(n, m, b, rhs, sr, jr, p2),
        layout(e, jump_if_true) == combine(layout(lhs, sl), layout(rhs, sr), exit_to),
        cond_leaves(e) == cond_leaves(lhs) + cond_leaves(rhs),
        !(exit_to is At),
        exit_to is End ==> forall|i: int| 0 <= i < p1.len() && (#[trigger] layout(lhs, sl)[i]).1 is Exit
            ==> jumps_to(n, p1[i], b as int),
    ensures
        realized_by(n, a, b, e, jump_if_true,
            (if exit_to is Exit { jl } else { Seq::<usize>::empty() }) + jr, p1 + p2),
{
    let l = layout(lhs, sl);
    let r = layout(rhs, sr);
    lemma_layout_shape(lhs, sl);
    lemma_layout_shape(rhs, sr);
    lemma_combine_len_forward(l, r, exit_to);
    lemma_combine_shape(p1, p2, a, m, b, l, r, exit_to);
    lemma_combine_leaves(n, p1, p2, cond_leaves(lhs), cond_leaves(rhs), l, r, exit_to);
    lemma_combine_neg(p1, p2, a, m, cond_leaves(lhs), cond_leaves(rhs), l, r, exit_to);
    lemma_combine_targets(n, p1, p2, m, b, l, r, exit_to);
    lemma_exits_combine(p1, p2, l, r, exit_to);
}

/// The branch code of a single leaf is its one branch, at the end
pub proof fn lemma_realized_leaf(n: Seq<Insn>, a: nat, b: nat, e: ExprBox, jump_if_true: bool)
    requires
        !is_cond_node(e),
        a <= b - 1,
        leaf_branch_at(n, b - 1, e, jump_if_true),
        leaf_negated(e, jump_if_true) ==> a <= b - 2,
    ensures
        realized_by(n, a, b, e, jump_if_true, seq![(b - 1) as usize], seq![b - 1]),
{
    let lay = layout(e, jump_if_true);
    assert(lay =~= seq![(jump_if_true, BranchTarget::Exit)]);
    assert(cond_leaves(e) =~= seq![e]);
    let p = seq![b - 1];
    assert(p.drop_last() =~= Seq::<int>::empty());
    assert(exits(p.drop_last(), lay) =~= Seq::<usize>::empty());
    assert(exits(p, lay) =~= seq![(b - 1) as usize]);
}

/// The position of a branch that exits is among the exits
pub proof fn lemma_exits_has(p: Seq<int>, lay: Seq<(bool, BranchTarget)>, i: int)
    requires
        0 <= i < p.len(),
        p.len() <= lay.len(),
        lay[i].1 is Exit,
    ensures
        exits(p, lay).contains(p[i] as usize),
    decreases p.len(),
{
    let k = p.len() - 1;
    let pre = exits(p.drop_last(), lay);
    let last = if lay[k].1 is Exit { seq![p[k] as usize] } else { Seq::<usize>::empty() };
    if i == k {
        assert((pre + last)[pre.len() as int] == p[i] as usize);
    } else {
        lemma_exits_has(p.drop_last(), lay, i);
        assert(p.drop_last()[i] == p[i]);
        let w = choose|w: int| 0 <= w < pre.len() && pre[w] == p[i] as usize;
        assert((pre + last)[w] == p[i] as usize);
    }
}

/// Branch code for a condition decides it: where `n[a..b]` realizes the
/// branches of `e` asked to jump when it is `jump_if_true`, its leaves'
/// branches sit at positions `p`, each taken on the value its layout
/// gives, landing where the layout sends it, and for any values of the
/// leaves, following those branches leaves through a handed-back jump
/// exactly when `e` evaluates to `jump_if_true`
pub proof fn law_branch_code_decides(n: Seq<Insn>, a: nat, b: nat, e: ExprBox, jump_if_true: bool,
    jumps: Seq<usize>, vals: Seq<bool>)
    requires
        realizes(n, a, b, e, jump_if_true, jumps),
        vals.len() == cond_leaves(e).len(),
    ensures
        exists|p: Seq<int>| #[trigger] realized_by(n, a, b, e, jump_if_true, jumps, p),
        (walk(layout(e, jump_if_true), 0, vals) is Exit) == (cond_eval(e, vals) == jump_if_true),
{
    law_branches_decide_condition(e, jump_if_true, vals);
}

} // verus!
