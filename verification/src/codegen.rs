use vstd::prelude::*;
use crate::allocator::Tag;
use crate::bytearray::ByteArray;
use crate::branches::{
    BranchTarget, realizes, realized_by, layout, cond_leaves, combine, leaf_branch_at,
    lemma_realized_leaf, lemma_realized_same, lemma_realized_frame, lemma_realized_combine, lemma_exits_has,
};
use crate::ast::{BinOp, Decl, Expr, ExprBox, Function, Stmt, StmtBox, UnOp};
use crate::heap::has_room;
use crate::insns::{Insn, Opcode, NUM_OPCODES, opcode_is_branch, opcode_disp_width};
use crate::lexer::{ParseError, SrcPos};
use crate::value::Value;
use crate::vm::{Actor, CompiledFun};

verus! {

/// Assigns registers within one function's frame.
///
/// Arguments occupy `r0..num_params`, locals the registers just above
/// them, and temporaries everything above that. Temporaries are handed
/// out and given back in stack order, so a caller notes the top before
/// generating subexpressions and frees back to it once it has consumed
/// their results.
pub struct Regs {
    /// First register a temporary can use
    temp_base: u16,

    /// Next free temporary
    next: u16,

    /// High water mark, which is the frame size the function needs
    max: u16,
}

impl Regs {
    pub closed spec fn spec_next(self) -> u16 {
        self.next
    }

    pub closed spec fn spec_max(self) -> u16 {
        self.max
    }

    /// Start a function, with the temporaries placed above its variables
    pub fn new(fun: &Function) -> (r: Option<Regs>)
        ensures
            r matches Some(regs) ==> regs.spec_next() == fun.params@.len() + fun.num_locals
                && regs.spec_max() >= 1,
            r is None <==> fun.params@.len() + fun.num_locals > u16::MAX,
    {
        let n = fun.params.len();
        if n > u16::MAX as usize || fun.num_locals > u16::MAX as usize - n {
            return None;
        }
        let temp_base = (n + fun.num_locals) as u16;

        // A frame always has room for r0: a call writes its return value
        // there, and a constructor reads self from it
        Some(Regs { temp_base, next: temp_base, max: if temp_base > 1 { temp_base } else { 1 } })
    }

    /// First free register, which `free_to` takes back down to
    pub fn top(&self) -> (r: u16)
        ensures
            r == self.spec_next(),
    {
        self.next
    }

    /// Give back every temporary handed out since `top` was taken
    pub fn free_to(&mut self, top: u16)
        ensures
            final(self).spec_next() == top,
            final(self).spec_max() == old(self).spec_max(),
    {
        self.next = top;
    }

    /// Reserve a run of consecutive registers, as a call's arguments need
    pub fn alloc_n(&mut self, n: u16) -> (r: Option<u16>)
        ensures
            r matches Some(reg) ==> reg == old(self).spec_next()
                && final(self).spec_next() == old(self).spec_next() + n
                && final(self).spec_max() >= final(self).spec_next(),
            r is None ==> *final(self) == *old(self),
            r is None <==> old(self).spec_next() + n > u16::MAX,
    {
        if n > u16::MAX - self.next {
            return None;
        }
        let reg = self.next;
        self.next = self.next + n;
        if self.next > self.max {
            self.max = self.next;
        }
        Some(reg)
    }

    /// Reserve one register to hold an intermediate value
    pub fn alloc_reg(&mut self) -> (r: Option<u16>)
        ensures
            r matches Some(reg) ==> reg == old(self).spec_next() && final(self).spec_next() == old(self).spec_next() + 1,
            r is None ==> *final(self) == *old(self),
            r is None <==> old(self).spec_next() == u16::MAX,
    {
        self.alloc_n(1)
    }
}

/// Error for a frame that needs more registers than an instruction names
fn frame_too_large<T>(pos: SrcPos) -> (r: Result<T, ParseError>)
    ensures
        r is Err,
{
    ParseError::with_pos("function frame is too large", &pos)
}

/// The register to write a new value into: the one asked for, or a
/// fresh temporary
fn out_reg(dst: Option<u16>, regs: &mut Regs, pos: SrcPos) -> (r: Result<u16, ParseError>)
    ensures
        dst matches Some(d) ==> r == Ok::<u16, ParseError>(d) && *final(regs) == *old(regs),
        dst is None ==> (r is Ok <==> old(regs).spec_next() < u16::MAX),
        dst is None ==> (r matches Ok(d) ==> d == old(regs).spec_next()
            && final(regs).spec_next() == old(regs).spec_next() + 1),
        r is Err ==> *final(regs) == *old(regs),
{
    match dst {
        Some(d) => Ok(d),
        None => match regs.alloc_reg() {
            Some(d) => Ok(d),
            None => frame_too_large(pos),
        },
    }
}

/// Whether `n` keeps every instruction of `o` where it was: code is only
/// ever added after what was already generated
pub open spec fn insns_kept(o: Seq<Insn>, n: Seq<Insn>) -> bool {
    &&& o.len() <= n.len()
    &&& forall|j: int| 0 <= j < o.len() ==> #[trigger] n[j] == o[j]
}

/// Whether the instruction at index `i` is a branch
pub open spec fn branch_at(insns: Seq<Insn>, i: usize) -> bool {
    &&& i < insns.len()
    &&& insns[i as int].has_valid_opcode()
    &&& opcode_is_branch(insns[i as int].spec_opcode())
}

/// The branch code of a conjunction or disjunction whose left side's
/// exits are handed back too, from that of its two sides: the left
/// side's code in `n1[a..m]`, the right side's after it
proof fn lemma_branch_pair(n1: Seq<Insn>, n2: Seq<Insn>, a: nat, m: nat, e: ExprBox, jump_if_true: bool,
    lhs: ExprBox, sl: bool, jl: Seq<usize>, rhs: ExprBox, sr: bool, jr: Seq<usize>)
    requires
        realizes(n1, a, m, lhs, sl, jl),
        realizes(n2, m, n2.len(), rhs, sr, jr),
        m == n1.len(),
        insns_kept(n1, n2),
        layout(e, jump_if_true) == combine(layout(lhs, sl), layout(rhs, sr), BranchTarget::Exit),
        cond_leaves(e) == cond_leaves(lhs) + cond_leaves(rhs),
    ensures
        realizes(n2, a, n2.len(), e, jump_if_true, jl + jr),
{
    let p1 = choose|p: Seq<int>| #[trigger] realized_by(n1, a, m, lhs, sl, jl, p);
    let p2 = choose|p: Seq<int>| #[trigger] realized_by(n2, m, n2.len(), rhs, sr, jr, p);
    assert forall|x: int| a <= x < m implies #[trigger] n2[x] == n1[x] by {}
    lemma_realized_same(n1, n2, a, m, lhs, sl, jl, p1);
    lemma_realized_combine(n2, a, m, n2.len(), e, jump_if_true, lhs, sl, jl, p1, rhs, sr, jr, p2, BranchTarget::Exit);
}

/// The branch code of a conjunction or disjunction whose left side's
/// exits were patched to the end, from that of its two sides
proof fn lemma_branch_pair_patched(n1: Seq<Insn>, n2: Seq<Insn>, n3: Seq<Insn>, a: nat, m: nat, e: ExprBox,
    jump_if_true: bool, lhs: ExprBox, sl: bool, jl: Seq<usize>, rhs: ExprBox, sr: bool, jr: Seq<usize>)
    requires
        realizes(n1, a, m, lhs, sl, jl),
        realizes(n2, m, n2.len(), rhs, sr, jr),
        m == n1.len(),
        insns_kept(n1, n2),
        n3.len() == n2.len(),
        n2.len() <= usize::MAX,
        forall|j: int| 0 <= j < n2.len() ==> (#[trigger] n3[j]).spec_opcode() == n2[j].spec_opcode(),
        forall|j: int| 0 <= j < n2.len() && !jl.contains(j as usize) ==> #[trigger] n3[j] == n2[j],
        forall|k: int| 0 <= k < jl.len() ==> (#[trigger] n3[jl[k] as int]).spec_branch_disp()
            == Some((n2.len() - jl[k] - 1) as i32),
        layout(e, jump_if_true) == combine(layout(lhs, sl), layout(rhs, sr), BranchTarget::End),
        cond_leaves(e) == cond_leaves(lhs) + cond_leaves(rhs),
    ensures
        realizes(n3, a, n3.len(), e, jump_if_true, Seq::<usize>::empty() + jr),
{
    let p1 = choose|p: Seq<int>| #[trigger] realized_by(n1, a, m, lhs, sl, jl, p);
    let p2 = choose|p: Seq<int>| #[trigger] realized_by(n2, m, n2.len(), rhs, sr, jr, p);
    let b = n2.len();
    assert forall|x: int| a <= x < m implies #[trigger] n2[x] == n1[x] by {}
    lemma_realized_same(n1, n2, a, m, lhs, sl, jl, p1);
    assert forall|x: int| a <= x < m implies (#[trigger] n3[x]).spec_opcode() == n2[x].spec_opcode()
        && (n3[x] == n2[x] || jl.contains(x as usize)) by {}
    lemma_realized_frame(n2, n3, a, m, lhs, sl, jl, p1);
    assert forall|x: int| m <= x < b implies #[trigger] n3[x] == n2[x] by {
        if jl.contains(x as usize) {
            let w = choose|w: int| 0 <= w < jl.len() && jl[w] == x as usize;
            crate::branches::lemma_exits_member(p1, layout(lhs, sl), x as usize);
            let j = choose|j: int| 0 <= j < p1.len() && j < layout(lhs, sl).len() && #[trigger] layout(lhs, sl)[j].1 is Exit
                && p1[j] as usize == x as usize;
            assert(p1[j] < m);
        }
    }
    lemma_realized_same(n2, n3, m, b, rhs, sr, jr, p2);
    let l = layout(lhs, sl);
    crate::branches::lemma_layout_shape(lhs, sl);
    assert forall|i: int| 0 <= i < p1.len() && (#[trigger] l[i]).1 is Exit implies crate::branches::jumps_to(n3, p1[i], b as int) by {
        lemma_exits_has(p1, l, i);
        let w = choose|w: int| 0 <= w < jl.len() && jl[w] == p1[i] as usize;
        assert(jl[w] as int == p1[i]);
    }
    lemma_realized_combine(n3, a, m, b, e, jump_if_true, lhs, sl, jl, p1, rhs, sr, jr, p2, BranchTarget::End);
}

/// Whether no index below `n` is in a list of jump indices
pub open spec fn none_below(list: Seq<usize>, n: nat) -> bool {
    forall|j: int| 0 <= j < n ==> !#[trigger] list.contains(j as usize)
}

proof fn lemma_none_below(list: Seq<usize>, n: nat)
    requires
        forall|k: int| 0 <= k < list.len() ==> n <= #[trigger] list[k],
    ensures
        none_below(list, n),
{
    assert forall|j: int| 0 <= j < n implies !#[trigger] list.contains(j as usize) by {
        if list.contains(j as usize) {
            let k = choose|k: int| 0 <= k < list.len() && list[k] == j as usize;
            assert(n <= list[k]);
        }
    }
}

/// Whether every jump index added to `o` to make `n` is at least `lo`
pub open spec fn idxs_from(o: Seq<usize>, n: Seq<usize>, lo: int) -> bool {
    &&& o.len() <= n.len()
    &&& forall|k: int| 0 <= k < o.len() ==> #[trigger] n[k] == o[k]
    &&& forall|k: int| o.len() <= k < n.len() ==> lo <= #[trigger] n[k]
}

/// The register a value is generated into: the one asked for, or else
/// the next free one
pub open spec fn out_dst(dst: Option<u16>, regs: Regs) -> u16 {
    match dst {
        Some(d) => d,
        None => regs.spec_next(),
    }
}

/// Register an argument or local variable lives in, where it fits in a
/// register number
pub open spec fn spec_decl_reg(decl: Decl, fun: Function) -> Option<u16> {
    match decl {
        Decl::Arg { idx, .. } => if idx <= u16::MAX { Some(idx as u16) } else { None },
        Decl::Local { idx, .. } => if fun.params@.len() + idx <= u16::MAX {
            Some((fun.params@.len() + idx) as u16)
        } else {
            None
        },
        _ => None,
    }
}

/// Whether a variable is written in place, in its own register
pub open spec fn in_own_reg(decl: Decl, fun: Function) -> bool {
    (decl is Local || decl is Arg) && !fun.escaping@.contains(decl)
}

/// Whether `new` is `old` with `insns` appended
pub open spec fn appended(old_insns: Seq<Insn>, new_insns: Seq<Insn>, n: int) -> bool {
    &&& new_insns.len() == old_insns.len() + n
    &&& new_insns.subrange(0, old_insns.len() as int) == old_insns
}

/// Register an argument or local variable lives in
fn decl_reg(decl: &Decl, fun: &Function, pos: SrcPos) -> (r: Result<u16, ParseError>)
    ensures
        match *decl {
            Decl::Arg { idx, .. } => if idx <= u16::MAX { r == Ok::<u16, ParseError>(idx as u16) } else { r is Err },
            Decl::Local { idx, .. } => if fun.params@.len() + idx <= u16::MAX {
                r == Ok::<u16, ParseError>((fun.params@.len() + idx) as u16)
            } else {
                r is Err
            },
            _ => r is Err,
        },
{
    match *decl {
        Decl::Arg { idx, .. } => {
            if idx > u16::MAX as u32 {
                return frame_too_large(pos);
            }
            Ok(idx as u16)
        }
        Decl::Local { idx, .. } => {
            let n = fun.params.len();
            if n > u16::MAX as usize || idx as usize > u16::MAX as usize - n {
                return frame_too_large(pos);
            }
            Ok((n + idx as usize) as u16)
        }
        _ => ParseError::with_pos("declaration does not live in a register", &pos),
    }
}

/// Whether an instruction word has an opcode the interpreter knows
pub fn valid_opcode(insn: Insn) -> (r: bool)
    ensures
        r == insn.has_valid_opcode(),
{
    insn.bits_u(0, 8) < NUM_OPCODES as u64
}

/// Point a previously emitted jump at an instruction index.
/// Displacements count instructions from the one after the jump
pub fn patch_jump(actor: &mut Actor, jmp_idx: usize, dst_idx: usize, pos: SrcPos) -> (r: Result<(), ParseError>)
    requires
        old(actor).wf(),
    ensures
        final(actor).wf(),
        final(actor).insns@.len() == old(actor).insns@.len(),
        final(actor).globals == old(actor).globals,
        final(actor).compiled == old(actor).compiled,
        old(actor).insns@.len() <= final(actor).insns@.len(),
        r is Ok ==> jmp_idx < old(actor).insns@.len() && ({
            let i = final(actor).insns@[jmp_idx as int];
            &&& i.has_valid_opcode()
            &&& opcode_is_branch(i.spec_opcode())
            &&& i.spec_branch_disp() == Some((dst_idx - jmp_idx - 1) as i32)
            &&& i.spec_opcode() == old(actor).insns@[jmp_idx as int].spec_opcode()
        }),
        r is Ok <==> jmp_idx < old(actor).insns@.len() && jmp_idx <= 0x3FFF_FFFF && dst_idx <= 0x3FFF_FFFF
            && old(actor).insns@[jmp_idx as int].has_valid_opcode()
            && opcode_is_branch(old(actor).insns@[jmp_idx as int].spec_opcode())
            && (opcode_disp_width(old(actor).insns@[jmp_idx as int].spec_opcode()) == 24
                ==> -0x80_0000 <= dst_idx - jmp_idx - 1 < 0x80_0000),
        forall|j: int| 0 <= j < old(actor).insns@.len() && j != jmp_idx ==>
            #[trigger] final(actor).insns@[j] == old(actor).insns@[j],
        r is Err ==> final(actor).insns == old(actor).insns,
        final(actor).alloc == old(actor).alloc,
        final(actor).consts == old(actor).consts,
{
    if jmp_idx >= actor.insns.len() || jmp_idx > 0x3FFF_FFFF || dst_idx > 0x3FFF_FFFF {
        return ParseError::with_pos("jump is out of range", &pos);
    }
    let insn = actor.insns[jmp_idx];
    if !valid_opcode(insn) || !insn.opcode().is_branch() {
        return ParseError::with_pos("internal error: patching an instruction that is not a jump", &pos);
    }
    let disp: i64 = (dst_idx as i64) - (jmp_idx as i64) - 1;
    let op = insn.opcode();
    let short = match op {
        Opcode::jeq | Opcode::jne | Opcode::jlt | Opcode::jle | Opcode::jgt | Opcode::jge => true,
        _ => false,
    };
    if short && (disp < -0x80_0000 || disp >= 0x80_0000) {
        return ParseError::with_pos("jump is out of range", &pos);
    }
    assert(opcode_disp_width(insn.spec_opcode()) == 24 ==> short);
    actor.insns.set(jmp_idx, insn.with_branch_disp(disp as i32));
    Ok(())
}

/// Point a set of jumps, as a test can produce more than one, at the same
/// instruction index
fn patch_jumps(actor: &mut Actor, jmp_idxs: &Vec<usize>, dst_idx: usize, pos: SrcPos) -> (r: Result<(), ParseError>)
    requires
        old(actor).wf(),
    ensures
        final(actor).wf(),
        final(actor).insns@.len() == old(actor).insns@.len(),
        final(actor).globals == old(actor).globals,
        final(actor).compiled == old(actor).compiled,
        old(actor).insns@.len() <= final(actor).insns@.len(),
        r is Ok ==> forall|k: int| 0 <= k < jmp_idxs@.len() ==> #[trigger] jmp_idxs@[k] < old(actor).insns@.len()
            && final(actor).insns@[jmp_idxs@[k] as int].has_valid_opcode()
            && opcode_is_branch(final(actor).insns@[jmp_idxs@[k] as int].spec_opcode())
            && final(actor).insns@[jmp_idxs@[k] as int].spec_branch_disp() == Some((dst_idx - jmp_idxs@[k] - 1) as i32),
        forall|j: int| 0 <= j < old(actor).insns@.len() && !jmp_idxs@.contains(j as usize) ==>
            #[trigger] final(actor).insns@[j] == old(actor).insns@[j],
        forall|j: int| 0 <= j < old(actor).insns@.len() ==>
            (#[trigger] final(actor).insns@[j]).spec_opcode() == old(actor).insns@[j].spec_opcode(),
{
    let mut i: usize = 0;
    while i < jmp_idxs.len()
        invariant
            actor.wf(),
            actor.insns@.len() == old(actor).insns@.len(),
            actor.globals == old(actor).globals,
            actor.compiled == old(actor).compiled,
            old(actor).insns@.len() <= actor.insns@.len(),
            i <= jmp_idxs@.len(),
            forall|k: int| 0 <= k < i ==> #[trigger] jmp_idxs@[k] < old(actor).insns@.len()
                && actor.insns@[jmp_idxs@[k] as int].has_valid_opcode()
                && opcode_is_branch(actor.insns@[jmp_idxs@[k] as int].spec_opcode())
                && actor.insns@[jmp_idxs@[k] as int].spec_branch_disp() == Some((dst_idx - jmp_idxs@[k] - 1) as i32),
            forall|j: int| 0 <= j < old(actor).insns@.len() && !jmp_idxs@.subrange(0, i as int).contains(j as usize) ==>
                #[trigger] actor.insns@[j] == old(actor).insns@[j],
            forall|j: int| 0 <= j < old(actor).insns@.len() ==>
                (#[trigger] actor.insns@[j]).spec_opcode() == old(actor).insns@[j].spec_opcode(),
        decreases jmp_idxs@.len() - i,
    {
        let ghost before = actor.insns@;
        patch_jump(actor, jmp_idxs[i], dst_idx, pos)?;
        proof {
            assert forall|j: int| 0 <= j < old(actor).insns@.len()
                && !jmp_idxs@.subrange(0, i + 1).contains(j as usize) implies
                #[trigger] actor.insns@[j] == old(actor).insns@[j] by {
                assert(j != jmp_idxs@[i as int]) by {
                    assert(jmp_idxs@.subrange(0, i + 1)[i as int] == jmp_idxs@[i as int]);
                }
                assert(!jmp_idxs@.subrange(0, i as int).contains(j as usize)) by {
                    if jmp_idxs@.subrange(0, i as int).contains(j as usize) {
                        let w = choose|w: int| 0 <= w < i && jmp_idxs@.subrange(0, i as int)[w] == j as usize;
                        assert(jmp_idxs@.subrange(0, i + 1)[w] == j as usize);
                    }
                }
            }
        }
        i = i + 1;
    }
    assert(jmp_idxs@.subrange(0, i as int) =~= jmp_idxs@);
    Ok(())
}

/// Whether a value can be carried in an instruction's immediate field.
///
/// A heap pointer never can, whatever its bits happen to be: heap
/// values go through the constant pool. Otherwise the field
/// sign-extends, so a value round-trips only if its top bits are already
/// the sign extension of the low 32
pub fn fits_imm32(val: Value) -> (r: bool)
    ensures
        r == (!val.spec_is_heap() && (val.bits() < 0x8000_0000 || val.bits() >= 0xFFFF_FFFF_8000_0000)),
{
    if val.is_heap() {
        return false;
    }
    let raw = val.raw_bits();
    assert((((raw as i32) as i64 as u64) == raw) == (raw < 0x8000_0000 || raw >= 0xFFFF_FFFF_8000_0000))
        by (bit_vector);
    ((raw as i32) as i64 as u64) == raw
}

/// Load a value that needs no heap allocation. Immediates that fit the
/// instruction go inline, the rest through the constant pool
/// Whether `n` is `o` with one instruction appended that loads `val` into
/// `dst`: an immediate where the value fits one, else a new constant
pub open spec fn value_loaded(o: Seq<Insn>, n: Seq<Insn>, oc: Seq<Value>, nc: Seq<Value>, dst: u16, val: Value) -> bool {
    &&& appended(o, n, 1)
    &&& if fits_imm32_spec(val) {
        &&& n.last().spec_opcode() == Opcode::load_imm32
        &&& crate::insns::load_imm32::spec_decode(n.last()) == (crate::insns::load_imm32 { dst, imm: val.bits() as i32 })
        &&& nc == oc
    } else {
        &&& n.last().spec_opcode() == Opcode::load_const
        &&& crate::insns::load_const::spec_decode(n.last()) == (crate::insns::load_const { dst, slot: oc.len() as u32 })
        &&& nc == oc.push(val)
    }
}

fn gen_value(actor: &mut Actor, dst: u16, val: Value, pos: SrcPos) -> (r: Result<(), ParseError>)
    requires
        old(actor).wf(),
    ensures
        r is Ok ==> value_loaded(old(actor).insns@, final(actor).insns@, old(actor).consts@, final(actor).consts@, dst, val),
        r is Err ==> final(actor).insns == old(actor).insns,
        r is Ok <==> (fits_imm32_spec(val) || old(actor).consts@.len() < u32::MAX),
        r is Ok ==> final(actor).insns@.len() == old(actor).insns@.len() + 1
            && final(actor).insns@.subrange(0, old(actor).insns@.len() as int) == old(actor).insns@
            && ({
                let i = final(actor).insns@.last();
                if fits_imm32_spec(val) {
                    i.spec_opcode() == Opcode::load_imm32
                        && crate::insns::load_imm32::spec_decode(i) == (crate::insns::load_imm32 { dst, imm: val.bits() as i32 })
                } else {
                    i.spec_opcode() == Opcode::load_const
                        && crate::insns::load_const::spec_decode(i) == (crate::insns::load_const { dst, slot: old(actor).consts@.len() as u32 })
                        && final(actor).consts@ == old(actor).consts@.push(val)
                }
            }),
        final(actor).wf(),
        final(actor).globals == old(actor).globals,
        final(actor).compiled == old(actor).compiled,
        old(actor).insns@.len() <= final(actor).insns@.len(),
        insns_kept(old(actor).insns@, final(actor).insns@),
{
    let ghost o = actor.insns@;
    if fits_imm32(val) {
        actor.emit(Insn::load_imm32(dst, val.raw_bits() as i32));
    } else {
        gen_const(actor, dst, val, pos)?;
    }
    assert(actor.insns@.subrange(0, o.len() as int) =~= o);
    Ok(())
}

/// Load a heap constant, which always goes through the pool
fn gen_const(actor: &mut Actor, dst: u16, val: Value, pos: SrcPos) -> (r: Result<(), ParseError>)
    requires
        old(actor).wf(),
    ensures
        r is Ok <==> old(actor).consts@.len() < u32::MAX,
        r is Ok ==> final(actor).insns@ == old(actor).insns@.push(final(actor).insns@.last())
            && final(actor).insns@.last().spec_opcode() == Opcode::load_const
            && crate::insns::load_const::spec_decode(final(actor).insns@.last()) == (crate::insns::load_const { dst, slot: old(actor).consts@.len() as u32 })
            && final(actor).consts@ == old(actor).consts@.push(val),
        r is Err ==> final(actor).insns == old(actor).insns,
        final(actor).wf(),
        final(actor).globals == old(actor).globals,
        final(actor).compiled == old(actor).compiled,
        old(actor).insns@.len() <= final(actor).insns@.len(),
        insns_kept(old(actor).insns@, final(actor).insns@),
{
    match actor.push_const(val) {
        Some(slot) => {
            actor.emit(Insn::load_const(dst, slot));
            Ok(())
        }
        None => ParseError::with_pos("too many constants", &pos),
    }
}

/// Whether a value can be carried in a 40-bit immediate field, which
/// sign-extends: not a heap reference, and its word is the sign extension
/// of its low 40 bits
pub fn fits_imm40(val: Value) -> (r: bool)
    ensures
        r == (!val.spec_is_heap() && (val.bits() < 0x80_0000_0000 || val.bits() >= 0xFFFF_FF80_0000_0000)),
{
    if val.is_heap() {
        return false;
    }
    let raw = val.raw_bits();
    raw < 0x80_0000_0000 || raw >= 0xFFFF_FF80_0000_0000
}

/// Whether a value can be carried in an instruction's immediate field
pub open spec fn fits_imm32_spec(val: Value) -> bool {
    !val.spec_is_heap() && (val.bits() < 0x8000_0000 || val.bits() >= 0xFFFF_FFFF_8000_0000)
}

/// The value an expression is known to hold at the time it is compiled.
/// An immutable global the unit has already initialized holds the value
/// the compiled code will see
fn const_value(expr: &ExprBox, actor: &Actor) -> (r: Option<Value>)
    ensures
        match *expr.expr {
            Expr::Nil => r == Some(Value(crate::value::IMM_NIL)),
            Expr::True => r == Some(Value(crate::value::IMM_TRUE)),
            Expr::False => r == Some(Value(crate::value::IMM_FALSE)),
            Expr::Int64(v) => (r is Some <==> Value::spec_fits_fixnum(v as int))
                && (r matches Some(x) ==> x.spec_is_fixnum() && x.spec_fixnum_val() == v),
            Expr::Ref { decl: Decl::Global { idx, mutable: false }, .. } =>
                r == (if idx < actor.globals@.len() && actor.globals@[idx as int] != Value(crate::value::IMM_UNDEF) {
                    Some(actor.globals@[idx as int])
                } else {
                    None
                }),
            _ => r is None,
        },
{
    match &*expr.expr {
        Expr::Nil => Some(Value::NIL()),
        Expr::True => Some(Value::TRUE()),
        Expr::False => Some(Value::FALSE()),
        Expr::Int64(v) => Value::try_fixnum(*v),
        Expr::Ref { decl: Decl::Global { idx, mutable: false }, .. } => actor.global_value(*idx),
        _ => None,
    }
}

impl Function {
    /// Whether the body may run off its end without returning: it does
    /// unless it is a block whose last statement is a return
    pub fn needs_final_return(&self) -> (r: bool)
        ensures
            r == !(*self.body.stmt matches Stmt::Block(stmts)
                && stmts@.len() > 0 && (*stmts@.last().stmt matches Stmt::Return { .. })),
    {
        match &*self.body.stmt {
            Stmt::Block(stmts) => {
                if stmts.len() > 0 {
                    match &*stmts[stmts.len() - 1].stmt {
                        Stmt::Return { .. } => { return false; }
                        _ => {}
                    }
                }
                true
            }
            _ => true,
        }
    }

    /// Compile the function into the actor's instruction array
    pub fn gen_code(&self, actor: &mut Actor) -> (r: Result<CompiledFun, ParseError>)
        requires
            old(actor).wf(),
        ensures
            final(actor).wf(),
            final(actor).globals == old(actor).globals,
            final(actor).compiled == old(actor).compiled,
            old(actor).insns@.len() <= final(actor).insns@.len(),
            insns_kept(old(actor).insns@, final(actor).insns@),
            r matches Ok(c) ==> c.entry_pc == old(actor).insns@.len() && c.end_pc == final(actor).insns@.len()
                && c.entry_pc <= c.end_pc && c.num_params == self.params@.len(),
            self.params@.len() + self.num_locals > u16::MAX ==> r is Err && final(actor).insns == old(actor).insns,
    {
        // Entry address of the compiled function
        let entry_pc = actor.insns.len();

        let mut regs = match Regs::new(self) {
            Some(regs) => regs,
            None => { return frame_too_large(self.pos); }
        };

        // Compile the function body
        let mut break_idxs: Vec<usize> = Vec::new();
        let mut cont_idxs: Vec<usize> = Vec::new();
        self.body.gen_code(self, &mut regs, &mut break_idxs, &mut cont_idxs, actor)?;

        // If the body needs a final return
        if self.needs_final_return() {
            if self.is_ctor() {
                // A constructor hands back the object it was called on,
                // which is its first argument
                actor.emit(Insn::ret(0));
            } else {
                actor.emit(Insn::ret_nil());
            }
        }

        Ok(CompiledFun {
            entry_pc,
            end_pc: actor.insns.len(),
            num_params: self.params.len(),
            frame_size: regs.max as usize,
        })
    }
}

/// Emit a panic carrying the source position it happened at. The fields
/// are narrower than a position can be, so they saturate
fn gen_panic(actor: &mut Actor, pos: SrcPos)
    requires
        old(actor).wf(),
    ensures
        final(actor).wf(),
        final(actor).globals == old(actor).globals,
        final(actor).compiled == old(actor).compiled,
        old(actor).insns@.len() <= final(actor).insns@.len(),
        insns_kept(old(actor).insns@, final(actor).insns@),
        final(actor).insns@ == old(actor).insns@.push(final(actor).insns@.last()),
        final(actor).insns@.last().spec_opcode() == Opcode::panic,
        crate::insns::panic::spec_decode(final(actor).insns@.last()) == (crate::insns::panic {
            file_id: if pos.spec_file_id() > 0xFFF { 0xFFFu16 } else { pos.spec_file_id() as u16 },
            line_no: if pos.spec_line_no() > 0xFF_FFFF { 0xFF_FFFFu32 } else { pos.spec_line_no() },
            col_no: if pos.spec_col_no() > 0xF_FFFF { 0xF_FFFFu32 } else { pos.spec_col_no() },
        }),
{
    let file_id = if pos.file_id() > 0xFFF { 0xFFF } else { pos.file_id() as u16 };
    let line_no = if pos.line_no() > 0xFF_FFFF { 0xFF_FFFF } else { pos.line_no() };
    let col_no = if pos.col_no() > 0xF_FFFF { 0xF_FFFF } else { pos.col_no() };
    actor.emit(Insn::panic(file_id, line_no, col_no));
}

impl StmtBox {
    /// Generate code for a statement
    pub fn gen_code(
        &self,
        fun: &Function,
        regs: &mut Regs,
        break_idxs: &mut Vec<usize>,
        cont_idxs: &mut Vec<usize>,
        actor: &mut Actor,
    ) -> (r: Result<(), ParseError>)
        requires
            old(actor).wf(),
        ensures
            final(actor).wf(),
            final(actor).globals == old(actor).globals,
            final(actor).compiled == old(actor).compiled,
            old(actor).insns@.len() <= final(actor).insns@.len(),
            insns_kept(old(actor).insns@, final(actor).insns@),
            idxs_from(old(break_idxs)@, final(break_idxs)@, old(actor).insns@.len() as int),
            idxs_from(old(cont_idxs)@, final(cont_idxs)@, old(actor).insns@.len() as int),
            *self.stmt is Break ==> final(break_idxs)@ == old(break_idxs)@.push(old(actor).insns@.len() as usize)
                && final(actor).insns@.len() == old(actor).insns@.len() + 1,
            *self.stmt is Continue ==> final(cont_idxs)@ == old(cont_idxs)@.push(old(actor).insns@.len() as usize)
                && final(actor).insns@.len() == old(actor).insns@.len() + 1,
            *self.stmt is ClassDecl ==> r is Ok && final(actor).insns == old(actor).insns,
        decreases self,
    {
        let pos = self.pos;
        match &*self.stmt {
            Stmt::Expr { value: expr } => {
                let top = regs.top();

                match &*expr.expr {
                    // An omitted clause, as a while loop has in place of
                    // the init a for loop would carry
                    Expr::Nil => {}

                    // For assignment expressions as statements, the
                    // assigned value itself is not needed
                    Expr::Binary { op: BinOp::Assign, .. } => {
                        gen_assign(expr, fun, regs, actor, false)?;
                    }

                    _ => {
                        expr.gen_code(fun, regs, actor, None)?;
                    }
                }

                regs.free_to(top);
            }

            Stmt::Break => {
                let idx = actor.emit(Insn::jmp(0));
                break_idxs.push(idx);
            }

            Stmt::Continue => {
                let idx = actor.emit(Insn::jmp(0));
                cont_idxs.push(idx);
            }

            Stmt::Return { value: expr } => {
                // Returning a constant carries it in the instruction,
                // rather than loading it into a register first
                let cst = match const_value(expr, actor) {
                    Some(val) => if fits_imm32(val) { Some(val) } else { None },
                    None => None,
                };
                match cst {
                    Some(val) => {
                        actor.emit(Insn::ret_imm32(val.raw_bits() as i32));
                    }
                    None => {
                        let top = regs.top();
                        let src = expr.gen_code(fun, regs, actor, None)?;
                        actor.emit(Insn::ret(src));
                        regs.free_to(top);
                    }
                }
            }

            Stmt::Block(stmts) => {
                // Closures are created before the block runs, so that they
                // can capture each other
                if !fun.is_unit {
                    let mut k: usize = 0;
                    while k < stmts.len()
                        invariant
                            *self.stmt is Block,
                            actor.wf(),
                            actor.globals == old(actor).globals,
                            actor.compiled == old(actor).compiled,
                            old(actor).insns@.len() <= actor.insns@.len(),
                            insns_kept(old(actor).insns@, actor.insns@),
                        decreases stmts@.len() - k,
                    {
                        match &*stmts[k].stmt {
                            Stmt::Let { init_expr, decl, .. } => {
                                match &*init_expr.expr {
                                    Expr::Fun { fun_id, captured } => {
                                        let top = regs.top();
                                        let decl = match decl {
                                            Some(d) => d,
                                            None => {
                                                return ParseError::with_pos("internal error: unresolved declaration", &pos);
                                            }
                                        };
                                        if captured.len() > 0xFFF {
                                            return ParseError::with_pos("closure captures too many variables", &pos);
                                        }

                                        // Create the closure. The slots are
                                        // filled in by the Let below
                                        let clos = write_target(decl, fun, regs, pos)?;
                                        actor.emit(Insn::clos_new(clos, fun_id.to_usize() as u32, captured.len() as u16));

                                        // Initialize the local variable for this closure
                                        gen_var_write(decl, fun, regs, actor, clos, pos)?;

                                        regs.free_to(top);
                                    }
                                    _ => {}
                                }
                            }
                            _ => {}
                        }
                        k = k + 1;
                    }
                }

                gen_block(stmts, fun, regs, break_idxs, cont_idxs, actor)?;
            }

            Stmt::If { test_expr, then_stmt, else_stmt } => {
                // If false, jump to else stmt
                let if_idxs = gen_branch(test_expr, fun, regs, actor, false)?;

                match else_stmt {
                    Some(else_stmt) => {
                        then_stmt.gen_code(fun, regs, break_idxs, cont_idxs, actor)?;
                        let jump_idx = actor.emit(Insn::jmp(0));

                        // Patch the test to jump to the else clause
                        let dst_idx = actor.insns.len();
                        proof { lemma_none_below(if_idxs@, old(actor).insns@.len()); }
                        patch_jumps(actor, &if_idxs, dst_idx, pos)?;

                        else_stmt.gen_code(fun, regs, break_idxs, cont_idxs, actor)?;

                        // Patch the jump instruction to jump after the else clause
                        let dst_idx = actor.insns.len();
                        patch_jump(actor, jump_idx, dst_idx, pos)?;
                    }
                    None => {
                        then_stmt.gen_code(fun, regs, break_idxs, cont_idxs, actor)?;

                        let dst_idx = actor.insns.len();
                        proof { lemma_none_below(if_idxs@, old(actor).insns@.len()); }
                        patch_jumps(actor, &if_idxs, dst_idx, pos)?;
                    }
                }
            }

            Stmt::For { init_stmt, test_expr, incr_expr, body_stmt } => {
                // Generate code for the init statement
                init_stmt.gen_code(fun, regs, break_idxs, cont_idxs, actor)?;

                let mut loop_breaks: Vec<usize> = Vec::new();
                let mut loop_conts: Vec<usize> = Vec::new();

                // The test sits at the bottom of the loop, so a continuing
                // iteration takes one branch rather than a test and a jump
                // back. Entry jumps down to it, which also means the test
                // still runs before the body the first time round
                let entry_idx = actor.emit(Insn::jmp(0));
                let body_idx = actor.insns.len();

                body_stmt.gen_code(fun, regs, &mut loop_breaks, &mut loop_conts, actor)?;

                // Continue will jump here
                let cont_idx = actor.insns.len();

                // Evaluate the increment expression, which a while loop
                // does not have
                let has_incr = match &*incr_expr.expr {
                    Expr::Nil => false,
                    _ => true,
                };
                if has_incr {
                    let top = regs.top();
                    incr_expr.gen_code(fun, regs, actor, None)?;
                    regs.free_to(top);
                }

                // Evaluate the test, and go round again if it holds
                let test_idx = actor.insns.len();
                patch_jump(actor, entry_idx, test_idx, pos)?;

                let back_idxs = gen_branch(test_expr, fun, regs, actor, true)?;
                proof { lemma_none_below(back_idxs@, old(actor).insns@.len()); }
                patch_jumps(actor, &back_idxs, body_idx, pos)?;

                // Break will jump here
                let break_idx = actor.insns.len();

                proof { lemma_none_below(loop_conts@, old(actor).insns@.len()); }
                patch_jumps(actor, &loop_conts, cont_idx, pos)?;
                proof { lemma_none_below(loop_breaks@, old(actor).insns@.len()); }
                patch_jumps(actor, &loop_breaks, break_idx, pos)?;
            }

            Stmt::Assert { test_expr } => {
                let if_idxs = gen_branch(test_expr, fun, regs, actor, true)?;

                gen_panic(actor, pos);

                let dst_idx = actor.insns.len();
                proof { lemma_none_below(if_idxs@, old(actor).insns@.len()); }
                patch_jumps(actor, &if_idxs, dst_idx, pos)?;
            }

            // Variable declaration
            Stmt::Let { mutable: _, var_name: _, init_expr, decl } => {
                let decl = match decl {
                    // Nothing to do for top-level functions
                    Some(Decl::Fun { .. }) => { return Ok(()); }
                    Some(d) => d,
                    None => { return ParseError::with_pos("internal error: unresolved declaration", &pos); }
                };
                let top = regs.top();

                match &*init_expr.expr {
                    Expr::Fun { fun_id: _, captured } => {
                        // Read the closure variable. The closure itself was
                        // created before the block, so this only fills in
                        // what it captures
                        let clos = gen_var_read(decl, fun, regs, actor, None, pos)?;
                        gen_captures(captured, clos, fun, regs, actor, pos)?;
                    }

                    _ => {
                        // An escaping variable holds a cell, and the cell
                        // is created below, so the value cannot be written
                        // straight into the variable's own register
                        let escaping = fun.is_escaping(decl);
                        let dst = if escaping { None } else { Some(write_target(decl, fun, regs, pos)?) };

                        let src = init_expr.gen_code(fun, regs, actor, dst)?;

                        if escaping {
                            // Allocate a mutable closure cell for this variable
                            let cell = decl_reg(decl, fun, pos)?;
                            actor.emit(Insn::cell_new(cell));
                            actor.emit(Insn::cell_set(cell, src));
                        } else {
                            // Initialize the local variable
                            gen_var_write(decl, fun, regs, actor, src, pos)?;
                        }
                    }
                }

                regs.free_to(top);
            }

            Stmt::ClassDecl { .. } => {}
        }

        Ok(())
    }
}

/// Generate code for the statements of a block, in order
fn gen_block(
    stmts: &Vec<StmtBox>,
    fun: &Function,
    regs: &mut Regs,
    break_idxs: &mut Vec<usize>,
    cont_idxs: &mut Vec<usize>,
    actor: &mut Actor,
) -> (r: Result<(), ParseError>)
    requires
        old(actor).wf(),
    ensures
        final(actor).wf(),
        final(actor).globals == old(actor).globals,
        final(actor).compiled == old(actor).compiled,
        old(actor).insns@.len() <= final(actor).insns@.len(),
        insns_kept(old(actor).insns@, final(actor).insns@),
        idxs_from(old(break_idxs)@, final(break_idxs)@, old(actor).insns@.len() as int),
        idxs_from(old(cont_idxs)@, final(cont_idxs)@, old(actor).insns@.len() as int),
    decreases stmts,
{
    let mut k: usize = 0;
    while k < stmts.len()
        invariant
            actor.wf(),
            actor.globals == old(actor).globals,
            actor.compiled == old(actor).compiled,
            old(actor).insns@.len() <= actor.insns@.len(),
            insns_kept(old(actor).insns@, actor.insns@),
            idxs_from(old(break_idxs)@, break_idxs@, old(actor).insns@.len() as int),
            idxs_from(old(cont_idxs)@, cont_idxs@, old(actor).insns@.len() as int),
        decreases stmts@.len() - k,
    {
        assert(decreases_to!(stmts => stmts@[k as int]));
        stmts[k].gen_code(fun, regs, break_idxs, cont_idxs, actor)?;
        k = k + 1;
    }
    Ok(())
}

/// Whether an operator produces a condition, which is generated as a
/// branch and only turned back into a value where one is needed
pub open spec fn spec_is_cond_op(op: BinOp) -> bool {
    op == BinOp::And || op == BinOp::Or || op == BinOp::Eq || op == BinOp::Ne
        || op == BinOp::Lt || op == BinOp::Le || op == BinOp::Gt || op == BinOp::Ge
}

fn is_cond_op(op: BinOp) -> (r: bool)
    ensures
        r == spec_is_cond_op(op),
{
    match op {
        BinOp::And | BinOp::Or | BinOp::Eq | BinOp::Ne | BinOp::Lt | BinOp::Le | BinOp::Gt | BinOp::Ge => true,
        _ => false,
    }
}

/// Whether an expression is a condition
pub open spec fn is_cond_expr(e: ExprBox) -> bool {
    match *e.expr {
        Expr::Binary { op, .. } => spec_is_cond_op(op),
        _ => false,
    }
}

impl ExprBox {
    /// Generate code for an expression and return the register holding
    /// its value.
    ///
    /// `dst` is a hint: an expression that has to write somewhere writes
    /// there, but one whose value already sits in a register hands that
    /// register back untouched. Callers that need the value in a specific
    /// register go through `gen_into`.
    pub fn gen_code(
        &self,
        fun: &Function,
        regs: &mut Regs,
        actor: &mut Actor,
        dst: Option<u16>,
    ) -> (r: Result<u16, ParseError>)
        requires
            old(actor).wf(),
        ensures
            final(actor).wf(),
            final(actor).globals == old(actor).globals,
            final(actor).compiled == old(actor).compiled,
            old(actor).insns@.len() <= final(actor).insns@.len(),
            insns_kept(old(actor).insns@, final(actor).insns@),
            (*self.expr is Float64 || *self.expr is Ident || *self.expr is HostConst)
                ==> r is Err && final(actor).insns == old(actor).insns,
            *self.expr is Ref ==> var_read_outcome((*self.expr)->decl, *fun, *old(actor), *final(actor), *old(regs), dst, r),
            spec_literal_value(*self) matches Some(val) ==> ({
                &&& (r is Ok <==> ((dst is Some || old(regs).spec_next() < u16::MAX)
                    && (fits_imm32_spec(val) || old(actor).consts@.len() < u32::MAX)))
                &&& (r matches Ok(x) ==> x == out_dst(dst, *old(regs))
                    && value_loaded(old(actor).insns@, final(actor).insns@, old(actor).consts@, final(actor).consts@, x, val))
            }),
            spec_last_opcode(*self) matches Some(o) ==> (r matches Ok(x) ==> {
                let n = final(actor).insns@;
                &&& n.len() > old(actor).insns@.len()
                &&& n.last().spec_opcode() == o
                &&& insn_dst(n.last()) == x
            }),
        decreases self, 10int,
    {
        let pos = self.pos;
        let reg = match &*self.expr {
            Expr::Nil => { let d = out_reg(dst, regs, pos)?; gen_value(actor, d, Value::NIL(), pos)?; d }
            Expr::True => { let d = out_reg(dst, regs, pos)?; gen_value(actor, d, Value::TRUE(), pos)?; d }
            Expr::False => { let d = out_reg(dst, regs, pos)?; gen_value(actor, d, Value::FALSE(), pos)?; d }

            Expr::HostFn(f) => {
                let d = out_reg(dst, regs, pos)?;
                gen_value(actor, d, Value::host_fn(*f), pos)?;
                d
            }

            // Constants that don't fit in an immediate are boxed in the
            // heap the code is compiled for, and held by the constant pool
            Expr::Int64(v) => {
                let d = out_reg(dst, regs, pos)?;

                match Value::try_fixnum(*v) {
                    Some(val) => { gen_value(actor, d, val, pos)?; }
                    None => {
                        if !has_room(&actor.alloc, crate::allocator::FIXED_SIZE) {
                            return ParseError::with_pos("out of memory", &pos);
                        }
                        let p = actor.alloc.alloc_boxed(*v as u64, Tag::Int64);
                        gen_const(actor, d, Value::int64_box(p), pos)?;
                    }
                }

                d
            }

            Expr::Float64(_) => {
                return ParseError::with_pos("floating-point values are not supported", &pos);
            }

            Expr::String(s) => {
                let d = out_reg(dst, regs, pos)?;
                let val = match actor.intern_str(s.as_str()) {
                    Some(v) => v,
                    None => { return ParseError::with_pos("out of memory", &pos); }
                };
                gen_const(actor, d, val, pos)?;
                d
            }

            // The literal's bytes are held by a constant, and every
            // evaluation gets a copy of its own to change
            Expr::ByteArray(bytes) => {
                let d = out_reg(dst, regs, pos)?;
                let ba = match ByteArray::from_bytes(bytes.as_slice(), &mut actor.alloc) {
                    Some(ba) => ba,
                    None => { return ParseError::with_pos("out of memory", &pos); }
                };
                proof { actor.alloc.lemma_wf_bounds(); }
                gen_const(actor, d, Value::bytearray(ba.addr), pos)?;
                actor.emit(Insn::ba_clone(d, d));
                d
            }

            Expr::Array { exprs } => {
                let d = out_reg(dst, regs, pos)?;
                if exprs.len() > u32::MAX as usize {
                    return ParseError::with_pos("array literal is too long", &pos);
                }
                actor.emit(Insn::arr_new(d, exprs.len() as u32));

                let mut k: usize = 0;
                assert(decreases_to!(self => *exprs));
                while k < exprs.len()
                    invariant
                        *self.expr is Array,
                        decreases_to!(self => *exprs),
                        actor.wf(),
                        actor.globals == old(actor).globals,
                        actor.compiled == old(actor).compiled,
                        old(actor).insns@.len() <= actor.insns@.len(),
                        insns_kept(old(actor).insns@, actor.insns@),
                    decreases exprs@.len() - k,
                {
                    let top = regs.top();
                    assert(decreases_to!(*exprs => exprs@[k as int]));
                    let val = exprs[k].gen_code(fun, regs, actor, None)?;
                    actor.emit(Insn::arr_push(d, val));
                    regs.free_to(top);
                    k = k + 1;
                }

                d
            }

            Expr::Dict { pairs } => {
                let d = out_reg(dst, regs, pos)?;
                actor.emit(Insn::dict_new(d));

                // For each field
                let mut k: usize = 0;
                assert(decreases_to!(self => *pairs));
                while k < pairs.len()
                    invariant
                        *self.expr is Dict,
                        decreases_to!(self => *pairs),
                        actor.wf(),
                        actor.globals == old(actor).globals,
                        actor.compiled == old(actor).compiled,
                        old(actor).insns@.len() <= actor.insns@.len(),
                        insns_kept(old(actor).insns@, actor.insns@),
                    decreases pairs@.len() - k,
                {
                    let top = regs.top();
                    assert(decreases_to!(*pairs => pairs@[k as int]));
                    let val = pairs[k].1.gen_code(fun, regs, actor, None)?;
                    let cache = match actor.new_prop_cache(pairs[k].0.as_str()) {
                        Some(c) => c,
                        None => { return ParseError::with_pos("too many field accesses", &pos); }
                    };
                    actor.emit(Insn::set_field(d, val, cache));
                    regs.free_to(top);
                    k = k + 1;
                }

                d
            }

            Expr::Ref { decl, .. } => gen_var_read(decl, fun, regs, actor, dst, pos)?,

            Expr::Index { base, index } => {
                let top = regs.top();
                let arr = base.gen_code(fun, regs, actor, None)?;
                let idx = index.gen_code(fun, regs, actor, None)?;
                regs.free_to(top);

                let d = out_reg(dst, regs, pos)?;
                actor.emit(Insn::get_index(d, arr, idx));
                d
            }

            Expr::Member { base, field } => {
                let top = regs.top();
                let obj = base.gen_code(fun, regs, actor, None)?;
                regs.free_to(top);

                let d = out_reg(dst, regs, pos)?;
                let cache = match actor.new_prop_cache(field.as_str()) {
                    Some(c) => c,
                    None => { return ParseError::with_pos("too many field accesses", &pos); }
                };
                actor.emit(Insn::get_field(d, obj, cache));
                d
            }

            Expr::InstanceOf { val, class_id, .. } => {
                let top = regs.top();
                let v = val.gen_code(fun, regs, actor, None)?;
                regs.free_to(top);

                let d = out_reg(dst, regs, pos)?;
                actor.emit(Insn::instanceof(d, v, class_id.to_usize() as u32));
                d
            }

            Expr::Unary { op, child } => {
                let top = regs.top();
                let src = child.gen_code(fun, regs, actor, None)?;
                regs.free_to(top);

                let d = out_reg(dst, regs, pos)?;

                match op {
                    // Negation is a multiply, which keeps the numeric
                    // tower in one place
                    UnOp::Minus => { actor.emit(Insn::mul_imm16(d, src, -1)); }

                    // Logical negation
                    UnOp::Not => { actor.emit(Insn::not(d, src)); }
                }

                d
            }

            Expr::Binary { op, .. } => {
                // A condition used as a value is built from the branch it
                // would compile to, so that the two shapes agree
                if is_cond_op(*op) {
                    return gen_cond_value(self, fun, regs, actor, dst);
                }

                return gen_bin_op(self, fun, regs, actor, dst);
            }

            Expr::Ternary { test_expr, then_expr, else_expr } => {
                // Both arms have to land in the same register
                let d = out_reg(dst, regs, pos)?;

                let if_idxs = gen_branch(test_expr, fun, regs, actor, false)?;

                // Evaluate the then expression
                gen_into(then_expr, fun, regs, actor, d)?;
                let jump_idx = actor.emit(Insn::jmp(0));

                // Patch the test to jump to the else clause
                let dst_idx = actor.insns.len();
                proof { lemma_none_below(if_idxs@, old(actor).insns@.len()); }
                patch_jumps(actor, &if_idxs, dst_idx, pos)?;

                // Evaluate the else expression
                gen_into(else_expr, fun, regs, actor, d)?;

                // Patch the jump over the else expression
                let dst_idx = actor.insns.len();
                patch_jump(actor, jump_idx, dst_idx, pos)?;

                d
            }

            Expr::Call { .. } => {
                return gen_call(self, fun, regs, actor);
            }

            // Function expression
            Expr::Fun { fun_id, captured } => {
                let d = out_reg(dst, regs, pos)?;

                // If this is not a closure
                if captured.len() == 0 {
                    gen_value(actor, d, Value::fun(*fun_id), pos)?;
                    return Ok(d);
                }

                if captured.len() > 0xFFF {
                    return ParseError::with_pos("closure captures too many variables", &pos);
                }
                actor.emit(Insn::clos_new(d, fun_id.to_usize() as u32, captured.len() as u16));
                gen_captures(captured, d, fun, regs, actor, pos)?;
                d
            }

            Expr::Ident(_) | Expr::HostConst(_) => {
                return ParseError::with_pos("internal error: unresolved name", &pos);
            }
        };

        Ok(reg)
    }
}

/// Materialize a condition as a boolean value. The branch it compiles to
/// is what decides the result, so a comparison costs no more here than it
/// does as a test
fn gen_cond_value(
    expr: &ExprBox,
    fun: &Function,
    regs: &mut Regs,
    actor: &mut Actor,
    dst: Option<u16>,
) -> (r: Result<u16, ParseError>)
    requires
        old(actor).wf(),
    ensures
        final(actor).wf(),
        final(actor).globals == old(actor).globals,
        final(actor).compiled == old(actor).compiled,
        old(actor).insns@.len() <= final(actor).insns@.len(),
        insns_kept(old(actor).insns@, final(actor).insns@),
        r matches Ok(x) ==> x == out_dst(dst, *old(regs)),
    decreases expr, if is_cond_expr(*expr) { 8int } else { 12int },
{
    let pos = expr.pos;
    let d = out_reg(dst, regs, pos)?;

    let jumps = gen_branch(expr, fun, regs, actor, true)?;
    gen_value(actor, d, Value::FALSE(), pos)?;
    let jmp_idx = actor.emit(Insn::jmp(0));

    // The branch lands on the true case
    let dst_idx = actor.insns.len();
    proof { lemma_none_below(jumps@, old(actor).insns@.len()); }
    patch_jumps(actor, &jumps, dst_idx, pos)?;
    gen_value(actor, d, Value::TRUE(), pos)?;

    let dst_idx = actor.insns.len();
    patch_jump(actor, jmp_idx, dst_idx, pos)?;

    Ok(d)
}

/// The conditional branch a comparison compiles to: taken when the
/// comparison holds. Equality and its opposite invert exactly, so `==`
/// tested for false is `!=` tested for true
pub open spec fn spec_cmp_branch(op: BinOp, jump_if_true: bool) -> Option<Opcode> {
    if (op == BinOp::Eq && jump_if_true) || (op == BinOp::Ne && !jump_if_true) { Some(Opcode::jeq) }
    else if (op == BinOp::Ne && jump_if_true) || (op == BinOp::Eq && !jump_if_true) { Some(Opcode::jne) }
    else if op == BinOp::Lt { Some(Opcode::jlt) }
    else if op == BinOp::Le { Some(Opcode::jle) }
    else if op == BinOp::Gt { Some(Opcode::jgt) }
    else if op == BinOp::Ge { Some(Opcode::jge) }
    else { None }
}

/// Whether an ordered comparison is tested for false. Two operands may be
/// unordered, where an ordered comparison and its opposite both fail, so
/// the branch on the comparison holding skips over an unconditional jump
/// that is then taken exactly when the comparison fails
pub open spec fn spec_cmp_negated(op: BinOp, jump_if_true: bool) -> bool {
    !jump_if_true && (op == BinOp::Lt || op == BinOp::Le || op == BinOp::Gt || op == BinOp::Ge)
}

/// The conditional branch a comparison compiles to, for either sense of
/// the test: for a comparison tested for false, a branch over the one
/// instruction that follows it, else one whose displacement is left to
/// patch
fn cmp_branch_insn(op: BinOp, jump_if_true: bool, a: u16, b: u16) -> (r: Option<Insn>)
    ensures
        (op == BinOp::Eq || op == BinOp::Ne || op == BinOp::Lt || op == BinOp::Le || op == BinOp::Gt
            || op == BinOp::Ge) ==> r is Some,
        r is Some <==> spec_cmp_branch(op, jump_if_true) is Some,
        r matches Some(i) ==> i.has_valid_opcode() && Some(i.spec_opcode()) == spec_cmp_branch(op, jump_if_true)
            && ({
                let disp: i32 = if spec_cmp_negated(op, jump_if_true) { 1 } else { 0 };
                match i.spec_opcode() {
                    Opcode::jeq => crate::insns::jeq::spec_decode(i) == (crate::insns::jeq { a, b, disp }),
                    Opcode::jne => crate::insns::jne::spec_decode(i) == (crate::insns::jne { a, b, disp }),
                    Opcode::jlt => crate::insns::jlt::spec_decode(i) == (crate::insns::jlt { a, b, disp }),
                    Opcode::jle => crate::insns::jle::spec_decode(i) == (crate::insns::jle { a, b, disp }),
                    Opcode::jgt => crate::insns::jgt::spec_decode(i) == (crate::insns::jgt { a, b, disp }),
                    _ => crate::insns::jge::spec_decode(i) == (crate::insns::jge { a, b, disp }),
                }
            }),
{
    let disp: i32 = if !jump_if_true { 1 } else { 0 };
    match (op, jump_if_true) {
        (BinOp::Eq, true) | (BinOp::Ne, false) => Some(Insn::jeq(a, b, 0)),
        (BinOp::Ne, true) | (BinOp::Eq, false) => Some(Insn::jne(a, b, 0)),

        (BinOp::Lt, _) => Some(Insn::jlt(a, b, disp)),
        (BinOp::Le, _) => Some(Insn::jle(a, b, disp)),
        (BinOp::Gt, _) => Some(Insn::jgt(a, b, disp)),
        (BinOp::Ge, _) => Some(Insn::jge(a, b, disp)),

        _ => None,
    }
}

/// Emit a test that transfers control when `expr` evaluates to
/// `jump_if_true`, and return the jumps that have to be patched to the
/// target. A comparison compiles straight into a conditional branch here,
/// rather than being materialized into a boolean that is then tested.
fn gen_branch(
    expr: &ExprBox,
    fun: &Function,
    regs: &mut Regs,
    actor: &mut Actor,
    jump_if_true: bool,
) -> (r: Result<Vec<usize>, ParseError>)
    requires
        old(actor).wf(),
    ensures
        final(actor).wf(),
        final(actor).globals == old(actor).globals,
        final(actor).compiled == old(actor).compiled,
        old(actor).insns@.len() <= final(actor).insns@.len(),
        insns_kept(old(actor).insns@, final(actor).insns@),
        r matches Ok(jumps) ==> forall|k: int| 0 <= k < jumps@.len()
            ==> old(actor).insns@.len() <= #[trigger] jumps@[k] < final(actor).insns@.len(),
        r matches Ok(jumps) ==> forall|k: int| 0 <= k < jumps@.len()
            ==> branch_at(final(actor).insns@, #[trigger] jumps@[k]),
        r matches Ok(jumps) ==> realizes(final(actor).insns@, old(actor).insns@.len(), final(actor).insns@.len(),
            *expr, jump_if_true, jumps@),
        (*expr.expr matches Expr::Binary { op, lhs, rhs } && spec_cmp_branch(op, true) is Some
            && own_reg_of(lhs, *fun) is Some && own_reg_of(rhs, *fun) is Some) ==> (r is Ok ==>
            compares_regs(final(actor).insns@, *expr, jump_if_true, *fun)),
    decreases expr, if is_cond_expr(*expr) { 6int } else { 11int },
{
    let pos = expr.pos;
    let ghost a0: nat = actor.insns@.len();
    match &*expr.expr {
        // Negation folds into the sense of the branch
        Expr::Unary { op: UnOp::Not, child } => {
            let r = gen_branch(child, fun, regs, actor, !jump_if_true);
            proof {
                if r is Ok {
                    let jumps = r->Ok_0;
                    let b: nat = actor.insns@.len();
                    let sense = !jump_if_true;
                    let p = choose|p: Seq<int>| #[trigger] realized_by(actor.insns@, a0, b, *child, sense, jumps@, p);
                    assert(layout(*expr, jump_if_true) == layout(*child, !jump_if_true));
                    assert(cond_leaves(*expr) == cond_leaves(*child));
                    assert(realized_by(actor.insns@, a0, b, *expr, jump_if_true, jumps@, p));
                }
            }
            return r;
        }

        // Short-circuiting operators branch directly, with no boolean
        // in between. One of the two senses needs the first test to skip
        // over the second, which is what the local patch below is for
        Expr::Binary { op: BinOp::And, lhs, rhs } => {
            if jump_if_true {
                // Jump only if both hold
                let skip = gen_branch(lhs, fun, regs, actor, false)?;
                let ghost n1 = actor.insns@;
                let ghost m: nat = actor.insns@.len();
                let jumps = gen_branch(rhs, fun, regs, actor, true)?;
                let ghost n2 = actor.insns@;

                let dst_idx = actor.insns.len();
                proof { lemma_none_below(skip@, old(actor).insns@.len()); }
                patch_jumps(actor, &skip, dst_idx, pos)?;
                proof {
                    lemma_branch_pair_patched(n1, n2, actor.insns@, a0, m, *expr, true, *lhs, false, skip@,
                        *rhs, true, jumps@);
                    assert(Seq::<usize>::empty() + jumps@ =~= jumps@);
                }
                return Ok(jumps);
            }

            // Jump if either fails
            let mut jumps = gen_branch(lhs, fun, regs, actor, false)?;
            let ghost n1 = actor.insns@;
            let ghost m: nat = actor.insns@.len();
            let ghost jl = jumps@;
            let mut more = gen_branch(rhs, fun, regs, actor, false)?;
            let ghost jr = more@;
            jumps.append(&mut more);
            proof {
                lemma_branch_pair(n1, actor.insns@, a0, m, *expr, false, *lhs, false, jl, *rhs, false, jr);
            }
            return Ok(jumps);
        }

        Expr::Binary { op: BinOp::Or, lhs, rhs } => {
            if jump_if_true {
                // Jump if either holds
                let mut jumps = gen_branch(lhs, fun, regs, actor, true)?;
                let ghost n1 = actor.insns@;
                let ghost m: nat = actor.insns@.len();
                let ghost jl = jumps@;
                let mut more = gen_branch(rhs, fun, regs, actor, true)?;
                let ghost jr = more@;
                jumps.append(&mut more);
                proof {
                    lemma_branch_pair(n1, actor.insns@, a0, m, *expr, true, *lhs, true, jl, *rhs, true, jr);
                }
                return Ok(jumps);
            }

            // Jump only if both fail
            let skip = gen_branch(lhs, fun, regs, actor, true)?;
            let ghost n1 = actor.insns@;
            let ghost m: nat = actor.insns@.len();
            let jumps = gen_branch(rhs, fun, regs, actor, false)?;
            let ghost n2 = actor.insns@;

            let dst_idx = actor.insns.len();
            proof { lemma_none_below(skip@, old(actor).insns@.len()); }
            patch_jumps(actor, &skip, dst_idx, pos)?;
            proof {
                lemma_branch_pair_patched(n1, n2, actor.insns@, a0, m, *expr, false, *lhs, true, skip@,
                    *rhs, false, jumps@);
                assert(Seq::<usize>::empty() + jumps@ =~= jumps@);
            }
            return Ok(jumps);
        }

        Expr::Binary { op, lhs, rhs } => {
            if is_cond_op(*op) {
                let top = regs.top();
                let a = lhs.gen_code(fun, regs, actor, None)?;
                let b = rhs.gen_code(fun, regs, actor, None)?;
                regs.free_to(top);

                match cmp_branch_insn(*op, jump_if_true, a, b) {
                    Some(insn) => {
                        proof { reveal(compares_regs); }
                        let idx = actor.emit(insn);
                        let mut jumps: Vec<usize> = Vec::new();
                        if !jump_if_true && !(*op == BinOp::Eq) && !(*op == BinOp::Ne) {
                            // The branch skips this jump when the
                            // comparison holds, so it is taken exactly
                            // when the comparison fails
                            let jmp_idx = actor.emit(Insn::jmp(0));
                            jumps.push(jmp_idx);
                            proof {
                                let n = actor.insns@;
                                assert(leaf_branch_at(n, n.len() - 1, *expr, jump_if_true));
                                lemma_realized_leaf(n, a0, n.len(), *expr, jump_if_true);
                                assert(jumps@ =~= seq![jmp_idx]);
                            }
                        } else {
                            jumps.push(idx);
                            proof {
                                let n = actor.insns@;
                                assert(leaf_branch_at(n, n.len() - 1, *expr, jump_if_true));
                                lemma_realized_leaf(n, a0, n.len(), *expr, jump_if_true);
                                assert(jumps@ =~= seq![idx]);
                            }
                        }
                        return Ok(jumps);
                    }
                    None => {
                        return ParseError::with_pos("internal error: not a comparison", &pos);
                    }
                }
            }
        }

        _ => {}
    }

    // Anything else is evaluated and tested as a boolean
    let top = regs.top();
    let test = expr.gen_code(fun, regs, actor, None)?;
    let insn = if jump_if_true { Insn::if_true(test, 0) } else { Insn::if_false(test, 0) };
    let idx = actor.emit(insn);
    regs.free_to(top);

    let mut jumps: Vec<usize> = Vec::new();
    jumps.push(idx);
    proof {
        let n = actor.insns@;
        assert(leaf_branch_at(n, n.len() - 1, *expr, jump_if_true));
        lemma_realized_leaf(n, a0, n.len(), *expr, jump_if_true);
        assert(jumps@ =~= seq![idx]);
    }
    Ok(jumps)
}

/// Generate an expression into a specific register
fn gen_into(
    expr: &ExprBox,
    fun: &Function,
    regs: &mut Regs,
    actor: &mut Actor,
    dst: u16,
) -> (r: Result<(), ParseError>)
    requires
        old(actor).wf(),
    ensures
        final(actor).wf(),
        final(actor).globals == old(actor).globals,
        final(actor).compiled == old(actor).compiled,
        old(actor).insns@.len() <= final(actor).insns@.len(),
        insns_kept(old(actor).insns@, final(actor).insns@),
        r is Ok ==> final(regs).spec_next() == old(regs).spec_next(),
    decreases expr, 11int,
{
    let top = regs.top();
    let src = expr.gen_code(fun, regs, actor, Some(dst))?;

    if src != dst {
        actor.emit(Insn::mov(dst, src));
    }

    regs.free_to(top);
    Ok(())
}

/// Fill in the slots of a closure that has already been created
fn gen_captures(
    captured: &Vec<Decl>,
    clos: u16,
    fun: &Function,
    regs: &mut Regs,
    actor: &mut Actor,
    pos: SrcPos,
) -> (r: Result<(), ParseError>)
    requires
        old(actor).wf(),
    ensures
        final(actor).wf(),
        final(actor).globals == old(actor).globals,
        final(actor).compiled == old(actor).compiled,
        old(actor).insns@.len() <= final(actor).insns@.len(),
        insns_kept(old(actor).insns@, final(actor).insns@),
        captured@.len() > 0xFFF ==> r is Err && final(actor).insns == old(actor).insns,
        r is Ok ==> final(regs).spec_next() == old(regs).spec_next(),
{
    if captured.len() > 0xFFF {
        return ParseError::with_pos("closure captures too many variables", &pos);
    }

    // For each variable captured by the closure
    let mut k: usize = 0;
    while k < captured.len()
        invariant
            actor.wf(),
            actor.globals == old(actor).globals,
            actor.compiled == old(actor).compiled,
            old(actor).insns@.len() <= actor.insns@.len(),
            insns_kept(old(actor).insns@, actor.insns@),
            captured@.len() <= 0xFFF,
            regs.spec_next() == old(regs).spec_next(),
        decreases captured@.len() - k,
    {
        let top = regs.top();

        // Copy variables and cells captured by the closure.
        // A mutable local is captured by its cell, not by its value
        let decl = captured[k];
        let src = match decl {
            Decl::Local { mutable: true, .. } => decl_reg(&decl, fun, pos)?,
            _ => gen_var_read(&decl, fun, regs, actor, None, pos)?,
        };

        actor.emit(Insn::clos_set(clos, src, k as u16));
        regs.free_to(top);
        k = k + 1;
    }
    Ok(())
}

/// Generate a call, whose arguments have to land in consecutive registers
/// starting at the callee's frame base. The return value comes back in
/// that same register
fn gen_call(
    expr: &ExprBox,
    fun: &Function,
    regs: &mut Regs,
    actor: &mut Actor,
) -> (r: Result<u16, ParseError>)
    requires
        old(actor).wf(),
    ensures
        final(actor).wf(),
        final(actor).globals == old(actor).globals,
        final(actor).compiled == old(actor).compiled,
        old(actor).insns@.len() <= final(actor).insns@.len(),
        insns_kept(old(actor).insns@, final(actor).insns@),
        r matches Ok(x) ==> x == old(regs).spec_next(),
        !(*expr.expr is Call) ==> r is Err,
    decreases expr, 8int,
{
    let pos = expr.pos;
    let (callee, args) = match &*expr.expr {
        Expr::Call { callee, args } => (callee, args),
        _ => { return ParseError::with_pos("internal error: not a call", &pos); }
    };
    if args.len() >= 255 {
        return ParseError::with_pos("too many call arguments", &pos);
    }
    let n_args = args.len() as u16;

    // A method call and a constructor both pass self as argument zero. A
    // dynamic call parks the callee just above the arguments, where the
    // callee's own frame overwrites it once the call is under way
    let (argc, extra_slot): (u16, u16) = match &*callee.expr {
        Expr::Member { .. } => (n_args + 1, 0),
        Expr::Ref { decl: Decl::Class { .. }, .. } => (n_args + 1, 0),
        Expr::Ref { decl: Decl::Fun { .. }, .. } => (n_args, 0),
        Expr::HostFn(_) => (n_args, 0),
        _ => (n_args, 1),
    };
    let argc8 = argc as u8;

    // A call with no arguments still needs the register its return value
    // comes back in
    let top = regs.top();
    let n_regs: u16 = if argc + extra_slot > 1 { argc + extra_slot } else { 1 };
    let start = match regs.alloc_n(n_regs) {
        Some(s) => s,
        None => { return frame_too_large(pos); }
    };
    if start > u16::MAX - 256 {
        return frame_too_large(pos);
    }

    match &*callee.expr {
        // New class instance. The object is created into the callee's
        // frame base and handed to the constructor as self
        Expr::Ref { decl: Decl::Class { id }, .. } => {
            gen_args(expr, fun, regs, actor, start + 1)?;
            actor.emit(Insn::new(id.to_usize() as u32, start, argc8));
        }

        // Callee has form a.b
        Expr::Member { base, field } => {
            // Evaluate the self argument
            assert(decreases_to!(expr => *callee));
            gen_into(base, fun, regs, actor, start)?;
            gen_args(expr, fun, regs, actor, start + 1)?;

            let cache = match actor.new_call_cache(field.as_str()) {
                Some(c) => c,
                None => { return ParseError::with_pos("too many call sites", &pos); }
            };
            actor.emit(Insn::call_method(start, argc8, cache));
        }

        // Call to a known function
        Expr::Ref { decl: Decl::Fun { id }, .. } => {
            gen_args(expr, fun, regs, actor, start)?;
            actor.emit(Insn::call_direct(id.to_usize() as u32, start, argc8));
        }

        // Call to a host function, which the VM provides
        Expr::HostFn(host_fn) => {
            gen_args(expr, fun, regs, actor, start)?;
            actor.emit(Insn::call_host(host_fn.to_index(), start, argc8));
        }

        // Plain regular call
        _ => {
            gen_args(expr, fun, regs, actor, start)?;
            gen_into(callee, fun, regs, actor, start + argc)?;

            let cache = match actor.new_call_cache("") {
                Some(c) => c,
                None => { return ParseError::with_pos("too many call sites", &pos); }
            };
            actor.emit(Insn::call_opnd(start, argc8, cache));
        }
    }

    // The return value comes back in the callee's frame base
    regs.free_to(top);
    match regs.alloc_reg() {
        Some(d) => Ok(d),
        None => frame_too_large(pos),
    }
}

/// Evaluate the arguments of a call into consecutive registers
fn gen_args(
    expr: &ExprBox,
    fun: &Function,
    regs: &mut Regs,
    actor: &mut Actor,
    first: u16,
) -> (r: Result<(), ParseError>)
    requires
        old(actor).wf(),
    ensures
        final(actor).wf(),
        final(actor).globals == old(actor).globals,
        final(actor).compiled == old(actor).compiled,
        old(actor).insns@.len() <= final(actor).insns@.len(),
        insns_kept(old(actor).insns@, final(actor).insns@),
        !(*expr.expr is Call) ==> r is Err,
    decreases expr, 7int,
{
    let pos = expr.pos;
    let args = match &*expr.expr {
        Expr::Call { args, .. } => args,
        _ => { return ParseError::with_pos("internal error: not a call", &pos); }
    };
    let mut k: usize = 0;
    assert(decreases_to!(expr => *args));
    while k < args.len()
        invariant
            decreases_to!(expr => *args),
            actor.wf(),
            actor.globals == old(actor).globals,
            actor.compiled == old(actor).compiled,
            old(actor).insns@.len() <= actor.insns@.len(),
            insns_kept(old(actor).insns@, actor.insns@),
        decreases args@.len() - k,
    {
        if k > (u16::MAX - first) as usize {
            return frame_too_large(pos);
        }
        assert(decreases_to!(*args => args@[k as int]));
        gen_into(&args[k], fun, regs, actor, first + k as u16)?;
        k = k + 1;
    }
    Ok(())
}

/// The value a literal expression stands for, for the literals held in
/// a word: nil, the booleans and the integers small enough to be fixnums
pub open spec fn spec_literal_value(e: ExprBox) -> Option<Value> {
    match *e.expr {
        Expr::Nil => Some(Value(crate::value::IMM_NIL)),
        Expr::True => Some(Value(crate::value::IMM_TRUE)),
        Expr::False => Some(Value(crate::value::IMM_FALSE)),
        Expr::Int64(v) => if Value::spec_fits_fixnum(v as int) { Some(Value::spec_fixnum(v as int)) } else { None },
        _ => None,
    }
}

/// The instruction an expression's code ends with, for the expressions
/// whose value the last instruction computes into the result register
pub open spec fn spec_last_opcode(e: ExprBox) -> Option<Opcode> {
    match *e.expr {
        Expr::Unary { op: UnOp::Minus, .. } => Some(Opcode::mul_imm16),
        Expr::Unary { op: UnOp::Not, .. } => Some(Opcode::not),
        Expr::Index { .. } => Some(Opcode::get_index),
        Expr::Member { .. } => Some(Opcode::get_field),
        Expr::InstanceOf { .. } => Some(Opcode::instanceof),
        _ => None,
    }
}

/// The register a variable lives in, for a reference to an argument or
/// local that is not captured by a nested function: its value is read
/// there, with no instruction
pub open spec fn own_reg_of(e: ExprBox, fun: Function) -> Option<u16> {
    match *e.expr {
        Expr::Ref { decl, .. } => if in_own_reg(decl, fun) { spec_decl_reg(decl, fun) } else { None },
        _ => None,
    }
}

/// Whether the comparison that a condition's code ends with compares the
/// registers of its left and right operands, in that order: the last
/// instruction, or the one before the jump of a negated comparison
#[verifier::opaque]
pub open spec fn compares_regs(n: Seq<Insn>, e: ExprBox, jump_if_true: bool, fun: Function) -> bool {
    let k = n.len() - 1 - negation_extra((*e.expr)->Binary_op, jump_if_true);
    &&& 0 <= k < n.len()
    &&& branch_reg_a(n[k]) == own_reg_of((*e.expr)->Binary_lhs, fun)->0
    &&& branch_reg_b(n[k]) == own_reg_of((*e.expr)->Binary_rhs, fun)->0
}

/// One for a comparison tested for false that is followed by its jump,
/// else zero
pub open spec fn negation_extra(op: BinOp, jump_if_true: bool) -> int {
    if spec_cmp_negated(op, jump_if_true) { 1 } else { 0 }
}

/// The first register a two-register branch compares
pub open spec fn branch_reg_a(i: Insn) -> u16 {
    crate::insns::spec_bits_u(i.0, 8, 16) as u16
}

/// The second register a two-register branch compares
pub open spec fn branch_reg_b(i: Insn) -> u16 {
    crate::insns::spec_bits_u(i.0, 24, 16) as u16
}

/// The first operand register of a three-register instruction
pub open spec fn insn_a(i: Insn) -> u16 {
    crate::insns::spec_bits_u(i.0, 24, 16) as u16
}

/// The second operand register of a three-register instruction
pub open spec fn insn_b(i: Insn) -> u16 {
    crate::insns::spec_bits_u(i.0, 48, 16) as u16
}

/// The instruction an arithmetic or bitwise operator compiles to
pub open spec fn spec_arith_opcode(op: BinOp) -> Option<Opcode> {
    if op == BinOp::BitAnd { Some(Opcode::bit_and) }
    else if op == BinOp::BitOr { Some(Opcode::bit_or) }
    else if op == BinOp::BitXor { Some(Opcode::bit_xor) }
    else if op == BinOp::LShift { Some(Opcode::lshift) }
    else if op == BinOp::RShift { Some(Opcode::rshift) }
    else if op == BinOp::Add { Some(Opcode::add) }
    else if op == BinOp::Sub { Some(Opcode::sub) }
    else if op == BinOp::Mul { Some(Opcode::mul) }
    else if op == BinOp::Div { Some(Opcode::div) }
    else if op == BinOp::IntDiv { Some(Opcode::div_int) }
    else if op == BinOp::Mod { Some(Opcode::modulo) }
    else { None }
}

/// The instruction an operator compiles to when its right operand is a
/// small integer constant
pub open spec fn spec_imm_opcode(op: BinOp) -> Option<Opcode> {
    if op == BinOp::Add { Some(Opcode::add_imm16) }
    else if op == BinOp::Sub { Some(Opcode::sub_imm16) }
    else if op == BinOp::Mul { Some(Opcode::mul_imm16) }
    else { None }
}

/// The destination register of an instruction that writes one, in its
/// first operand
pub open spec fn insn_dst(i: Insn) -> u16 {
    crate::insns::spec_bits_u(i.0, 8, 16) as u16
}

fn gen_bin_op(
    expr: &ExprBox,
    fun: &Function,
    regs: &mut Regs,
    actor: &mut Actor,
    dst: Option<u16>,
) -> (r: Result<u16, ParseError>)
    requires
        old(actor).wf(),
    ensures
        final(actor).wf(),
        final(actor).globals == old(actor).globals,
        final(actor).compiled == old(actor).compiled,
        old(actor).insns@.len() <= final(actor).insns@.len(),
        insns_kept(old(actor).insns@, final(actor).insns@),
        (*expr.expr matches Expr::Binary { op, .. } && op != BinOp::Assign)
            ==> (r matches Ok(x) ==> x == out_dst(dst, *old(regs))),
        !(*expr.expr is Binary) ==> r is Err,
        (*expr.expr matches Expr::Binary { op, .. } && op != BinOp::Assign) ==> (r matches Ok(x) ==> {
            let n = final(actor).insns@;
            let op = (*expr.expr)->Binary_op;
            &&& spec_arith_opcode(op) is Some
            &&& n.len() > old(actor).insns@.len()
            &&& (Some(n.last().spec_opcode()) == spec_arith_opcode(op) || Some(n.last().spec_opcode()) == spec_imm_opcode(op))
            &&& insn_dst(n.last()) == x
        }),
        (*expr.expr matches Expr::Binary { op, lhs, rhs } && spec_arith_opcode(op) is Some
            && own_reg_of(lhs, *fun) is Some && own_reg_of(rhs, *fun) is Some) ==> (r is Ok ==> {
            let n = final(actor).insns@;
            &&& n.last().spec_opcode() == spec_arith_opcode((*expr.expr)->Binary_op)->0
            &&& insn_a(n.last()) == own_reg_of((*expr.expr)->Binary_lhs, *fun)->0
            &&& insn_b(n.last()) == own_reg_of((*expr.expr)->Binary_rhs, *fun)->0
        }),
    decreases expr, 8int,
{
    let pos = expr.pos;
    let (op, lhs, rhs) = match &*expr.expr {
        Expr::Binary { op, lhs, rhs } => (*op, lhs, rhs),
        _ => { return ParseError::with_pos("internal error: not a binary operation", &pos); }
    };

    // Assignments are different from other kinds of expressions
    // because we don't evaluate the lhs the same way
    if op == BinOp::Assign {
        return gen_assign(expr, fun, regs, actor, true);
    }

    // If the rhs is a constant integer that fits an immediate operand
    if op == BinOp::Add || op == BinOp::Sub || op == BinOp::Mul {
        let imm: Option<i16> = match const_value(rhs, actor) {
            Some(v) => {
                if v.is_fixnum() {
                    let n = v.as_fixnum();
                    if -0x8000 <= n && n <= 0x7FFF { Some(n as i16) } else { None }
                } else {
                    None
                }
            }
            None => None,
        };

        match imm {
            Some(imm) => {
                let top = regs.top();
                let a = lhs.gen_code(fun, regs, actor, None)?;
                regs.free_to(top);

                let d = out_reg(dst, regs, pos)?;
                let insn = if op == BinOp::Add {
                    Insn::add_imm16(d, a, imm)
                } else if op == BinOp::Sub {
                    Insn::sub_imm16(d, a, imm)
                } else {
                    Insn::mul_imm16(d, a, imm)
                };
                actor.emit(insn);
                return Ok(d);
            }
            None => {}
        }
    }

    let top = regs.top();
    let a = lhs.gen_code(fun, regs, actor, None)?;
    let b = rhs.gen_code(fun, regs, actor, None)?;
    regs.free_to(top);

    let d = out_reg(dst, regs, pos)?;

    let insn = match op {
        BinOp::BitAnd => Insn::bit_and(d, a, b),
        BinOp::BitOr => Insn::bit_or(d, a, b),
        BinOp::BitXor => Insn::bit_xor(d, a, b),
        BinOp::LShift => Insn::lshift(d, a, b),
        BinOp::RShift => Insn::rshift(d, a, b),

        BinOp::Add => Insn::add(d, a, b),
        BinOp::Sub => Insn::sub(d, a, b),
        BinOp::Mul => Insn::mul(d, a, b),
        BinOp::Div => Insn::div(d, a, b),
        BinOp::IntDiv => Insn::div_int(d, a, b),
        BinOp::Mod => Insn::modulo(d, a, b),

        _ => { return ParseError::with_pos("internal error: unexpected operator", &pos); }
    };

    actor.emit(insn);
    Ok(d)
}

/// Register a variable can be written into directly, if it has one. A
/// global, a captured variable or an escaping local goes through an
/// instruction instead, so those get a temporary
fn write_target(decl: &Decl, fun: &Function, regs: &mut Regs, pos: SrcPos) -> (r: Result<u16, ParseError>)
    ensures
        in_own_reg(*decl, *fun) ==> (r is Ok <==> spec_decl_reg(*decl, *fun) is Some)
            && (r matches Ok(x) ==> spec_decl_reg(*decl, *fun) == Some(x))
            && *final(regs) == *old(regs),
        !in_own_reg(*decl, *fun) ==> (r is Ok <==> old(regs).spec_next() < u16::MAX)
            && (r matches Ok(x) ==> x == old(regs).spec_next()
                && final(regs).spec_next() == old(regs).spec_next() + 1),
        r is Err ==> *final(regs) == *old(regs),
{
    match decl {
        Decl::Local { .. } | Decl::Arg { .. } => {
            if !fun.is_escaping(decl) {
                return decl_reg(decl, fun, pos);
            }
        }
        _ => {}
    }
    match regs.alloc_reg() {
        Some(d) => Ok(d),
        None => frame_too_large(pos),
    }
}

/// Whether `i` stores register `src` into global slot `idx`
pub open spec fn is_set_global(i: Insn, src: u16, idx: u32) -> bool {
    i.spec_opcode() == Opcode::set_global && crate::insns::set_global::spec_decode(i) == (crate::insns::set_global { src, idx })
}

/// Whether `i` stores register `src` into the cell held in `cell`
pub open spec fn is_cell_set(i: Insn, cell: u16, src: u16) -> bool {
    i.spec_opcode() == Opcode::cell_set && crate::insns::cell_set::spec_decode(i) == (crate::insns::cell_set { cell, src })
}

/// Whether `i` copies register `src` into `dst`
pub open spec fn is_mov(i: Insn, dst: u16, src: u16) -> bool {
    i.spec_opcode() == Opcode::mov && crate::insns::mov::spec_decode(i) == (crate::insns::mov { dst, src })
}

/// Whether `i` loads captured variable `idx` into `dst`
pub open spec fn is_clos_get(i: Insn, dst: u16, idx: u16) -> bool {
    i.spec_opcode() == Opcode::clos_get && crate::insns::clos_get::spec_decode(i) == (crate::insns::clos_get { dst, idx })
}

/// Whether `i` reads the cell held in `cell` into `dst`
pub open spec fn is_cell_get(i: Insn, dst: u16, cell: u16) -> bool {
    i.spec_opcode() == Opcode::cell_get && crate::insns::cell_get::spec_decode(i) == (crate::insns::cell_get { dst, cell })
}

/// Whether `i` reads global slot `idx` into `dst`
pub open spec fn is_get_global(i: Insn, dst: u16, idx: u32) -> bool {
    i.spec_opcode() == Opcode::get_global && crate::insns::get_global::spec_decode(i) == (crate::insns::get_global { dst, idx })
}

/// Generate a write of a value held in `src` to a variable
fn gen_var_write(
    decl: &Decl,
    fun: &Function,
    regs: &mut Regs,
    actor: &mut Actor,
    src: u16,
    pos: SrcPos,
) -> (r: Result<(), ParseError>)
    requires
        old(actor).wf(),
    ensures
        final(actor).wf(),
        final(actor).globals == old(actor).globals,
        final(actor).compiled == old(actor).compiled,
        final(actor).consts == old(actor).consts,
        old(actor).insns@.len() <= final(actor).insns@.len(),
        insns_kept(old(actor).insns@, final(actor).insns@),
        r is Err ==> final(actor).insns == old(actor).insns,
        ({
            let o = old(actor).insns@;
            let n = final(actor).insns@;
            match *decl {
                Decl::Global { idx, .. } => r is Ok && appended(o, n, 1) && is_set_global(n.last(), src, idx),
                Decl::Local { .. } | Decl::Arg { .. } => match spec_decl_reg(*decl, *fun) {
                    None => r is Err,
                    Some(reg) => r is Ok && if fun.escaping@.contains(*decl) {
                        appended(o, n, 1) && is_cell_set(n.last(), reg, src)
                    } else if reg != src {
                        appended(o, n, 1) && is_mov(n.last(), reg, src)
                    } else {
                        n == o
                    },
                },
                Decl::Captured { idx, mutable } => {
                    if !mutable || idx > 0xFFF || old(regs).spec_next() == u16::MAX {
                        r is Err
                    } else {
                        let cell = old(regs).spec_next();
                        &&& r is Ok
                        &&& appended(o, n, 2)
                        &&& is_clos_get(n[o.len() as int], cell, idx as u16)
                        &&& is_cell_set(n[o.len() as int + 1], cell, src)
                    }
                },
                _ => r is Err,
            }
        }),
{
    let ghost o = actor.insns@;
    match *decl {
        Decl::Global { idx, .. } => {
            actor.emit(Insn::set_global(src, idx));
            assert(actor.insns@.subrange(0, o.len() as int) =~= o);
        }

        Decl::Local { .. } | Decl::Arg { .. } => {
            let reg = decl_reg(decl, fun, pos)?;

            // An escaping variable holds a cell, and the value goes in it
            if fun.is_escaping(decl) {
                actor.emit(Insn::cell_set(reg, src));
            } else if reg != src {
                actor.emit(Insn::mov(reg, src));
            }
            assert(actor.insns@.subrange(0, o.len() as int) =~= o);
        }

        Decl::Captured { idx, mutable } => {
            if !mutable {
                return ParseError::with_pos("assignment to immutable variable", &pos);
            }
            if idx > 0xFFF {
                return ParseError::with_pos("closure captures too many variables", &pos);
            }
            let cell = match regs.alloc_reg() {
                Some(c) => c,
                None => { return frame_too_large(pos); }
            };
            actor.emit(Insn::clos_get(cell, idx as u16));
            actor.emit(Insn::cell_set(cell, src));
            assert(actor.insns@.subrange(0, o.len() as int) =~= o);
        }

        _ => {
            return ParseError::with_pos("invalid assignment target", &pos);
        }
    }
    Ok(())
}

/// What reading a variable leaves: the register its value is in, the
/// instructions emitted and the registers taken, for each kind of
/// declaration
pub open spec fn var_read_outcome(decl: Decl, fun: Function, a0: Actor, a1: Actor, regs0: Regs, dst: Option<u16>,
    r: Result<u16, ParseError>) -> bool
{
    &&& ({
            let o = a0.insns@;
            let n = a1.insns@;
            let oc = a0.consts@;
            let nc = a1.consts@;
            let d = match dst { Some(x) => x, None => regs0.spec_next() };
            let out_ok = dst is Some || regs0.spec_next() < u16::MAX;
            match decl {
                Decl::Fun { id } => {
                    &&& (out_ok && oc.len() < u32::MAX ==> r is Ok)
                    &&& (!out_ok ==> r is Err)
                    &&& (r matches Ok(x) ==> x == d && value_loaded(o, n, oc, nc, d, Value::spec_fun(id)))
                },
                _ => true,
            }
    })
    &&& ({
            let o = a0.insns@;
            let n = a1.insns@;
            let oc = a0.consts@;
            let nc = a1.consts@;
            let d = match dst { Some(x) => x, None => regs0.spec_next() };
            let out_ok = dst is Some || regs0.spec_next() < u16::MAX;
            match decl {
                Decl::Class { id } => {
                    &&& (out_ok && oc.len() < u32::MAX ==> r is Ok)
                    &&& (!out_ok ==> r is Err)
                    &&& (r matches Ok(x) ==> x == d && value_loaded(o, n, oc, nc, d, Value::spec_class(id)))
                },
                _ => true,
            }
    })
    &&& ({
            let o = a0.insns@;
            let n = a1.insns@;
            let oc = a0.consts@;
            let nc = a1.consts@;
            let d = match dst { Some(x) => x, None => regs0.spec_next() };
            let out_ok = dst is Some || regs0.spec_next() < u16::MAX;
            match decl {
                Decl::Global { idx, mutable } => {
                    let gs = a0.globals@;
                    let known = !mutable && idx < gs.len() && gs[idx as int] != Value(crate::value::IMM_UNDEF);
                    &&& (r is Ok <==> out_ok)
                    &&& (r matches Ok(x) ==> x == d && if known && fits_imm32_spec(gs[idx as int]) {
                        value_loaded(o, n, oc, nc, d, gs[idx as int])
                    } else {
                        appended(o, n, 1) && is_get_global(n.last(), d, idx) && nc == oc
                    })
                },
                _ => true,
            }
    })
    &&& ({
            let o = a0.insns@;
            let n = a1.insns@;
            let oc = a0.consts@;
            let nc = a1.consts@;
            let d = match dst { Some(x) => x, None => regs0.spec_next() };
            let out_ok = dst is Some || regs0.spec_next() < u16::MAX;
            match decl {
                Decl::Arg { .. } => {
                    &&& (r is Ok <==> spec_decl_reg(decl, fun) is Some)
                    &&& (r matches Ok(x) ==> spec_decl_reg(decl, fun) == Some(x))
                    &&& n == o
                },
                _ => true,
            }
    })
    &&& ({
            let o = a0.insns@;
            let n = a1.insns@;
            let oc = a0.consts@;
            let nc = a1.consts@;
            let d = match dst { Some(x) => x, None => regs0.spec_next() };
            let out_ok = dst is Some || regs0.spec_next() < u16::MAX;
            match decl {
                Decl::Local { .. } => match spec_decl_reg(decl, fun) {
                    None => r is Err,
                    Some(reg) => if fun.escaping@.contains(decl) {
                        &&& (r is Ok <==> out_ok)
                        &&& (r matches Ok(x) ==> x == d && appended(o, n, 1) && is_cell_get(n.last(), d, reg))
                    } else {
                        r == Ok::<u16, ParseError>(reg) && n == o
                    },
                },
                _ => true,
            }
    })
    &&& ({
            let o = a0.insns@;
            let n = a1.insns@;
            let oc = a0.consts@;
            let nc = a1.consts@;
            let d = match dst { Some(x) => x, None => regs0.spec_next() };
            let out_ok = dst is Some || regs0.spec_next() < u16::MAX;
            match decl {
                Decl::Captured { idx, mutable } => {
                    if idx > 0xFFF || !out_ok {
                        r is Err
                    } else if mutable {
                        &&& r == Ok::<u16, ParseError>(d)
                        &&& appended(o, n, 2)
                        &&& is_clos_get(n[o.len() as int], d, idx as u16)
                        &&& is_cell_get(n[o.len() as int + 1], d, d)
                    } else {
                        &&& r == Ok::<u16, ParseError>(d)
                        &&& appended(o, n, 1)
                        &&& is_clos_get(n.last(), d, idx as u16)
                    }
                },
                _ => true,
            }
    })
}

/// Generate a read of a variable, returning the register its value ends
/// up in. A local that is not escaping is already in a register, so it is
/// handed back as it is
fn gen_var_read(
    decl: &Decl,
    fun: &Function,
    regs: &mut Regs,
    actor: &mut Actor,
    dst: Option<u16>,
    pos: SrcPos,
) -> (r: Result<u16, ParseError>)
    requires
        old(actor).wf(),
    ensures
        final(actor).wf(),
        final(actor).globals == old(actor).globals,
        final(actor).compiled == old(actor).compiled,
        old(actor).insns@.len() <= final(actor).insns@.len(),
        insns_kept(old(actor).insns@, final(actor).insns@),
        r is Err ==> final(actor).insns == old(actor).insns,
        ({
            let o = old(actor).insns@;
            let n = final(actor).insns@;
            let oc = old(actor).consts@;
            let nc = final(actor).consts@;
            let d = match dst { Some(x) => x, None => old(regs).spec_next() };
            let out_ok = dst is Some || old(regs).spec_next() < u16::MAX;
            match *decl {
                Decl::Fun { id } => {
                    &&& (out_ok && oc.len() < u32::MAX ==> r is Ok)
                    &&& (!out_ok ==> r is Err)
                    &&& (r matches Ok(x) ==> x == d && value_loaded(o, n, oc, nc, d, Value::spec_fun(id)))
                },
                _ => true,
            }
        }),
        ({
            let o = old(actor).insns@;
            let n = final(actor).insns@;
            let oc = old(actor).consts@;
            let nc = final(actor).consts@;
            let d = match dst { Some(x) => x, None => old(regs).spec_next() };
            let out_ok = dst is Some || old(regs).spec_next() < u16::MAX;
            match *decl {
                Decl::Class { id } => {
                    &&& (out_ok && oc.len() < u32::MAX ==> r is Ok)
                    &&& (!out_ok ==> r is Err)
                    &&& (r matches Ok(x) ==> x == d && value_loaded(o, n, oc, nc, d, Value::spec_class(id)))
                },
                _ => true,
            }
        }),
        ({
            let o = old(actor).insns@;
            let n = final(actor).insns@;
            let oc = old(actor).consts@;
            let nc = final(actor).consts@;
            let d = match dst { Some(x) => x, None => old(regs).spec_next() };
            let out_ok = dst is Some || old(regs).spec_next() < u16::MAX;
            match *decl {
                Decl::Global { idx, mutable } => {
                    let gs = old(actor).globals@;
                    let known = !mutable && idx < gs.len() && gs[idx as int] != Value(crate::value::IMM_UNDEF);
                    &&& (r is Ok <==> out_ok)
                    &&& (r matches Ok(x) ==> x == d && if known && fits_imm32_spec(gs[idx as int]) {
                        value_loaded(o, n, oc, nc, d, gs[idx as int])
                    } else {
                        appended(o, n, 1) && is_get_global(n.last(), d, idx) && nc == oc
                    })
                },
                _ => true,
            }
        }),
        ({
            let o = old(actor).insns@;
            let n = final(actor).insns@;
            let oc = old(actor).consts@;
            let nc = final(actor).consts@;
            let d = match dst { Some(x) => x, None => old(regs).spec_next() };
            let out_ok = dst is Some || old(regs).spec_next() < u16::MAX;
            match *decl {
                Decl::Arg { .. } => {
                    &&& (r is Ok <==> spec_decl_reg(*decl, *fun) is Some)
                    &&& (r matches Ok(x) ==> spec_decl_reg(*decl, *fun) == Some(x))
                    &&& n == o
                },
                _ => true,
            }
        }),
        ({
            let o = old(actor).insns@;
            let n = final(actor).insns@;
            let oc = old(actor).consts@;
            let nc = final(actor).consts@;
            let d = match dst { Some(x) => x, None => old(regs).spec_next() };
            let out_ok = dst is Some || old(regs).spec_next() < u16::MAX;
            match *decl {
                Decl::Local { .. } => match spec_decl_reg(*decl, *fun) {
                    None => r is Err,
                    Some(reg) => if fun.escaping@.contains(*decl) {
                        &&& (r is Ok <==> out_ok)
                        &&& (r matches Ok(x) ==> x == d && appended(o, n, 1) && is_cell_get(n.last(), d, reg))
                    } else {
                        r == Ok::<u16, ParseError>(reg) && n == o
                    },
                },
                _ => true,
            }
        }),
        ({
            let o = old(actor).insns@;
            let n = final(actor).insns@;
            let oc = old(actor).consts@;
            let nc = final(actor).consts@;
            let d = match dst { Some(x) => x, None => old(regs).spec_next() };
            let out_ok = dst is Some || old(regs).spec_next() < u16::MAX;
            match *decl {
                Decl::Captured { idx, mutable } => {
                    if idx > 0xFFF || !out_ok {
                        r is Err
                    } else if mutable {
                        &&& r == Ok::<u16, ParseError>(d)
                        &&& appended(o, n, 2)
                        &&& is_clos_get(n[o.len() as int], d, idx as u16)
                        &&& is_cell_get(n[o.len() as int + 1], d, d)
                    } else {
                        &&& r == Ok::<u16, ParseError>(d)
                        &&& appended(o, n, 1)
                        &&& is_clos_get(n.last(), d, idx as u16)
                    }
                },
                _ => true,
            }
        }),
{
    let ghost o = actor.insns@;
    let ghost oc = actor.consts@;
    match *decl {
        Decl::Fun { id } => {
            let d = out_reg(dst, regs, pos)?;
            let v = Value::fun(id);
            gen_value(actor, d, v, pos)?;
            Ok(d)
        }

        Decl::Class { id } => {
            let d = out_reg(dst, regs, pos)?;
            let v = Value::class(id);
            gen_value(actor, d, v, pos)?;
            Ok(d)
        }

        Decl::Global { idx, mutable } => {
            let d = out_reg(dst, regs, pos)?;

            // An immutable global the unit has already initialized holds
            // the same value the compiled code will see
            let known = if mutable { None } else { actor.global_value(idx) };
            match known {
                Some(val) => {
                    if fits_imm32(val) {
                        gen_value(actor, d, val, pos)?;
                    } else {
                        actor.emit(Insn::get_global(d, idx));
                    }
                }
                None => { actor.emit(Insn::get_global(d, idx)); }
            }
            assert(actor.insns@.subrange(0, o.len() as int) =~= o);

            Ok(d)
        }

        Decl::Arg { .. } => decl_reg(decl, fun, pos),

        Decl::Local { .. } => {
            let reg = decl_reg(decl, fun, pos)?;

            if fun.is_escaping(decl) {
                let d = out_reg(dst, regs, pos)?;
                actor.emit(Insn::cell_get(d, reg));
                assert(actor.insns@.subrange(0, o.len() as int) =~= o);
                Ok(d)
            } else {
                Ok(reg)
            }
        }

        Decl::Captured { idx, mutable } => {
            if idx > 0xFFF {
                return ParseError::with_pos("closure captures too many variables", &pos);
            }
            let d = out_reg(dst, regs, pos)?;
            actor.emit(Insn::clos_get(d, idx as u16));

            if mutable {
                actor.emit(Insn::cell_get(d, d));
            }
            assert(actor.insns@.subrange(0, o.len() as int) =~= o);

            Ok(d)
        }
    }
}

fn gen_assign(
    expr: &ExprBox,
    fun: &Function,
    regs: &mut Regs,
    actor: &mut Actor,
    need_value: bool,
) -> (r: Result<u16, ParseError>)
    requires
        old(actor).wf(),
    ensures
        final(actor).wf(),
        final(actor).globals == old(actor).globals,
        final(actor).compiled == old(actor).compiled,
        old(actor).insns@.len() <= final(actor).insns@.len(),
        insns_kept(old(actor).insns@, final(actor).insns@),
        need_value && (*expr.expr matches Expr::Binary { lhs, .. } && (*lhs.expr is Member || *lhs.expr is Index))
            ==> (r matches Ok(x) ==> x == old(regs).spec_next()),
        !(*expr.expr is Binary) ==> r is Err,
    decreases expr, 7int,
{
    let pos = expr.pos;
    let (lhs, rhs) = match &*expr.expr {
        Expr::Binary { lhs, rhs, .. } => (lhs, rhs),
        _ => { return ParseError::with_pos("internal error: not an assignment", &pos); }
    };

    match &*lhs.expr {
        Expr::Ref { decl, .. } => {
            // Writing straight into the variable's own register is what
            // keeps a plain assignment down to the value's own code
            let target = write_target(decl, fun, regs, pos)?;
            let src = rhs.gen_code(fun, regs, actor, Some(target))?;
            gen_var_write(decl, fun, regs, actor, src, pos)?;
            Ok(src)
        }

        Expr::Member { base, field } => {
            // The assigned value is the result of the expression, so it
            // is allocated before the operands and outlives them
            let d = if need_value {
                match regs.alloc_reg() {
                    Some(d) => Some(d),
                    None => { return frame_too_large(pos); }
                }
            } else {
                None
            };

            let top = regs.top();
            assert(decreases_to!(expr => *lhs));
            let obj = base.gen_code(fun, regs, actor, None)?;
            let src = rhs.gen_code(fun, regs, actor, d)?;

            let cache = match actor.new_prop_cache(field.as_str()) {
                Some(c) => c,
                None => { return ParseError::with_pos("too many field accesses", &pos); }
            };
            actor.emit(Insn::set_field(obj, src, cache));

            match d {
                Some(d) => {
                    if d != src {
                        actor.emit(Insn::mov(d, src));
                    }
                }
                None => {}
            }

            regs.free_to(top);
            match d {
                Some(d) => Ok(d),
                None => Ok(src),
            }
        }

        Expr::Index { base, index } => {
            let d = if need_value {
                match regs.alloc_reg() {
                    Some(d) => Some(d),
                    None => { return frame_too_large(pos); }
                }
            } else {
                None
            };

            let top = regs.top();
            assert(decreases_to!(expr => *lhs));
            let arr = base.gen_code(fun, regs, actor, None)?;
            let idx = index.gen_code(fun, regs, actor, None)?;
            let src = rhs.gen_code(fun, regs, actor, d)?;

            actor.emit(Insn::set_index(arr, idx, src));

            match d {
                Some(d) => {
                    if d != src {
                        actor.emit(Insn::mov(d, src));
                    }
                }
                None => {}
            }

            regs.free_to(top);
            match d {
                Some(d) => Ok(d),
                None => Ok(src),
            }
        }

        _ => ParseError::with_pos("invalid assignment target", &pos),
    }
}

} // verus!
