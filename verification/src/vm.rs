use vstd::prelude::*;
use crate::allocator::{Alloc, Tag, FIXED_SIZE};
use crate::bytearray::{ByteArray, MAX_BA_BYTES, le_bytes16, le_bytes32, spec_le};
use crate::host::{NUM_HOST_GLOBALS, global_num_params, spec_global_num_params};
use crate::array::{keeps, Array};
use crate::dict::Dict;
use crate::runtime::get_method;
use crate::ast::Program;
use crate::codegen::valid_opcode;
use crate::heap::{alloc_slots_filled, alloc_str, check_value, class_id_of, has_room, slots_of, spec_str_bytes, str_bytes, is_slots_value, slot_at, spec_class_id_of};
use crate::ids::{ClassId, FunId, MAX_ID};
use crate::insns;
use crate::insns::{Insn, Opcode};
use crate::lexer::str_chars;
use crate::methods;
use crate::value::{law_fixnum_words_are_unique, Value, VAL_BIT};

verus! {

/// Page size the heaps commit memory in, when none is given
pub const DEFAULT_PAGE_SIZE: u64 = 4096;

/// Largest index of a cache entry, which an instruction holds in 24 bits
pub const MAX_CACHE_IDX: usize = 0xFF_FFFF;

/// Compiled function object
#[derive(Copy, Clone, Debug)]
pub struct CompiledFun {
    pub entry_pc: usize,

    /// One past the last instruction. Every function compiles into the
    /// same instruction array, so this is what bounds one of them
    pub end_pc: usize,

    pub num_params: usize,

    /// Registers the frame occupies. Arguments come first, then locals,
    /// then the temporaries an expression needs while it is evaluated
    pub frame_size: usize,
}

/// A call in progress
#[derive(Copy, Clone, Debug)]
pub struct StackFrame {
    /// Function or closure being run
    pub fun: Value,

    /// Frame base and stack height of the caller, to restore on return
    pub prev_bp: usize,
    pub prev_top: usize,

    /// Where the caller resumes
    pub ret_addr: usize,
}

/// An actor: a thread of execution with its own heap, stack and code
pub struct Actor {
    /// Id of this actor
    pub actor_id: u64,

    /// Compiled code of every function this actor has run
    pub insns: Vec<Insn>,

    /// Constant pool: heap constants and immediates too wide for an
    /// instruction
    pub consts: Vec<Value>,

    /// Global variable slots
    pub globals: Vec<Value>,

    /// Register stack and call frames
    pub stack: Vec<Value>,
    pub frames: Vec<StackFrame>,

    /// The heap values of this actor live in
    pub alloc: Alloc,

    /// Functions compiled so far, with their entry points
    pub compiled: Vec<(FunId, CompiledFun)>,

    /// Field name of each field access site
    pub prop_names: Vec<String>,

    /// Method name of each call site, empty for a plain call
    pub call_names: Vec<String>,
}

impl Actor {
    pub open spec fn wf(self) -> bool {
        &&& self.alloc.wf()
    }

    /// An actor with no code, a given number of globals, and a fresh heap
    pub fn new(actor_id: u64, num_globals: usize, page_size: u64) -> (r: Actor)
        requires
            page_size > 0,
            page_size % 8 == 0,
            page_size <= crate::allocator::INIT_SIZE,
            (2 * crate::allocator::INIT_SIZE + page_size) / 8 <= usize::MAX,
        ensures
            r.wf(),
            r.globals@.len() == num_globals,
            r.stack@.len() == 0,
            r.frames@.len() == 0,
            r.insns@.len() == 0,
    {
        let mut globals: Vec<Value> = Vec::new();
        let mut i: usize = 0;
        while i < num_globals
            invariant
                i <= num_globals,
                globals@.len() == i,
            decreases num_globals - i,
        {
            globals.push(Value::UNDEF());
            i = i + 1;
        }
        Actor {
            actor_id,
            insns: Vec::new(),
            consts: Vec::new(),
            globals,
            stack: Vec::new(),
            frames: Vec::new(),
            alloc: Alloc::new(page_size),
            compiled: Vec::new(),
            prop_names: Vec::new(),
            call_names: Vec::new(),
        }
    }

    /// Emit an instruction and return its index, for later patching
    pub fn emit(&mut self, insn: Insn) -> (r: usize)
        ensures
            final(self).insns@ == old(self).insns@.push(insn),
            r == old(self).insns@.len(),
            final(self).alloc == old(self).alloc,
            final(self).consts == old(self).consts,
            final(self).globals == old(self).globals,
            final(self).compiled == old(self).compiled,
    {
        self.insns.push(insn);
        self.insns.len() - 1
    }

    /// Add a constant to the pool and return its slot
    pub fn push_const(&mut self, val: Value) -> (r: Option<u32>)
        ensures
            final(self).insns == old(self).insns,
            final(self).alloc == old(self).alloc,
            final(self).globals == old(self).globals,
            final(self).compiled == old(self).compiled,
            r matches Some(slot) ==> slot < final(self).consts@.len() && final(self).consts@[slot as int] == val,
            r is None <==> old(self).consts@.len() >= u32::MAX,
            r is None ==> final(self).consts == old(self).consts,
            r matches Some(slot) ==> slot == old(self).consts@.len()
                && final(self).consts@ == old(self).consts@.push(val),
    {
        if self.consts.len() >= u32::MAX as usize {
            return None;
        }
        self.consts.push(val);
        Some((self.consts.len() - 1) as u32)
    }

    /// Value of a global the unit has already initialized
    pub fn global_value(&self, idx: u32) -> (r: Option<Value>)
        ensures
            r matches Some(v) ==> idx < self.globals@.len() && v == self.globals@[idx as int] && v != Value(crate::value::IMM_UNDEF),
            r is Some <==> idx < self.globals@.len() && self.globals@[idx as int] != Value(crate::value::IMM_UNDEF),
    {
        if (idx as usize) < self.globals.len() {
            let v = self.globals[idx as usize];
            if !v.is_undef() {
                return Some(v);
            }
        }
        None
    }

    /// Create a cache entry for a field access site
    pub fn new_prop_cache(&mut self, name: &str) -> (r: Option<u32>)
        ensures
            final(self).insns == old(self).insns,
            final(self).alloc == old(self).alloc,
            final(self).globals == old(self).globals,
            final(self).compiled == old(self).compiled,
            r matches Some(c) ==> c <= MAX_CACHE_IDX && c < final(self).prop_names@.len()
                && final(self).prop_names@[c as int]@ == name@,
            r is None <==> old(self).prop_names@.len() > MAX_CACHE_IDX,
            r is None ==> final(self).prop_names == old(self).prop_names,
            r matches Some(c) ==> c == old(self).prop_names@.len() && final(self).prop_names@.len() == c + 1
                && forall|i: int| 0 <= i < c ==> #[trigger] final(self).prop_names@[i] == old(self).prop_names@[i],
    {
        if self.prop_names.len() > MAX_CACHE_IDX {
            return None;
        }
        self.prop_names.push(name.to_owned());
        Some((self.prop_names.len() - 1) as u32)
    }

    /// Create a cache entry for a call site
    pub fn new_call_cache(&mut self, name: &str) -> (r: Option<u32>)
        ensures
            final(self).insns == old(self).insns,
            final(self).alloc == old(self).alloc,
            final(self).globals == old(self).globals,
            final(self).compiled == old(self).compiled,
            r matches Some(c) ==> c <= MAX_CACHE_IDX && c < final(self).call_names@.len()
                && final(self).call_names@[c as int]@ == name@,
            r is None <==> old(self).call_names@.len() > MAX_CACHE_IDX,
            r is None ==> final(self).call_names == old(self).call_names,
            r matches Some(c) ==> c == old(self).call_names@.len() && final(self).call_names@.len() == c + 1
                && forall|i: int| 0 <= i < c ==> #[trigger] final(self).call_names@[i] == old(self).call_names@[i],
    {
        if self.call_names.len() > MAX_CACHE_IDX {
            return None;
        }
        self.call_names.push(name.to_owned());
        Some((self.call_names.len() - 1) as u32)
    }

    /// Allocate a constant string used by the program
    pub fn intern_str(&mut self, s: &str) -> (r: Option<Value>)
        requires
            old(self).wf(),
        ensures
            final(self).wf(),
            final(self).insns == old(self).insns,
            final(self).globals == old(self).globals,
            final(self).compiled == old(self).compiled,
            final(self).stack == old(self).stack,
            final(self).frames == old(self).frames,
            r is None <==> (spec_utf8(s@).len() > crate::allocator::MAX_RAW_BYTES
                || !crate::heap::room_for(old(self).alloc, crate::allocator::spec_align_up(spec_utf8(s@).len() as int))),
            r matches Some(v) ==> v.points_into(final(self).alloc) && v.spec_is_ptr_val(final(self).alloc, Tag::Str)
                && spec_str_bytes(v, final(self).alloc) == spec_utf8(s@),
    {
        let chars = str_chars(s);
        let bytes = utf8_encode(chars.as_slice());
        alloc_str(&mut self.alloc, bytes.as_slice())
    }

    /// Whether a function has been compiled
    pub open spec fn has_compiled(self, f: FunId) -> bool {
        exists|c: CompiledFun| self.compiled@.contains((f, c))
    }

    /// Entry of a function that has been compiled
    pub fn compiled_fun(&self, fun_id: FunId) -> (r: Option<CompiledFun>)
        ensures
            match r {
                Some(c) => exists|i: int| 0 <= i < self.compiled@.len() && self.compiled@[i] == (fun_id, c)
                    && forall|j: int| 0 <= j < i ==> (#[trigger] self.compiled@[j]).0 != fun_id,
                None => forall|i: int| 0 <= i < self.compiled@.len() ==> (#[trigger] self.compiled@[i]).0 != fun_id,
            },
    {
        let n = self.compiled.len();
        let mut i: usize = 0;
        while i < n
            invariant
                n == self.compiled@.len(),
                i <= n,
                forall|j: int| 0 <= j < i ==> (#[trigger] self.compiled@[j]).0 != fun_id,
            decreases n - i,
        {
            if self.compiled[i].0 == fun_id {
                return Some(self.compiled[i].1);
            }
            i = i + 1;
        }
        None
    }
}

/// Number of bytes UTF-8 encodes a character in
pub open spec fn utf8_len(c: char) -> nat {
    if (c as u32) < 0x80 { 1 } else if (c as u32) < 0x800 { 2 } else if (c as u32) < 0x10000 { 3 } else { 4 }
}

/// The UTF-8 encoding of one character
pub open spec fn spec_utf8_char(c: char) -> Seq<u8> {
    let v = c as u32 as int;
    if v < 0x80 {
        seq![v as u8]
    } else if v < 0x800 {
        seq![(0xC0 + v / 64) as u8, (0x80 + v % 64) as u8]
    } else if v < 0x10000 {
        seq![(0xE0 + v / 4096) as u8, (0x80 + (v / 64) % 64) as u8, (0x80 + v % 64) as u8]
    } else {
        seq![(0xF0 + (v / 262144) % 8) as u8, (0x80 + (v / 4096) % 64) as u8,
            (0x80 + (v / 64) % 64) as u8, (0x80 + v % 64) as u8]
    }
}

/// The UTF-8 encoding of a sequence of characters, one after the other
pub open spec fn spec_utf8(s: Seq<char>) -> Seq<u8>
    decreases s.len(),
{
    if s.len() == 0 {
        Seq::empty()
    } else {
        spec_utf8(s.drop_last()) + spec_utf8_char(s.last())
    }
}

// The bit operations of the encoder compute the bytes of the encoding
proof fn lemma_utf8_bytes(c: u32)
    ensures
        c < 0x800 ==> (0xC0 | (c >> 6)) == 0xC0 + c / 64 && (0x80 | (c & 0x3F)) == 0x80 + c % 64,
        c < 0x10000 ==> (0xE0 | (c >> 12)) == 0xE0 + c / 4096
            && (0x80 | ((c >> 6) & 0x3F)) == 0x80 + (c / 64) % 64,
        (0xF0 | ((c >> 18) & 0x07)) == 0xF0 + (c / 262144) % 8
            && (0x80 | ((c >> 12) & 0x3F)) == 0x80 + (c / 4096) % 64
            && (0x80 | ((c >> 6) & 0x3F)) == 0x80 + (c / 64) % 64
            && (0x80 | (c & 0x3F)) == 0x80 + c % 64,
{
    assert((c < 0x800 ==> (0xC0 | (c >> 6)) == 0xC0 + c / 64 && (0x80 | (c & 0x3F)) == 0x80 + c % 64)
        && (c < 0x10000 ==> (0xE0 | (c >> 12)) == 0xE0 + c / 4096
            && (0x80 | ((c >> 6) & 0x3F)) == 0x80 + (c / 64) % 64)
        && (0xF0 | ((c >> 18) & 0x07)) == 0xF0 + (c / 262144) % 8
        && (0x80 | ((c >> 12) & 0x3F)) == 0x80 + (c / 4096) % 64
        && (0x80 | ((c >> 6) & 0x3F)) == 0x80 + (c / 64) % 64
        && (0x80 | (c & 0x3F)) == 0x80 + c % 64) by (bit_vector);
}

/// The UTF-8 encoding of a sequence of characters
pub fn utf8_encode(chars: &[char]) -> (r: Vec<u8>)
    ensures
        r@ == spec_utf8(chars@),
{
    let mut out: Vec<u8> = Vec::new();
    let mut i: usize = 0;
    while i < chars.len()
        invariant
            i <= chars@.len(),
            out@ == spec_utf8(chars@.take(i as int)),
        decreases chars@.len() - i,
    {
        proof {
            assert(chars@.take(i as int + 1).drop_last() =~= chars@.take(i as int));
            assert(chars@.take(i as int + 1).last() == chars@[i as int]);
        }
        let c = chars[i] as u32;
        proof { lemma_utf8_bytes(c); }
        if c < 0x80 {
            out.push(c as u8);
        } else if c < 0x800 {
            out.push((0xC0 | (c >> 6)) as u8);
            out.push((0x80 | (c & 0x3F)) as u8);
        } else if c < 0x10000 {
            out.push((0xE0 | (c >> 12)) as u8);
            out.push((0x80 | ((c >> 6) & 0x3F)) as u8);
            out.push((0x80 | (c & 0x3F)) as u8);
        } else {
            out.push((0xF0 | ((c >> 18) & 0x07)) as u8);
            out.push((0x80 | ((c >> 12) & 0x3F)) as u8);
            out.push((0x80 | ((c >> 6) & 0x3F)) as u8);
            out.push((0x80 | (c & 0x3F)) as u8);
        }
        assert(out@ =~= spec_utf8(chars@.take(i as int + 1)));
        i = i + 1;
    }
    assert(chars@.take(chars@.len() as int) =~= chars@);
    out
}


/// Integer arithmetic of the instruction set, None where the result is
/// not an i64
pub open spec fn spec_int_op(op: Opcode, a: int, b: int) -> Option<int> {
    let r: Option<int> = if op == Opcode::add || op == Opcode::add_imm16 {
        Some(a + b)
    } else if op == Opcode::sub || op == Opcode::sub_imm16 {
        Some(a - b)
    } else if op == Opcode::mul || op == Opcode::mul_imm16 {
        Some(a * b)
    } else {
        None
    };
    match r {
        Some(v) => if i64::MIN <= v <= i64::MAX { Some(v) } else { None },
        None => None,
    }
}

/// The integer arithmetic and bitwise instructions
pub open spec fn is_int_arith(op: Opcode) -> bool {
    op == Opcode::add || op == Opcode::sub || op == Opcode::mul || op == Opcode::add_imm16
        || op == Opcode::sub_imm16 || op == Opcode::mul_imm16 || op == Opcode::div_int
        || op == Opcode::modulo || op == Opcode::bit_and || op == Opcode::bit_or || op == Opcode::bit_xor
        || op == Opcode::lshift || op == Opcode::rshift
}

/// What an integer arithmetic or bitwise instruction computes from two
/// 64-bit integers; none where it overflows, divides by zero or shifts by
/// a count outside the word
pub open spec fn spec_arith_int(op: Opcode, a: i64, b: i64) -> Option<int> {
    if op == Opcode::div_int || op == Opcode::modulo {
        if b == 0 || (a == i64::MIN && b == -1) {
            None
        } else if op == Opcode::modulo {
            Some(spec_rem_trunc(a as int, b as int))
        } else {
            Some(spec_div_trunc(a as int, b as int))
        }
    } else if op == Opcode::bit_and {
        Some((a & b) as int)
    } else if op == Opcode::bit_or {
        Some((a | b) as int)
    } else if op == Opcode::bit_xor {
        Some((a ^ b) as int)
    } else if op == Opcode::lshift {
        if 0 <= b < 64 { Some((((a as u64) << (b as u64)) as i64) as int) } else { None }
    } else if op == Opcode::rshift {
        if 0 <= b < 64 { Some((a >> (b as u64)) as int) } else { None }
    } else {
        spec_int_op(op, a as int, b as int)
    }
}

/// Addition, subtraction or multiplication of two i64 operands, as an
/// arithmetic instruction does it
pub fn int_op(op: Opcode, a: i64, b: i64) -> (r: Option<i64>)
    ensures
        r matches Some(v) ==> spec_int_op(op, a as int, b as int) == Some(v as int),
        r is None ==> spec_int_op(op, a as int, b as int) is None,
{
    let x = a as i128;
    let y = b as i128;
    let v: i128 = if op == Opcode::add || op == Opcode::add_imm16 {
        x + y
    } else if op == Opcode::sub || op == Opcode::sub_imm16 {
        x - y
    } else if op == Opcode::mul || op == Opcode::mul_imm16 {
        assert(-0x8000_0000_0000_0000 * 0x8000_0000_0000_0000 <= x * y <= 0x8000_0000_0000_0000 * 0x8000_0000_0000_0000) by (nonlinear_arith)
            requires -0x8000_0000_0000_0000 <= x <= 0x7FFF_FFFF_FFFF_FFFF, -0x8000_0000_0000_0000 <= y <= 0x7FFF_FFFF_FFFF_FFFF;
        x * y
    } else {
        return None;
    };
    if v < i64::MIN as i128 || v > i64::MAX as i128 {
        return None;
    }
    Some(v as i64)
}

/// Magnitude of an integer
pub open spec fn spec_abs(a: int) -> int {
    if a < 0 { -a } else { a }
}

/// Quotient of two integers rounded toward zero
pub open spec fn spec_div_trunc(a: int, b: int) -> int {
    let q = spec_abs(a) / spec_abs(b);
    if (a < 0) != (b < 0) { -q } else { q }
}

/// Remainder of the division rounded toward zero: it takes the sign of
/// the dividend
pub open spec fn spec_rem_trunc(a: int, b: int) -> int {
    let r = spec_abs(a) % spec_abs(b);
    if a < 0 { -r } else { r }
}

/// Integer division rounding toward zero, or its remainder; None when
/// dividing by zero or when the quotient does not fit
pub fn int_div_rem(a: i64, b: i64, rem: bool) -> (r: Option<i64>)
    ensures
        r is None <==> (b == 0 || (a == i64::MIN && b == -1)),
        r matches Some(v) ==> v == if rem { spec_rem_trunc(a as int, b as int) } else { spec_div_trunc(a as int, b as int) },
{
    if b == 0 || (a == i64::MIN && b == -1) {
        return None;
    }
    let x = a as i128;
    let y = b as i128;
    let ux: u64 = (if x < 0 { -x } else { x }) as u64;
    let uy: u64 = (if y < 0 { -y } else { y }) as u64;
    let uq: u64 = ux / uy;
    let ur: u64 = ux % uy;
    assert(ux <= 0x8000_0000_0000_0000 && 1 <= uy <= 0x8000_0000_0000_0000);
    assert(ur < uy);
    assert(uq * uy <= ux) by (nonlinear_arith)
        requires uq == ux / uy, uy >= 1;
    assert(uq <= ux) by (nonlinear_arith)
        requires uq * uy <= ux, uy >= 1;
    assert(uy >= 2 ==> 2 * uq <= ux) by (nonlinear_arith)
        requires uq * uy <= ux, uy >= 1;
    if rem {
        // The remainder takes the sign of the dividend
        let r: i128 = if x < 0 { -(ur as i128) } else { ur as i128 };
        if r < i64::MIN as i128 || r > i64::MAX as i128 {
            return None;
        }
        Some(r as i64)
    } else {
        let q: i128 = if (x < 0) != (y < 0) { -(uq as i128) } else { uq as i128 };
        if q < i64::MIN as i128 || q > i64::MAX as i128 {
            return None;
        }
        Some(q as i64)
    }
}

/// Why an integer operation produced no result
fn int_op_error(op: Opcode, divisor: i64) -> (r: String)
    ensures
        r@ == (if divisor == 0 && (op == Opcode::div_int || op == Opcode::modulo) {
            "division by zero in "@ + crate::insns::opcode_name(op)
        } else {
            "integer overflow in "@ + crate::insns::opcode_name(op)
        }),
{
    if divisor == 0 && (op == Opcode::div_int || op == Opcode::modulo) {
        concat_str("division by zero in ", op.name())
    } else {
        concat_str("integer overflow in ", op.name())
    }
}

/// Two strings one after the other
fn concat_str(a: &str, b: &str) -> (r: String)
    ensures
        r@ == a@ + b@,
{
    proof { reveal_strlit(""); }
    let r = crate::lexer::concat_msg(a, b, "");
    assert(a@ + b@ + ""@ =~= a@ + b@);
    r
}

/// The integer a value holds, if it holds one
pub open spec fn int_in(v: Value, heap: Alloc) -> Option<int> {
    if v.points_into(heap) { v.spec_to_i64(heap) } else { None }
}

/// What the integer methods `abs`, `min`, `max`, `clip` and `idiv`,
/// given by their index in the host function table, compute from the
/// receiver and up to two arguments; none where they fail
pub open spec fn spec_int_method(f: int, v: int, o: int, hi: int) -> Option<int> {
    if f == 31 {
        if v == i64::MIN { None } else { Some(if v > 0 { v } else { -v }) }
    } else if f == 32 {
        Some(if v <= o { v } else { o })
    } else if f == 33 {
        Some(if v >= o { v } else { o })
    } else if f == 34 {
        if o > hi { None } else { Some(if v < o { o } else if v > hi { hi } else { v }) }
    } else if f == 35 {
        if o == 0 || (v == i64::MIN && o == -1) { None } else { Some(methods::spec_idiv(v, o)) }
    } else {
        None
    }
}

/// What an integer method, given by its index in the host function
/// table, gives for a receiver and the arguments in the registers after
/// it: an error where the receiver is no integer or the method fails, and
/// else the integer or the string it computes
pub open spec fn int_method_outcome(f: u16, recv: Value, stack: Seq<Value>, bp: usize, start: u16,
    h0: Alloc, r: Result<Value, String>, h1: Alloc) -> bool
{
    let v = int_in(recv, h0);
    let o = int_in(stack[bp + start + 1], h0);
    let hi = int_in(stack[bp + start + 2], h0);
    &&& v is None ==> r is Err
    &&& 31 <= f <= 35 ==> (r matches Ok(x) ==> v is Some && (f != 31 ==> o is Some) && (f == 34 ==> hi is Some)
        && x.spec_to_i64(h1) == spec_int_method(f as int, v->0, o->0, hi->0))
    &&& (31 <= f <= 35 && v is Some && (f != 31 ==> o is Some) && (f == 34 ==> hi is Some)
        && spec_int_method(f as int, v->0, o->0, hi->0) is None) ==> r is Err
    &&& f == 37 ==> (r matches Ok(x) ==> v is Some
        && spec_str_bytes(x, h1) == spec_utf8(methods::spec_decimal(v->0)))
    &&& f == 38 ==> (r matches Ok(x) ==> v is Some
        && spec_str_bytes(x, h1) == spec_utf8(crate::utils::spec_thousands_sep(v->0)))
    &&& f == 39 ==> (r matches Ok(x) ==> v is Some && (o matches Some(w) && w >= 0
        && spec_str_bytes(x, h1) == spec_utf8(methods::spec_hex(v->0 as i64, w as nat))))
    &&& f == 36 ==> r is Err
}

/// What a method of strings, or `to_s` of booleans and nil, or
/// `String.from_codepoint`, given by its index in the host function
/// table, gives for a receiver and the arguments in the registers after it
pub open spec fn value_method_outcome(f: u16, recv: Value, stack: Seq<Value>, bp: usize, start: u16,
    h0: Alloc, r: Result<Value, String>, h1: Alloc) -> bool
{
    let is_str = recv.points_into(h0) && recv.spec_is_ptr_val(h0, Tag::Str);
    let sb = spec_str_bytes(recv, h0);
    let a1 = int_in(stack[bp + start + 1], h0);
    &&& f == 28 ==> (r matches Ok(x) ==> spec_str_bytes(x, h1) == spec_utf8("true"@))
    &&& f == 29 ==> (r matches Ok(x) ==> spec_str_bytes(x, h1) == spec_utf8("false"@))
    &&& f == 30 ==> (r matches Ok(x) ==> spec_str_bytes(x, h1) == spec_utf8("nil"@))
    &&& 31 <= f <= 39 ==> int_method_outcome(f, recv, stack, bp, start, h0, r, h1)
    &&& (40 <= f <= 57 || f == 62) ==> r is Err
    &&& f == 58 ==> (r matches Ok(x) ==> a1 matches Some(cp) && 0 <= cp <= u32::MAX
        && vstd::utf8::is_scalar(cp as u32) && spec_str_bytes(x, h1) == vstd::utf8::encode_scalar(cp as u32))
    &&& (59 <= f <= 67 && f != 62) ==> str_method_outcome(f, recv, stack, bp, start, h0, r, h1)
}

/// What a method of strings, given by its index in the host function
/// table, gives for a receiver and the arguments in the registers after it
pub open spec fn str_method_outcome(f: u16, recv: Value, stack: Seq<Value>, bp: usize, start: u16,
    h0: Alloc, r: Result<Value, String>, h1: Alloc) -> bool
{
    let is_str = recv.points_into(h0) && recv.spec_is_ptr_val(h0, Tag::Str);
    let sb = spec_str_bytes(recv, h0);
    let a1 = int_in(stack[bp + start + 1], h0);
    &&& !is_str ==> r is Err
    &&& f == 67 ==> (r matches Ok(x) ==> x == recv)
    &&& f == 63 ==> (r matches Ok(x) ==> spec_str_bytes(x, h1) == methods::spec_trim(sb))
    &&& f == 64 ==> (r matches Ok(x) ==> vstd::utf8::valid_utf8(sb)
        && spec_str_bytes(x, h1) == spec_utf8(methods::spec_to_uppercase(vstd::utf8::decode_utf8(sb))))
    &&& f == 65 ==> (r matches Ok(x) ==> vstd::utf8::valid_utf8(sb)
        && spec_str_bytes(x, h1) == spec_utf8(methods::spec_to_lowercase(vstd::utf8::decode_utf8(sb))))
    &&& f == 59 ==> (r matches Ok(x) ==> a1 matches Some(i) && 0 <= i < sb.len()
        && x.spec_to_i64(h1) == Some(sb[i] as int))
    &&& f == 60 ==> (r matches Ok(x) ==> a1 matches Some(i) && 0 <= i < sb.len()
        && match methods::spec_char_at(sb, i) {
            None => x == Value(crate::value::IMM_NIL),
            Some(c) => spec_str_bytes(x, h1) == c,
        })
    &&& f == 61 ==> (r matches Ok(x) ==> a1 matches Some(radix) && 2 <= radix <= 36
        && match methods::spec_parse_int(sb, radix as nat) {
            None => x == Value(crate::value::IMM_NIL),
            Some(n) => x.spec_to_i64(h1) == Some(n),
        })
    &&& f == 66 ==> (r matches Ok(x) ==> is_array_value(x, h1))
}

/// Number of values a host method takes, the receiver included
pub open spec fn method_num_params(f: nat) -> nat {
    if f == 94 {
        8
    } else if f == 86 {
        7
    } else if f == 88 {
        5
    } else if f == 91 {
        4
    } else if f == 34 || f == 68 || f == 72 || f == 74 || f == 77 || f == 79 || f == 81
        || f == 83 || f == 85 {
        3
    } else if f == 28 || f == 29 || f == 30 || f == 31 || f == 36 || f == 37 || f == 38
        || f == 62 || f == 63 || f == 64 || f == 65 || f == 67 || f == 70 || f == 87
        || f == 90 || f == 93 {
        1
    } else {
        2
    }
}

/// What a host method, given by its index in the host function table,
/// leaves as its result for a receiver and the arguments in the
/// registers after it, with the heap before and after the call
#[verifier::opaque]
pub open spec fn host_method_result(f: nat, recv: Value, stack: Seq<Value>, bp: usize, start: u16,
    h0: Alloc, x: Value, h1: Alloc) -> bool
{
    let a = Array { addr: recv.spec_heap_addr() };
    &&& 28 <= f <= 67 ==> value_method_outcome(f as u16, recv, stack, bp, start, h0, Ok(x), h1)
    &&& f == 69 ==> x == Value(crate::value::IMM_NIL) && a.valid_in(h1)
        && a.spec_items(h1) == a.spec_items(h0).push(stack[bp + start + 1])
    &&& f == 68 ==> (Array { addr: x.spec_heap_addr() }).valid_in(h1)
        && (Array { addr: x.spec_heap_addr() }).spec_items(h1)
            == Seq::new(stack[bp + start + 1].spec_to_i64(h0)->0 as nat, |k: int| stack[bp + start + 2])
    &&& f == 72 ==> x == Value(crate::value::IMM_NIL) && a.valid_in(h1)
        && a.spec_items(h1) == a.spec_items(h0).insert(stack[bp + start + 1].spec_to_i64(h0)->0, stack[bp + start + 2])
    &&& f == 73 ==> x == Value(crate::value::IMM_NIL) && a.valid_in(h1)
        && a.spec_items(h1) == a.spec_items(h0) + (Array { addr: stack[bp + start + 1].spec_heap_addr() }).spec_items(h0)
    &&& f == 74 ==> x == Value(crate::value::IMM_NIL) && a.valid_in(h1) && ({
        let n = stack[bp + start + 1].spec_to_i64(h0)->0;
        a.spec_items(h1) == if n > a.spec_items(h0).len() {
            a.spec_items(h0) + Seq::new((n - a.spec_items(h0).len()) as nat, |k: int| stack[bp + start + 2])
        } else {
            a.spec_items(h0).take(n)
        }
    })
    &&& f == 71 ==> a.valid_in(h1) && ({
        let i = stack[bp + start + 1].spec_to_i64(h0)->0;
        if 0 <= i < a.spec_items(h0).len() {
            x == a.spec_items(h0)[i] && a.spec_items(h1) == a.spec_items(h0).remove(i)
        } else {
            x == Value(crate::value::IMM_NIL) && a.spec_items(h1) == a.spec_items(h0)
        }
    })
    &&& f == 70 ==> a.valid_in(h1) && (if a.spec_items(h0).len() == 0 {
            x == Value(crate::value::IMM_NIL)
        } else {
            x == a.spec_items(h0).last() && a.spec_items(h1) == a.spec_items(h0).drop_last()
        })
    &&& f == 92 ==> x == Value(if (Dict { addr: recv.spec_heap_addr() }).spec_entries(h0)
            .contains_key(spec_str_bytes(stack[bp + start + 1], h0)) { crate::value::IMM_TRUE } else { crate::value::IMM_FALSE })
    &&& ba_method_outcome(f, recv, stack, bp, start, h0, x, h1)
}

/// `Array.remove` hands back the element it takes out: for an index
/// below the length, the result is the element that was there, the array
/// is one shorter, and putting the result back at that index gives the
/// array as it was
pub proof fn law_array_remove_returns_element(recv: Value, stack: Seq<Value>, bp: usize, start: u16,
    h0: Alloc, x: Value, h1: Alloc)
    requires
        host_method_result(71, recv, stack, bp, start, h0, x, h1),
        0 <= stack[bp + start + 1].spec_to_i64(h0)->0 < (Array { addr: recv.spec_heap_addr() }).spec_items(h0).len(),
    ensures
        ({
            let a = Array { addr: recv.spec_heap_addr() };
            let i = stack[bp + start + 1].spec_to_i64(h0)->0;
            &&& x == a.spec_items(h0)[i]
            &&& a.spec_items(h1).len() + 1 == a.spec_items(h0).len()
            &&& a.spec_items(h1).insert(i, x) == a.spec_items(h0)
        }),
{
    reveal(host_method_result);
    let a = Array { addr: recv.spec_heap_addr() };
    let i = stack[bp + start + 1].spec_to_i64(h0)->0;
    assert(a.spec_items(h1).insert(i, x) =~= a.spec_items(h0));
}

/// What a method of byte arrays, given by its index in the host function
/// table, leaves as its result and as the bytes of the receiver. Integer
/// arguments are read as they are held; `get_u32` and `set_u32` index
/// four-byte units, the others bytes, and numbers are little-endian
pub open spec fn ba_method_outcome(f: nat, recv: Value, stack: Seq<Value>, bp: usize, start: u16,
    h0: Alloc, x: Value, h1: Alloc) -> bool
{
    let b = ByteArray { addr: recv.spec_heap_addr() };
    let bs = b.spec_bytes(h0);
    let arg1 = stack[bp + start + 1].spec_to_i64(h0)->0;
    let arg2 = stack[bp + start + 2].spec_to_i64(h0)->0;
    let arg3 = stack[bp + start + 3].spec_to_i64(h0)->0;
    let arg4 = stack[bp + start + 4].spec_to_i64(h0)->0;
    &&& f == 75 ==> (ByteArray { addr: x.spec_heap_addr() }).valid_in(h1)
        && (ByteArray { addr: x.spec_heap_addr() }).spec_bytes(h1) == Seq::new(arg1 as nat, |i: int| 0u8)
    &&& (f == 76 || f == 82) ==> ({
        let pos = if f == 82 { arg1 * 4 } else { arg1 };
        x.spec_is_fixnum() && x.spec_fixnum_val() == spec_le(bs.subrange(pos, pos + 4))
    })
    &&& f == 78 ==> x.spec_is_fixnum() && x.spec_fixnum_val() == spec_le(bs.subrange(arg1, arg1 + 2))
    &&& (f == 77 || f == 79 || f == 83) ==> ({
        let pos = if f == 83 { arg1 * 4 } else { arg1 };
        let w: Seq<u8> = if f == 79 { le_bytes16(arg2 as u16) } else { le_bytes32(arg2 as u32) };
        &&& x == Value(crate::value::IMM_NIL)
        &&& b.valid_in(h1)
        &&& b.spec_len(h1) == bs.len()
        &&& forall|j: int| 0 <= j < bs.len() ==> #[trigger] b.spec_bytes(h1)[j]
            == if pos <= j < pos + w.len() { w[j - pos] } else { bs[j] }
    })
    &&& f == 87 ==> x.spec_is_fixnum() && x.spec_fixnum_val() == bs.len() / 4 && bs.len() % 4 == 0
    &&& f == 89 ==> ({
        &&& x == Value(crate::value::IMM_NIL)
        &&& b.valid_in(h1)
        &&& b.spec_len(h1) == arg1
        &&& forall|j: int| 0 <= j < bs.len() && j < arg1 ==> #[trigger] b.spec_bytes(h1)[j] == bs[j]
        &&& arg1 > b.spec_capacity(h0) ==> forall|j: int| bs.len() <= j < arg1 ==> #[trigger] b.spec_bytes(h1)[j] == 0
    })
    &&& f == 90 ==> x == Value(crate::value::IMM_NIL) && b.valid_in(h1)
        && b.spec_bytes(h1) == Seq::new(bs.len(), |i: int| 0u8)
    &&& f == 91 ==> ({
        &&& x == Value(crate::value::IMM_NIL)
        &&& b.valid_in(h1)
        &&& b.spec_len(h1) == bs.len()
        &&& forall|j: int| 0 <= j < bs.len() ==> #[trigger] b.spec_bytes(h1)[j]
            == if arg1 * 4 <= j < (arg1 + arg2) * 4 { le_bytes32(arg3 as u32)[(j - arg1 * 4) % 4] } else { bs[j] }
    })
    &&& f == 88 ==> ({
        let src = ByteArray { addr: stack[bp + start + 2].spec_heap_addr() };
        &&& x == Value(crate::value::IMM_NIL)
        &&& b.valid_in(h1)
        &&& b.spec_len(h1) == bs.len()
        &&& forall|j: int| 0 <= j < bs.len() ==> #[trigger] b.spec_bytes(h1)[j]
            == if arg1 <= j < arg1 + arg4 { src.spec_bytes(h0)[arg3 + j - arg1] } else { bs[j] }
    })
}

/// What running one instruction does, for the instructions that only
/// move values between registers, constants and globals, or jump: an
/// invalid instruction and `panic` fail; the others go on with the next
/// instruction after their one write, and a jump moves the pc by its
/// displacement
pub open spec fn step_outcome(i: Insn, a0: Actor, a1: Actor, pc0: usize, pc1: usize, bp0: usize, bp1: usize,
    r: Result<Step, String>) -> bool
{
    let op = i.spec_opcode();
    &&& !i.has_valid_opcode() ==> r is Err
    &&& i.has_valid_opcode() ==> {
        &&& op == Opcode::panic ==> r is Err
        &&& (is_int_arith(op) && op != Opcode::add_imm16 && op != Opcode::sub_imm16 && op != Opcode::mul_imm16) ==> ({
            let o = insns::add::spec_decode(i);
            let ia = bp0 + o.a;
            let ib = bp0 + o.b;
            let id = bp0 + o.dst;
            (ia < a0.stack@.len() && ib < a0.stack@.len() && id < a0.stack@.len()
                && a0.stack@[ia].spec_is_fixnum() && a0.stack@[ib].spec_is_fixnum())
            ==> match spec_arith_int(op, a0.stack@[ia].spec_fixnum_val() as i64, a0.stack@[ib].spec_fixnum_val() as i64) {
                Some(v) => (Value::spec_fits_fixnum(v) ==> r is Ok)
                    && (r is Ok ==> pc1 == pc0 + 1 && bp1 == bp0 && a1.globals == a0.globals
                        && a1.stack@ == a0.stack@.update(id, a1.stack@[id])
                        && a1.stack@[id].spec_to_i64(a1.alloc) == Some(v)),
                None => r is Err,
            }
        })
        &&& (op == Opcode::add_imm16 || op == Opcode::sub_imm16 || op == Opcode::mul_imm16) ==> ({
            let o = insns::add_imm16::spec_decode(i);
            let ia = bp0 + o.a;
            let id = bp0 + o.dst;
            (ia < a0.stack@.len() && id < a0.stack@.len() && a0.stack@[ia].spec_is_fixnum())
            ==> match spec_arith_int(op, a0.stack@[ia].spec_fixnum_val() as i64, o.imm as i64) {
                Some(v) => (Value::spec_fits_fixnum(v) ==> r is Ok)
                    && (r is Ok ==> pc1 == pc0 + 1 && bp1 == bp0 && a1.globals == a0.globals
                        && a1.stack@ == a0.stack@.update(id, a1.stack@[id])
                        && a1.stack@[id].spec_to_i64(a1.alloc) == Some(v)),
                None => r is Err,
            }
        })
        &&& (op == Opcode::jeq || op == Opcode::jne) ==> ({
            let o = insns::jeq::spec_decode(i);
            let ia = bp0 + o.a;
            let ib = bp0 + o.b;
            (ia < a0.stack@.len() && ib < a0.stack@.len()) ==> ({
                let taken = spec_values_equal(a0.stack@[ia], a0.stack@[ib], a0.alloc) == (op == Opcode::jeq);
                &&& r is Ok <==> (!taken || 0 <= pc0 + 1 + o.disp <= usize::MAX)
                &&& r is Ok ==> bp1 == bp0 && a1 == a0
                    && pc1 == (if taken { pc0 + 1 + o.disp } else { pc0 + 1 })
            })
        })
        &&& op == Opcode::call_host ==> ({
            let o = insns::call_host::spec_decode(i);
            let base = bp0 + o.start_reg;
            &&& r is Ok <==> o.host_fn < NUM_HOST_GLOBALS && o.argc == spec_global_num_params(o.host_fn as nat)
                && base < a0.stack@.len() && base + o.argc <= a0.stack@.len()
            &&& r is Ok ==> r == Ok::<Step, String>(Step::Host { host_fn: o.host_fn, base: base as usize, argc: o.argc as usize })
                && a1 == a0 && pc1 == pc0 + 1 && bp1 == bp0
        })
        &&& (op == Opcode::nop || op == Opcode::breakpoint) ==>
            r is Ok && pc1 == pc0 + 1 && bp1 == bp0 && a1 == a0
        &&& op == Opcode::load_imm32 ==> ({
            let o = insns::load_imm32::spec_decode(i);
            &&& r is Ok <==> bp0 + o.dst < a0.stack@.len()
            &&& r is Ok ==> pc1 == pc0 + 1 && bp1 == bp0 && a1.globals == a0.globals
                && a1.stack@ == a0.stack@.update(bp0 + o.dst, a1.stack@[bp0 + o.dst])
                && a1.stack@[bp0 + o.dst].bits() == (o.imm as i64) as u64
        })
        &&& op == Opcode::load_const ==> ({
            let o = insns::load_const::spec_decode(i);
            r is Ok ==> pc1 == pc0 + 1 && bp1 == bp0 && o.slot < a0.consts@.len() && a1.globals == a0.globals
                && a1.stack@ == a0.stack@.update(bp0 + o.dst, a0.consts@[o.slot as int])
        })
        &&& op == Opcode::mov ==> ({
            let o = insns::mov::spec_decode(i);
            &&& r is Ok <==> bp0 + o.dst < a0.stack@.len() && bp0 + o.src < a0.stack@.len()
            &&& r is Ok ==> pc1 == pc0 + 1 && bp1 == bp0 && a1.globals == a0.globals
                && a1.stack@ == a0.stack@.update(bp0 + o.dst, a0.stack@[bp0 + o.src])
        })
        &&& op == Opcode::get_global ==> ({
            let o = insns::get_global::spec_decode(i);
            r is Ok ==> pc1 == pc0 + 1 && bp1 == bp0 && o.idx < a0.globals@.len()
                && a0.globals@[o.idx as int] != Value(crate::value::IMM_UNDEF)
                && a1.stack@ == a0.stack@.update(bp0 + o.dst, a0.globals@[o.idx as int])
        })
        &&& op == Opcode::set_global ==> ({
            let o = insns::set_global::spec_decode(i);
            r is Ok ==> pc1 == pc0 + 1 && bp1 == bp0 && o.idx < a0.globals@.len() && bp0 + o.src < a0.stack@.len()
                && a1.globals@ == a0.globals@.update(o.idx as int, a0.stack@[bp0 + o.src]) && a1.stack == a0.stack
        })
        &&& op == Opcode::jmp ==> ({
            let o = insns::jmp::spec_decode(i);
            &&& r is Ok <==> 0 <= pc0 + 1 + o.disp <= usize::MAX
            &&& r is Ok ==> pc1 == pc0 + 1 + o.disp && bp1 == bp0 && a1 == a0
        })
        &&& op == Opcode::ret ==> ({
            let o = insns::ret::spec_decode(i);
            (bp0 + o.src < a0.stack@.len() && a0.frames@.len() == 1)
                ==> r == Ok::<Step, String>(Step::Done(a0.stack@[bp0 + o.src]))
        })
        &&& op == Opcode::ret_nil ==> (a0.frames@.len() == 1 ==> r == Ok::<Step, String>(Step::Done(Value(crate::value::IMM_NIL))))
        &&& op == Opcode::ret ==> ({
            let o = insns::ret::spec_decode(i);
            (bp0 + o.src < a0.stack@.len() && a0.frames@.len() > 1)
                ==> r == Ok::<Step, String>(Step::Next) && returned(a0, a1, bp0, pc1, bp1, a0.stack@[bp0 + o.src])
        })
        &&& op == Opcode::ret_nil ==> (a0.frames@.len() > 1 && bp0 < a0.stack@.len()
            ==> r == Ok::<Step, String>(Step::Next) && returned(a0, a1, bp0, pc1, bp1, Value(crate::value::IMM_NIL)))
        &&& op == Opcode::not ==> ({
            let o = insns::not::spec_decode(i);
            let is = bp0 + o.src;
            let id = bp0 + o.dst;
            (is < a0.stack@.len() && id < a0.stack@.len()) ==> ({
                &&& r is Ok <==> a0.stack@[is].spec_is_bool()
                &&& r is Ok ==> pc1 == pc0 + 1 && bp1 == bp0 && a1.globals == a0.globals && a1.alloc == a0.alloc
                    && a1.stack@ == a0.stack@.update(id, if a0.stack@[is] == Value(crate::value::IMM_TRUE) {
                        Value(crate::value::IMM_FALSE) } else { Value(crate::value::IMM_TRUE) })
            })
        })
        &&& op == Opcode::call_direct ==> ({
            let o = insns::call_direct::spec_decode(i);
            &&& o.fun > MAX_ID ==> r is Err
            &&& r is Ok ==> r == Ok::<Step, String>(Step::Next) && a1.globals == a0.globals && ({
                let fun_val = a1.frames@.last();
                &&& a1.frames@.len() > 0
                &&& fun_val.fun == Value((o.fun * 256 + crate::value::IMM_FUN) as u64)
                &&& fun_val.prev_bp == bp0
                &&& fun_val.ret_addr == pc0 + 1
                &&& bp1 == bp0 + o.start_reg
                &&& exists|f: FunId, c: CompiledFun| f.index() == o.fun && a1.compiled@.contains((f, c))
                    && c.num_params == o.argc && pc1 == c.entry_pc
            })
        })
        &&& op == Opcode::call_opnd ==> ({
            let o = insns::call_opnd::spec_decode(i);
            let ifn = bp0 + o.start_reg + o.argc;
            (o.start_reg + o.argc <= u16::MAX && ifn < a0.stack@.len() && !a0.stack@[ifn].spec_is_host_fn()) ==> ({
                &&& spec_fun_id_of(a0.stack@[ifn], a0.alloc) is None ==> r is Err
                &&& r is Ok ==> r == Ok::<Step, String>(Step::Next) && a1.globals == a0.globals && ({
                    let frame = a1.frames@.last();
                    &&& a1.frames@.len() > 0
                    &&& frame.fun == a0.stack@[ifn]
                    &&& frame.prev_bp == bp0
                    &&& frame.ret_addr == pc0 + 1
                    &&& bp1 == bp0 + o.start_reg
                    &&& exists|f: FunId, c: CompiledFun| spec_fun_id_of(a0.stack@[ifn], a0.alloc) == Some(f.index())
                        && a1.compiled@.contains((f, c)) && c.num_params == o.argc && pc1 == c.entry_pc
                })
            })
        })
        &&& op == Opcode::cell_get ==> ({
            let o = insns::cell_get::spec_decode(i);
            let ic = bp0 + o.cell;
            let id = bp0 + o.dst;
            let c = a0.stack@[ic];
            (ic < a0.stack@.len() && id < a0.stack@.len()) ==> ({
                &&& r is Ok <==> c.points_into(a0.alloc) && c.spec_is_ptr_id(a0.alloc, Tag::Cell)
                &&& r is Ok ==> pc1 == pc0 + 1 && bp1 == bp0 && a1.globals == a0.globals && a1.alloc == a0.alloc
                    && a1.stack@ == a0.stack@.update(id, Value(c.spec_boxed_word(a0.alloc)))
            })
        })
        &&& op == Opcode::cell_set ==> ({
            let o = insns::cell_set::spec_decode(i);
            let ic = bp0 + o.cell;
            let is = bp0 + o.src;
            let c = a0.stack@[ic];
            (ic < a0.stack@.len() && is < a0.stack@.len()) ==> ({
                &&& r is Ok <==> c.points_into(a0.alloc) && c.spec_is_ptr_id(a0.alloc, Tag::Cell)
                &&& r is Ok ==> pc1 == pc0 + 1 && bp1 == bp0 && a1.globals == a0.globals && a1.stack == a0.stack
                    && a1.alloc.words() == a0.alloc.words().update(c.spec_heap_addr() as int / 8, a0.stack@[is].bits())
            })
        })
        &&& op == Opcode::arr_new ==> ({
            let o = insns::arr_new::spec_decode(i);
            let id = bp0 + o.dst;
            r is Ok ==> pc1 == pc0 + 1 && bp1 == bp0 && a1.globals == a0.globals
                && a1.stack@ == a0.stack@.update(id, a1.stack@[id])
                && (Array { addr: a1.stack@[id].spec_heap_addr() }).valid_in(a1.alloc)
                && (Array { addr: a1.stack@[id].spec_heap_addr() }).spec_items(a1.alloc).len() == 0
        })
        &&& op == Opcode::arr_push ==> ({
            let o = insns::arr_push::spec_decode(i);
            let ia = bp0 + o.arr;
            let iv = bp0 + o.val;
            let arr = Array { addr: a0.stack@[ia].spec_heap_addr() };
            (ia < a0.stack@.len() && iv < a0.stack@.len()) ==> ({
                &&& !is_array_value(a0.stack@[ia], a0.alloc) ==> r is Err
                &&& r is Ok ==> pc1 == pc0 + 1 && bp1 == bp0 && a1.globals == a0.globals && a1.stack == a0.stack
                    && arr.valid_in(a1.alloc)
                    && arr.spec_items(a1.alloc) == arr.spec_items(a0.alloc).push(a0.stack@[iv])
            })
        })
        &&& op == Opcode::get_index ==> ({
            let o = insns::get_index::spec_decode(i);
            let ib = bp0 + o.arr;
            let ii = bp0 + o.idx;
            let id = bp0 + o.dst;
            let base = a0.stack@[ib];
            let idx = a0.stack@[ii];
            (ib < a0.stack@.len() && ii < a0.stack@.len() && id < a0.stack@.len()
                && is_array_value(base, a0.alloc)) ==> ({
                let items = (Array { addr: base.spec_heap_addr() }).spec_items(a0.alloc);
                &&& r is Ok <==> idx.points_into(a0.alloc)
                    && (idx.spec_to_i64(a0.alloc) matches Some(k) && 0 <= k < items.len())
                &&& r is Ok ==> pc1 == pc0 + 1 && bp1 == bp0 && a1.globals == a0.globals && a1.alloc == a0.alloc
                    && a1.stack@ == a0.stack@.update(id, items[idx.spec_to_i64(a0.alloc)->0])
            })
        })
        &&& op == Opcode::set_index ==> ({
            let o = insns::set_index::spec_decode(i);
            let ib = bp0 + o.arr;
            let ii = bp0 + o.idx;
            let is = bp0 + o.src;
            let base = a0.stack@[ib];
            let idx = a0.stack@[ii];
            (ib < a0.stack@.len() && ii < a0.stack@.len() && is < a0.stack@.len()
                && is_array_value(base, a0.alloc)) ==> ({
                let arr = Array { addr: base.spec_heap_addr() };
                let items = arr.spec_items(a0.alloc);
                &&& r is Ok <==> idx.points_into(a0.alloc)
                    && (idx.spec_to_i64(a0.alloc) matches Some(k) && 0 <= k < items.len())
                &&& r is Ok ==> pc1 == pc0 + 1 && bp1 == bp0 && a1.globals == a0.globals && a1.stack == a0.stack
                    && arr.valid_in(a1.alloc)
                    && arr.spec_items(a1.alloc) == items.update(idx.spec_to_i64(a0.alloc)->0, a0.stack@[is])
            })
        })
        &&& op == Opcode::instanceof ==> ({
            let o = insns::instanceof::spec_decode(i);
            let iv = bp0 + o.val;
            let id = bp0 + o.dst;
            (iv < a0.stack@.len() && id < a0.stack@.len()) ==> ({
                &&& r is Ok
                &&& pc1 == pc0 + 1 && bp1 == bp0 && a1.globals == a0.globals && a1.alloc == a0.alloc
                &&& a1.stack@ == a0.stack@.update(id,
                    if crate::heap::spec_class_id_of(a0.stack@[iv], a0.alloc) == Some(o.class_id as int) {
                        Value(crate::value::IMM_TRUE) } else { Value(crate::value::IMM_FALSE) })
            })
        })
        &&& (op == Opcode::if_true || op == Opcode::if_false) ==> ({
            let o = insns::if_true::spec_decode(i);
            let iv = bp0 + o.val;
            (iv < a0.stack@.len() && a0.stack@[iv].spec_is_bool()) ==> ({
                let taken = (a0.stack@[iv] == Value(crate::value::IMM_TRUE)) == (op == Opcode::if_true);
                &&& r is Ok <==> (!taken || 0 <= pc0 + 1 + o.disp <= usize::MAX)
                &&& r is Ok ==> bp1 == bp0 && a1 == a0
                    && pc1 == (if taken { pc0 + 1 + o.disp } else { pc0 + 1 })
            })
        })
        &&& (op == Opcode::jlt || op == Opcode::jle || op == Opcode::jgt || op == Opcode::jge) ==> ({
            let o = insns::jlt::spec_decode(i);
            let ia = bp0 + o.a;
            let ib = bp0 + o.b;
            (ia < a0.stack@.len() && ib < a0.stack@.len()
                && a0.stack@[ia].spec_is_fixnum() && a0.stack@[ib].spec_is_fixnum()) ==> ({
                let x = a0.stack@[ia].spec_fixnum_val();
                let y = a0.stack@[ib].spec_fixnum_val();
                let taken = if op == Opcode::jlt { x < y } else if op == Opcode::jle { x <= y }
                    else if op == Opcode::jgt { x > y } else { x >= y };
                &&& r is Ok <==> (!taken || 0 <= pc0 + 1 + o.disp <= usize::MAX)
                &&& r is Ok ==> bp1 == bp0 && a1 == a0
                    && pc1 == (if taken { pc0 + 1 + o.disp } else { pc0 + 1 })
            })
        })
    }
}

/// Whether a value points at a well-formed array of a heap
pub open spec fn is_array_value(v: Value, heap: Alloc) -> bool {
    &&& v.points_into(heap)
    &&& v.spec_is_heap()
    &&& v.spec_heap_tag(heap) == Tag::Array
    &&& (Array { addr: v.spec_heap_addr() }).valid_in(heap)
}

/// Whether a value points at a dictionary block of a heap
pub open spec fn is_dict_block(v: Value, heap: Alloc) -> bool {
    v.points_into(heap) && v.spec_is_heap() && v.spec_heap_tag(heap) == Tag::Dict
}

/// What a return from a nested call leaves: the callee's frame popped,
/// the value in the register the call was made from, the stack cut back
/// to the caller's height, and the caller's base and resume point
pub open spec fn returned(a0: Actor, a1: Actor, bp0: usize, pc1: usize, bp1: usize, val: Value) -> bool {
    let frame = a0.frames@.last();
    &&& a1.frames@ == a0.frames@.drop_last()
    &&& a1.globals == a0.globals
    &&& a1.alloc == a0.alloc
    &&& a1.stack@.len() == frame.prev_top
    &&& forall|k: int| 0 <= k < frame.prev_top && k < a0.stack@.len() ==>
        #[trigger] a1.stack@[k] == a0.stack@.update(bp0 as int, val)[k]
    &&& bp1 == frame.prev_bp
    &&& pc1 == frame.ret_addr
}

/// Whether the state at position `k` of a run steps to the one after
/// it, going on with the next instruction
pub open spec fn step_link(t: Seq<(Actor, usize, usize)>, k: int) -> bool {
    let (a0, pc0, bp0) = t[k];
    let (a1, pc1, bp1) = t[k + 1];
    &&& pc0 < a0.insns@.len()
    &&& step_outcome(a0.insns@[pc0 as int], a0, a1, pc0, pc1, bp0, bp1, Ok(Step::Next))
}

/// Whether a sequence of machine states, each an actor with its pc and
/// frame base, is a run: every state steps to the next by the outcome of
/// its instruction
pub open spec fn steps_to(t: Seq<(Actor, usize, usize)>) -> bool {
    forall|k: int| 0 <= k < t.len() - 1 ==> #[trigger] step_link(t, k)
}

/// Whether a machine state is the start of a call of a function value on
/// arguments: one frame, running that function, with the arguments as
/// its first registers and its base at the bottom of the stack
pub open spec fn calls_from(st: (Actor, usize, usize), fun: Value, args: Seq<Value>) -> bool {
    let (a, pc, bp) = st;
    &&& bp == 0
    &&& a.frames@.len() == 1
    &&& a.frames@[0].fun == fun
    &&& a.stack@.len() >= args.len()
    &&& a.stack@.subrange(0, args.len() as int) == args
}

/// Whether a machine state runs an instruction that ends the call with a
/// value, leaving a given actor
pub open spec fn ends_in(st: (Actor, usize, usize), a1: Actor, v: Value) -> bool {
    let (a, pc, bp) = st;
    &&& pc < a.insns@.len()
    &&& exists|pc1: usize, bp1: usize| step_outcome(a.insns@[pc as int], a, a1, pc, pc1, bp, bp1, Ok(Step::Done(v)))
}

/// Whether a machine state cannot go on: its pc is past the code, or its
/// instruction fails
pub open spec fn stops_at(st: (Actor, usize, usize)) -> bool {
    let (a, pc, bp) = st;
    pc >= a.insns@.len() || exists|a1: Actor, pc1: usize, bp1: usize, msg: String|
        step_outcome(a.insns@[pc as int], a, a1, pc, pc1, bp, bp1, Err(msg))
}

/// Whether a call cannot be set up: the actor is busy, the callee is no
/// function, or the function has no compiled entry taking that many
/// arguments yet (compiling it may still fail)
pub open spec fn call_refused(a: Actor, fun: Value, args: Seq<Value>) -> bool {
    ||| a.stack@.len() != 0 || a.frames@.len() != 0
    ||| spec_fun_id_of(fun, a.alloc) is None
    ||| (spec_fun_id_of(fun, a.alloc) matches Some(id) && forall|f: FunId| #![trigger f.index()] f.index() == id ==> (
        !a.has_compiled(f) || exists|c: CompiledFun| a.compiled@.contains((f, c)) && c.num_params != args.len()))
}

/// Whether a machine state's instruction hands a host function to the
/// host
pub open spec fn calls_host(st: (Actor, usize, usize)) -> bool {
    let (a, pc, bp) = st;
    pc < a.insns@.len() && exists|a1: Actor, pc1: usize, bp1: usize, h: u16, base: usize, n: usize|
        step_outcome(a.insns@[pc as int], a, a1, pc, pc1, bp, bp1, Ok(Step::Host { host_fn: h, base, argc: n }))
}

/// Outcome of running one instruction
pub enum Step {
    /// Go on with the next instruction
    Next,
    /// The outermost call returned a value
    Done(Value),
    /// A host function is to be called on the `argc` values of the stack
    /// from `base` on, and its result written back at `base`
    Host { host_fn: u16, base: usize, argc: usize },
}

/// Where a call that is under way stands: the next instruction, the base
/// of the current frame, and the steps it may still take
pub struct Run {
    pub pc: usize,
    pub bp: usize,
    pub fuel: u64,
}

/// What running a call comes to: its value, or a host function to call
/// before it can go on
pub enum Outcome {
    Done(Value),
    Host { host_fn: u16, base: usize, args: Vec<Value> },
}

impl Actor {
    /// Position of a register of the current frame in the stack
    fn reg_idx(&self, bp: usize, reg: u16) -> (r: Result<usize, String>)
        ensures
            r matches Ok(i) ==> i < self.stack@.len() && i == bp + reg,
            r is Ok <==> bp + reg < self.stack@.len(),
    {
        if bp > self.stack.len() || reg as usize >= self.stack.len() - bp {
            return Err("register outside of the frame".to_owned());
        }
        Ok(bp + reg as usize)
    }

    /// Read a register of the current frame
    pub fn get_reg(&self, bp: usize, reg: u16) -> (r: Result<Value, String>)
        ensures
            r matches Ok(v) ==> bp + reg < self.stack@.len() && v == self.stack@[bp + reg],
            r is Ok <==> bp + reg < self.stack@.len(),
    {
        let i = self.reg_idx(bp, reg)?;
        Ok(self.stack[i])
    }

    /// Write a register of the current frame
    pub fn set_reg(&mut self, bp: usize, reg: u16, val: Value) -> (r: Result<(), String>)
        ensures
            r is Ok <==> bp + reg < old(self).stack@.len(),
            r is Ok ==> final(self).stack@ == old(self).stack@.update(bp + reg, val),
            r is Err ==> final(self).stack == old(self).stack,
            final(self).alloc == old(self).alloc,
            final(self).insns == old(self).insns,
            final(self).frames == old(self).frames,
            final(self).globals == old(self).globals,
            final(self).compiled == old(self).compiled,
    {
        let i = self.reg_idx(bp, reg)?;
        self.stack.set(i, val);
        Ok(())
    }

    /// Make the stack a given height, filling new registers with nil
    fn resize_stack(&mut self, n: usize)
        ensures
            final(self).stack@.len() == n,
            forall|i: int| 0 <= i < n && i < old(self).stack@.len() ==> final(self).stack@[i] == old(self).stack@[i],
            final(self).alloc == old(self).alloc,
            final(self).insns == old(self).insns,
            final(self).frames == old(self).frames,
            final(self).globals == old(self).globals,
            final(self).compiled == old(self).compiled,
            final(self).consts == old(self).consts,
    {
        while self.stack.len() > n
            invariant
                self.stack@.len() <= old(self).stack@.len(),
                old(self).stack@.len() > n ==> self.stack@.len() >= n,
                old(self).stack@.len() <= n ==> self.stack@.len() == old(self).stack@.len(),
                forall|i: int| 0 <= i < self.stack@.len() ==> self.stack@[i] == old(self).stack@[i],
                self.alloc == old(self).alloc,
                self.insns == old(self).insns,
                self.frames == old(self).frames,
                self.globals == old(self).globals,
                self.compiled == old(self).compiled,
                self.consts == old(self).consts,
            decreases self.stack@.len(),
        {
            self.stack.pop();
        }
        while self.stack.len() < n
            invariant
                self.stack@.len() <= n || self.stack@.len() == n,
                self.stack@.len() < n ==> old(self).stack@.len() <= self.stack@.len(),
                forall|i: int| 0 <= i < self.stack@.len() && i < old(self).stack@.len() ==> self.stack@[i] == old(self).stack@[i],
                self.alloc == old(self).alloc,
                self.insns == old(self).insns,
                self.frames == old(self).frames,
                self.compiled == old(self).compiled,
                self.consts == old(self).consts,
                self.globals == old(self).globals,
            decreases n - self.stack@.len(),
        {
            self.stack.push(Value::NIL());
        }
    }

    /// An integer as a value: a fixnum where it fits, boxed otherwise
    pub fn int64(&mut self, v: i64) -> (r: Result<Value, String>)
        requires
            old(self).wf(),
        ensures
            final(self).wf(),
            final(self).insns == old(self).insns,
            final(self).compiled == old(self).compiled,
            final(self).globals == old(self).globals,
            final(self).stack == old(self).stack,
            final(self).frames == old(self).frames,
            r matches Ok(val) ==> val.points_into(final(self).alloc)
                && val.spec_to_i64(final(self).alloc) == Some(v as int),
            Value::spec_fits_fixnum(v as int) ==> r is Ok,
    {
        match Value::try_fixnum(v) {
            Some(val) => Ok(val),
            None => {
                if !has_room(&self.alloc, FIXED_SIZE) {
                    return Err("out of memory".to_owned());
                }
                let p = self.alloc.alloc_boxed(v as u64, Tag::Int64);
                let val = Value::int64_box(p);
                if !check_value(val, &self.alloc) {
                    return Err("out of memory".to_owned());
                }
                proof {
                    assert(val.spec_heap_addr() == p);
                    assert((v as u64) as i64 == v) by (bit_vector);
                }
                Ok(val)
            }
        }
    }

    /// Integer value of a value, if it holds one
    pub fn to_i64(&self, v: Value) -> (r: Option<i64>)
        requires
            self.wf(),
        ensures
            r is Some <==> (v.points_into(self.alloc) && v.spec_to_i64(self.alloc) is Some),
            r matches Some(i) ==> v.points_into(self.alloc) && v.spec_to_i64(self.alloc) == Some(i as int),
            v.spec_is_fixnum() ==> r == Some(v.spec_fixnum_val() as i64),
    {
        if v.is_fixnum() {
            return Some(v.as_fixnum());
        }
        if !check_value(v, &self.alloc) {
            return None;
        }
        v.to_i64(&self.alloc)
    }

    /// Language-level equality: identity for most values, contents for
    /// strings, and numeric value for integers however they are held
    #[verifier::rlimit(80)]
    #[verifier::spinoff_prover]
    pub fn values_equal(&self, a: Value, b: Value) -> (r: bool)
        requires
            self.wf(),
        ensures
            r == spec_values_equal(a, b, self.alloc),
    {
        if a.raw_bits() == b.raw_bits() {
            return true;
        }
        if a.is_fixnum() && b.is_fixnum() {
            proof { law_fixnum_words_are_unique(a, b); }
            return false;
        }

        // Bitwise equality decides every type that isn't compared by value
        if (a.raw_bits() | b.raw_bits()) & VAL_BIT == 0 {
            proof {
                let (x, y) = (a.0, b.0);
                assert((x | y) & 2 == 0 ==> (x % 4 < 2 && y % 4 < 2)) by (bit_vector);
            }
            return false;
        }

        match (str_bytes(a, &self.alloc), str_bytes(b, &self.alloc)) {
            (Some(x), Some(y)) => { return bytes_equal(&x, &y); }
            _ => {}
        }

        match (self.to_i64(a), self.to_i64(b)) {
            (Some(x), Some(y)) => x == y,
            _ => false,
        }
    }
}

/// Language-level equality of two values: the same word, two strings
/// holding the same bytes, or two integers of the same value however
/// each of them is held
pub open spec fn spec_values_equal(a: Value, b: Value, heap: Alloc) -> bool {
    ||| a == b
    ||| (a.points_into(heap) && b.points_into(heap)
        && a.spec_is_ptr_val(heap, Tag::Str) && b.spec_is_ptr_val(heap, Tag::Str)
        && spec_str_bytes(a, heap) == spec_str_bytes(b, heap))
    ||| (a.points_into(heap) && b.points_into(heap)
        && a.spec_to_i64(heap) is Some && a.spec_to_i64(heap) == b.spec_to_i64(heap))
}

/// Lexicographic order of two byte sequences: -1, 0 or 1 as the first
/// comes before, is equal to, or comes after the second
pub open spec fn spec_bytes_order(a: Seq<u8>, b: Seq<u8>) -> i8
    decreases a.len(),
{
    if a.len() == 0 || b.len() == 0 {
        if a.len() < b.len() { -1i8 } else if a.len() > b.len() { 1i8 } else { 0i8 }
    } else if a[0] < b[0] {
        -1i8
    } else if a[0] > b[0] {
        1i8
    } else {
        spec_bytes_order(a.drop_first(), b.drop_first())
    }
}

/// What adding two strings gives: a new string holding the bytes of the
/// first followed by those of the second
#[verifier::opaque]
pub open spec fn strings_concat(op: Opcode, v0: Value, v1: Value, h0: Alloc, h1: Alloc, r: Result<Value, String>) -> bool {
    (op == Opcode::add && v0.points_into(h0) && v0.spec_is_ptr_val(h0, Tag::Str)
        && v1.points_into(h0) && v1.spec_is_ptr_val(h0, Tag::Str)) ==> ({
        let bytes = spec_str_bytes(v0, h0) + spec_str_bytes(v1, h0);
        &&& (r matches Ok(x) ==> x.points_into(h1) && x.spec_is_ptr_val(h1, Tag::Str) && spec_str_bytes(x, h1) == bytes)
        &&& (r is Ok <==> bytes.len() <= crate::allocator::MAX_RAW_BYTES
            && crate::heap::room_for(h0, crate::allocator::spec_align_up(bytes.len() as int)))
    })
}

/// What comparing two strings gives: the order of their bytes, as the
/// instruction asks for it
#[verifier::opaque]
pub open spec fn strings_compare(op: Opcode, v0: Value, v1: Value, heap: Alloc, r: Result<bool, String>) -> bool {
    (v0.points_into(heap) && v0.spec_is_ptr_val(heap, Tag::Str)
        && v1.points_into(heap) && v1.spec_is_ptr_val(heap, Tag::Str)) ==> ({
        let ord = spec_bytes_order(spec_str_bytes(v0, heap), spec_str_bytes(v1, heap));
        r == Ok::<bool, String>(
            if op == Opcode::jlt { ord < 0 }
            else if op == Opcode::jle { ord <= 0 }
            else if op == Opcode::jgt { ord > 0 }
            else { ord >= 0 })
    })
}

/// Whether `x` comes before `y` in dictionary order: at the first byte
/// where they differ, `x` has the smaller one, or `x` is a proper prefix
/// of `y`
pub open spec fn lex_before(x: Seq<u8>, y: Seq<u8>) -> bool {
    ||| exists|k: int| 0 <= k < x.len() && k < y.len() && #[trigger] x.take(k) == y.take(k) && x[k] < y[k]
    ||| (x.len() < y.len() && y.take(x.len() as int) == x)
}

/// The order comparisons use on strings is dictionary order on their
/// bytes: `x` is less than `y` exactly when it comes before it, greater
/// exactly when `y` comes before `x`, and equal otherwise
pub proof fn law_string_order_is_lexicographic(x: Seq<u8>, y: Seq<u8>)
    ensures
        (spec_bytes_order(x, y) < 0) == lex_before(x, y),
        (spec_bytes_order(x, y) > 0) == lex_before(y, x),
        (spec_bytes_order(x, y) == 0) == (x == y),
    decreases x.len(),
{
    if x.len() == 0 || y.len() == 0 {
        if x.len() == 0 {
            assert(y.take(0) =~= x);
            if y.len() == 0 { assert(x =~= y); }
        }
        if y.len() == 0 {
            assert(x.take(0) =~= y);
        }
        if x.len() > 0 && y.len() == 0 { assert(x != y); }
        if x.len() == 0 && y.len() > 0 { assert(x != y); }
    } else if x[0] < y[0] {
        assert(x.take(0) =~= y.take(0));
        assert(x != y);
        assert(!lex_before(y, x)) by {
            if exists|k: int| 0 <= k < y.len() && k < x.len() && #[trigger] y.take(k) == x.take(k) && y[k] < x[k] {
                let k = choose|k: int| 0 <= k < y.len() && k < x.len() && #[trigger] y.take(k) == x.take(k) && y[k] < x[k];
                if k > 0 { assert(y.take(k)[0] == x.take(k)[0]); }
            }
            if y.len() < x.len() && x.take(y.len() as int) == y {
                assert(x.take(y.len() as int)[0] == y[0]);
            }
        }
    } else if x[0] > y[0] {
        assert(y.take(0) =~= x.take(0));
        assert(x != y);
        assert(!lex_before(x, y)) by {
            if exists|k: int| 0 <= k < x.len() && k < y.len() && #[trigger] x.take(k) == y.take(k) && x[k] < y[k] {
                let k = choose|k: int| 0 <= k < x.len() && k < y.len() && #[trigger] x.take(k) == y.take(k) && x[k] < y[k];
                if k > 0 { assert(x.take(k)[0] == y.take(k)[0]); }
            }
            if x.len() < y.len() && y.take(x.len() as int) == x {
                assert(y.take(x.len() as int)[0] == x[0]);
            }
        }
    } else {
        let x1 = x.drop_first();
        let y1 = y.drop_first();
        law_string_order_is_lexicographic(x1, y1);
        lemma_lex_step(x, y);
        lemma_lex_step(y, x);
        if x1 == y1 {
            assert(x =~= seq![x[0]] + x1);
            assert(y =~= seq![y[0]] + y1);
        }
        if x == y {
            assert(x1 =~= y1);
        }
    }
}

/// Dictionary order past an equal first byte is that of the rests
proof fn lemma_lex_step(x: Seq<u8>, y: Seq<u8>)
    requires
        x.len() > 0,
        y.len() > 0,
        x[0] == y[0],
    ensures
        lex_before(x, y) == lex_before(x.drop_first(), y.drop_first()),
{
    let x1 = x.drop_first();
    let y1 = y.drop_first();
    if exists|k: int| 0 <= k < x.len() && k < y.len() && #[trigger] x.take(k) == y.take(k) && x[k] < y[k] {
        let k = choose|k: int| 0 <= k < x.len() && k < y.len() && #[trigger] x.take(k) == y.take(k) && x[k] < y[k];
        assert(k > 0);
        assert(x1.take(k - 1) =~= x.take(k).drop_first());
        assert(y1.take(k - 1) =~= y.take(k).drop_first());
        assert(x1[k - 1] == x[k]);
        assert(lex_before(x1, y1));
    }
    if x.len() < y.len() && y.take(x.len() as int) == x {
        assert(y1.take(x1.len() as int) =~= y.take(x.len() as int).drop_first());
        assert(lex_before(x1, y1));
    }
    if exists|k: int| 0 <= k < x1.len() && k < y1.len() && #[trigger] x1.take(k) == y1.take(k) && x1[k] < y1[k] {
        let k = choose|k: int| 0 <= k < x1.len() && k < y1.len() && #[trigger] x1.take(k) == y1.take(k) && x1[k] < y1[k];
        assert(x.take(k + 1) =~= seq![x[0]] + x1.take(k));
        assert(y.take(k + 1) =~= seq![y[0]] + y1.take(k));
        assert(x[k + 1] == x1[k]);
        assert(lex_before(x, y));
    }
    if x1.len() < y1.len() && y1.take(x1.len() as int) == x1 {
        assert(y.take(x.len() as int) =~= seq![y[0]] + y1.take(x1.len() as int));
        assert(x =~= seq![x[0]] + x1);
        assert(lex_before(x, y));
    }
}

/// Whether two byte sequences are the same
pub fn bytes_equal(a: &Vec<u8>, b: &Vec<u8>) -> (r: bool)
    ensures
        r == (a@ == b@),
{
    if a.len() != b.len() {
        return false;
    }
    let mut i: usize = 0;
    while i < a.len()
        invariant
            a@.len() == b@.len(),
            i <= a@.len(),
            forall|j: int| 0 <= j < i ==> a@[j] == b@[j],
        decreases a@.len() - i,
    {
        if a[i] != b[i] {
            return false;
        }
        i = i + 1;
    }
    assert(a@ =~= b@);
    true
}

/// Order of two byte sequences, lexicographic as Rust orders strings:
/// negative, zero or positive
pub fn bytes_order(a: &Vec<u8>, b: &Vec<u8>) -> (r: i8)
    ensures
        r == spec_bytes_order(a@, b@),
{
    assert(a@.skip(0) =~= a@);
    assert(b@.skip(0) =~= b@);
    let mut i: usize = 0;
    while i < a.len() && i < b.len()
        invariant
            i <= a@.len(),
            i <= b@.len(),
            spec_bytes_order(a@, b@) == spec_bytes_order(a@.skip(i as int), b@.skip(i as int)),
        decreases a@.len() - i,
    {
        proof {
            assert(a@.skip(i as int).drop_first() =~= a@.skip(i as int + 1));
            assert(b@.skip(i as int).drop_first() =~= b@.skip(i as int + 1));
        }
        if a[i] < b[i] {
            return -1;
        }
        if a[i] > b[i] {
            return 1;
        }
        i = i + 1;
    }
    if a.len() < b.len() { -1 } else if a.len() > b.len() { 1 } else { 0 }
}


/// Function a value runs when it is called: the function itself, or the
/// one a closure was made from
pub open spec fn spec_fun_id_of(v: Value, heap: Alloc) -> Option<nat> {
    if !v.points_into(heap) {
        None
    } else if v.spec_is_ptr_id(heap, Tag::Closure) {
        Some(heap.spec_header_of(v.spec_heap_addr() as int).spec_aux24())
    } else if v.spec_is_fun() && v.spec_payload() <= MAX_ID {
        Some(v.spec_payload() as nat)
    } else {
        None
    }
}

/// A new pc, a displacement away from the instruction after a branch
fn branch_target(pc: usize, disp: i32) -> (r: Result<usize, String>)
    ensures
        r is Ok <==> 0 <= pc + disp <= usize::MAX,
        r matches Ok(t) ==> t == pc + disp,
{
    let t: i128 = pc as i128 + disp as i128;
    if t < 0 || t > usize::MAX as i128 {
        return Err("branch target out of range".to_owned());
    }
    Ok(t as usize)
}

/// Value an immediate field of an instruction stands for
fn imm_value(imm: i32) -> (r: Value)
    ensures
        r.bits() == (imm as i64) as u64,
{
    Value::from_raw_bits(imm as i64 as u64)
}

impl Actor {
    /// Entry point of a function, compiling it the first time it is
    /// needed
    pub fn get_compiled_fun(&mut self, prog: &Program, fun_id: FunId) -> (r: Result<CompiledFun, String>)
        requires
            old(self).wf(),
        ensures
            final(self).wf(),
            final(self).globals == old(self).globals,
            forall|f: FunId| old(self).has_compiled(f) ==> #[trigger] final(self).has_compiled(f),
            r matches Ok(c) ==> final(self).compiled@.contains((fun_id, c)),
            r is Ok ==> final(self).has_compiled(fun_id),
            r is Err ==> !prog.has_fun(fun_id) || !old(self).has_compiled(fun_id),
            old(self).has_compiled(fun_id) ==> (r matches Ok(c) && old(self).compiled@.contains((fun_id, c))
                && *final(self) == *old(self)),
    {
        match self.compiled_fun(fun_id) {
            Some(entry) => {
                proof {
                    let i = choose|i: int| 0 <= i < self.compiled@.len() && self.compiled@[i] == (fun_id, entry)
                        && forall|j: int| 0 <= j < i ==> (#[trigger] self.compiled@[j]).0 != fun_id;
                    assert(self.compiled@[i] == (fun_id, entry));
                    assert(self.compiled@.contains((fun_id, entry)));
                }
                return Ok(entry);
            }
            None => {
                proof {
                    assert forall|c: CompiledFun| !self.compiled@.contains((fun_id, c)) by {
                        if self.compiled@.contains((fun_id, c)) {
                            let i = choose|i: int| 0 <= i < self.compiled@.len() && self.compiled@[i] == (fun_id, c);
                            assert(self.compiled@[i].0 == fun_id);
                        }
                    }
                }
            }
        }
        let i = match prog.fun_idx(fun_id) {
            Some(i) => i,
            None => { return Err("call to an unknown function".to_owned()); }
        };
        match prog.funs[i].gen_code(self) {
            Ok(entry) => {
                let ghost before = self.compiled@;
                self.compiled.push((fun_id, entry));
                proof {
                    assert(self.compiled@[before.len() as int] == (fun_id, entry));
                    assert forall|f: FunId| old(self).has_compiled(f) implies #[trigger] self.has_compiled(f) by {
                        let c = choose|c: CompiledFun| before.contains((f, c));
                        let k = choose|k: int| 0 <= k < before.len() && before[k] == (f, c);
                        assert(self.compiled@[k] == (f, c));
                        assert(self.compiled@.contains((f, c)));
                    }
                }
                Ok(entry)
            }
            Err(e) => Err(e.msg),
        }
    }

    /// The function a value calls, directly or through a closure
    pub fn fun_id_of(&self, v: Value) -> (r: Option<FunId>)
        requires
            self.wf(),
        ensures
            match r {
                Some(f) => spec_fun_id_of(v, self.alloc) == Some(f.index()),
                None => spec_fun_id_of(v, self.alloc) is None,
            },
    {
        if !check_value(v, &self.alloc) {
            return None;
        }
        if v.is_fun() && v.payload() > MAX_ID as u64 {
            return None;
        }
        v.to_fun_id(&self.alloc)
    }

    /// Set up a new frame and jump into a callee. The callee's frame
    /// starts at the caller's `start_reg`, which is where its arguments
    /// already sit and where its return value will land
    fn push_frame(&mut self, fun_val: Value, start_reg: u16, entry: CompiledFun, pc: &mut usize, bp: &mut usize) -> (r: Result<(), String>)
        requires
            old(self).wf(),
        ensures
            final(self).wf(),
            final(self).globals == old(self).globals,
            final(self).alloc == old(self).alloc,
            final(self).insns == old(self).insns,
            final(self).compiled == old(self).compiled,
            r is Ok <==> *old(bp) + start_reg <= old(self).stack@.len()
                && *old(bp) + start_reg + entry.frame_size <= usize::MAX,
            r is Err ==> *final(self) == *old(self) && *final(pc) == *old(pc) && *final(bp) == *old(bp),
            r is Ok ==> {
                &&& final(self).frames@ == old(self).frames@.push(StackFrame {
                    fun: fun_val, prev_bp: *old(bp), prev_top: old(self).stack@.len() as usize, ret_addr: *old(pc) })
                &&& *final(bp) == *old(bp) + start_reg
                &&& *final(pc) == entry.entry_pc
                &&& final(self).stack@.len() == *old(bp) + start_reg + entry.frame_size
                &&& forall|i: int| 0 <= i < final(self).stack@.len() && i < old(self).stack@.len()
                    ==> #[trigger] final(self).stack@[i] == old(self).stack@[i]
            },
    {
        if *bp > self.stack.len() || start_reg as usize > self.stack.len() - *bp {
            return Err("call outside of the frame".to_owned());
        }
        let new_bp = *bp + start_reg as usize;
        if entry.frame_size > usize::MAX - new_bp {
            return Err("stack overflow".to_owned());
        }

        self.frames.push(StackFrame { fun: fun_val, prev_bp: *bp, prev_top: self.stack.len(), ret_addr: *pc });

        *bp = new_bp;
        *pc = entry.entry_pc;

        // Registers the callee has not written yet still hold a value
        self.resize_stack(new_bp + entry.frame_size);
        Ok(())
    }

    /// Hand a value back to the caller and drop this frame. The value goes
    /// to the callee's frame base, which is the register the caller set
    /// the call up in. The outermost return gives the value back instead
    fn do_return(&mut self, val: Value, pc: &mut usize, bp: &mut usize) -> (r: Result<Step, String>)
        requires
            old(self).wf(),
        ensures
            final(self).wf(),
            final(self).globals == old(self).globals,
            old(self).frames@.len() == 1 ==> (r matches Ok(Step::Done(v)) && v == val),
            !(r matches Ok(Step::Host { .. })),
            old(self).frames@.len() > 1 ==> (r is Ok <==> *old(bp) < old(self).stack@.len()),
            old(self).frames@.len() > 1 && r is Ok ==> returned(*old(self), *final(self), *old(bp), *final(pc), *final(bp), val)
                && r == Ok::<Step, String>(Step::Next),
    {
        // If this is a top-level return
        if self.frames.len() == 1 {
            self.stack.clear();
            self.frames.clear();
            return Ok(Step::Done(val));
        }

        let frame = match self.frames.pop() {
            Some(f) => f,
            None => { return Err("return with no frame".to_owned()); }
        };
        if *bp >= self.stack.len() {
            return Err("return outside of the frame".to_owned());
        }
        self.stack.set(*bp, val);

        // Restoring the caller's frame drops whatever the callee used
        // above it, and refills what it left short
        self.resize_stack(frame.prev_top);

        *bp = frame.prev_bp;
        *pc = frame.ret_addr;
        Ok(Step::Next)
    }

    /// Resolve a callee and check its argument count, then call it
    fn call_value(&mut self, prog: &Program, fun_val: Value, start_reg: u16, argc: u8, pc: &mut usize, bp: &mut usize) -> (r: Result<(), String>)
        requires
            old(self).wf(),
        ensures
            final(self).wf(),
            final(self).globals == old(self).globals,
            spec_fun_id_of(fun_val, old(self).alloc) is None ==> r is Err,
            r is Ok ==> (spec_fun_id_of(fun_val, old(self).alloc) matches Some(id) && {
                &&& final(self).frames@.len() > 0
                &&& final(self).frames@.last().fun == fun_val
                &&& final(self).frames@.last().prev_bp == *old(bp)
                &&& final(self).frames@.last().ret_addr == *old(pc)
                &&& *final(bp) == *old(bp) + start_reg
                &&& exists|f: FunId, c: CompiledFun| f.index() == id && final(self).compiled@.contains((f, c))
                    && c.num_params == argc && *final(pc) == c.entry_pc
            }),
    {
        let fun_id = match self.fun_id_of(fun_val) {
            Some(id) => id,
            None => { return Err("call to non-function value".to_owned()); }
        };
        let entry = self.get_compiled_fun(prog, fun_id)?;
        if argc as usize != entry.num_params {
            return Err("incorrect argument count in call to function".to_owned());
        }
        self.push_frame(fun_val, start_reg, entry, pc, bp)
    }

    /// Read a slot of an object or closure block
    fn slot_get(&self, v: Value, tag: Tag, idx: usize) -> (r: Result<Value, String>)
        requires
            self.wf(),
            tag == Tag::Object || tag == Tag::Closure,
        ensures
            r is Ok <==> is_slots_value(v, self.alloc, tag)
                && idx < self.alloc.spec_header_of(v.spec_heap_addr() as int).spec_num_slots(),
            r matches Ok(x) ==> x == slot_at(self.alloc, v.spec_heap_addr() as int, idx as int),
    {
        match slots_of(v, &self.alloc, tag) {
            Some((p, n)) => {
                if idx >= n {
                    return Err("slot index out of range".to_owned());
                }
                proof { self.alloc.lemma_wf_bounds(); }
                Ok(Value::from_raw_bits(self.alloc.read_word(p + (idx as u64) * 8)))
            }
            None => Err("expected an object or closure".to_owned()),
        }
    }

    /// Write a slot of an object or closure block
    fn slot_set(&mut self, v: Value, tag: Tag, idx: usize, val: Value) -> (r: Result<(), String>)
        requires
            old(self).wf(),
            tag == Tag::Object || tag == Tag::Closure,
        ensures
            final(self).wf(),
            final(self).globals == old(self).globals,
            final(self).stack == old(self).stack,
            final(self).frames == old(self).frames,
            final(self).insns == old(self).insns,
            final(self).compiled == old(self).compiled,
            r is Ok <==> is_slots_value(v, old(self).alloc, tag)
                && idx < old(self).alloc.spec_header_of(v.spec_heap_addr() as int).spec_num_slots(),
            r is Ok ==> final(self).alloc.words() == old(self).alloc.words().update(v.spec_heap_addr() / 8 + idx, val.0)
                && final(self).alloc.spec_bytes_used() == old(self).alloc.spec_bytes_used(),
            r is Err ==> final(self).alloc == old(self).alloc,
    {
        match slots_of(v, &self.alloc, tag) {
            Some((p, n)) => {
                if idx >= n {
                    return Err("slot index out of range".to_owned());
                }
                proof {
                    self.alloc.lemma_wf_bounds();
                    assert((p + (idx as u64) * 8) / 8 == p / 8 + idx);
                }
                self.alloc.write_word(p + (idx as u64) * 8, val.raw_bits());
                Ok(())
            }
            None => Err("expected an object or closure".to_owned()),
        }
    }

    /// Slot of a field of an object, found by the class of the object
    fn field_slot(&self, prog: &Program, obj: Value, name: &str) -> (r: Result<usize, String>)
        requires
            self.wf(),
        ensures
            r matches Ok(i) ==> exists|ci: int| 0 <= ci < prog.classes@.len()
                && spec_class_id_of(obj, self.alloc) == Some(prog.classes@[ci].id.index() as int)
                && i < prog.classes@[ci].fields@.len() && prog.classes@[ci].fields@[i as int]@ == name@,
            spec_class_id_of(obj, self.alloc) is None ==> r is Err,
            (forall|ci: int| 0 <= ci < prog.classes@.len() ==>
                spec_class_id_of(obj, self.alloc) != Some(#[trigger] prog.classes@[ci].id.index() as int)) ==> r is Err,
    {
        let class_id = match class_id_of(obj, &self.alloc) {
            Some(c) => c,
            None => { return Err("get_field on non-object value".to_owned()); }
        };
        let ci = match prog.class_idx(class_id) {
            Some(ci) => ci,
            None => { return Err("internal error: could not find class".to_owned()); }
        };
        match prog.classes[ci].field_slot(name) {
            Some(slot) => Ok(slot),
            None => Err(concat_str("class has no field ", name)),
        }
    }

    /// Read a field: an object's, or the length of a string
    fn get_field(&mut self, prog: &Program, obj: Value, cache: u32) -> (r: Result<Value, String>)
        requires
            old(self).wf(),
        ensures
            final(self).wf(),
            final(self).globals == old(self).globals,
            final(self).stack == old(self).stack,
            final(self).frames == old(self).frames,
            final(self).compiled == old(self).compiled,
            final(self).insns == old(self).insns,
            old(self).prop_names@.len() <= cache ==> r is Err,
            cache < old(self).prop_names@.len() ==> ({
                let name = old(self).prop_names@[cache as int]@;
                let h0 = old(self).alloc;
                let is_str = obj.points_into(h0) && obj.spec_is_ptr_val(h0, Tag::Str);
                let is_obj = obj.points_into(h0) && obj.spec_is_heap() && obj.spec_heap_tag(h0) == Tag::Object;
                let is_arr = obj.points_into(h0) && obj.spec_is_heap() && obj.spec_heap_tag(h0) == Tag::Array;
                &&& is_str ==> (name != "len"@ ==> r is Err)
                    && (r matches Ok(x) ==> x.spec_to_i64(final(self).alloc) == Some(spec_str_bytes(obj, h0).len() as int))
                &&& (!is_str && is_dict_block(obj, h0)) ==> (r matches Ok(x) ==>
                    exists|k: Seq<u8>| (Dict { addr: obj.spec_heap_addr() }).spec_entries(h0).contains_key(k)
                        && x == (Dict { addr: obj.spec_heap_addr() }).spec_entries(h0)[k])
                &&& (!is_str && !is_dict_block(obj, h0) && is_arr) ==> (name != "len"@ ==> r is Err)
                    && (r matches Ok(x) ==> is_array_value(obj, h0) && x.spec_to_i64(final(self).alloc)
                        == Some((Array { addr: obj.spec_heap_addr() }).spec_len(h0) as int))
                &&& (!is_str && !is_dict_block(obj, h0) && !is_arr && !is_obj) ==> r is Err
                &&& (!is_str && !is_dict_block(obj, h0) && !is_arr && is_obj) ==> (r matches Ok(x) ==>
                    x != Value(crate::value::IMM_UNDEF) && exists|ci: int, i: int| 0 <= ci < prog.classes@.len()
                        && spec_class_id_of(obj, h0) == Some(prog.classes@[ci].id.index() as int)
                        && 0 <= i < prog.classes@[ci].fields@.len() && prog.classes@[ci].fields@[i]@ == name
                        && x == slot_at(h0, obj.spec_heap_addr() as int, i))
            }),
    {
        if cache as usize >= self.prop_names.len() {
            return Err("invalid field access site".to_owned());
        }
        let name = self.prop_names[cache as usize].clone();

        match str_bytes(obj, &self.alloc) {
            Some(bytes) => {
                if crate::insns::str_eq(name.as_str(), "len") {
                    if bytes.len() > i64::MAX as usize {
                        return Err("string is too long".to_owned());
                    }
                    return self.int64(bytes.len() as i64);
                }
                return Err("field not found on string".to_owned());
            }
            None => {}
        }

        if self.is_dict_value(obj) {
            let d = self.dict_of(obj)?;
            return match d.get(&self.alloc, name.as_str().as_bytes()) {
                Some(v) => Ok(v),
                None => Err(crate::lexer::concat_msg("key '", name.as_str(), "' not found in dict")),
            };
        }

        if check_value(obj, &self.alloc) && obj.is_heap() && obj.heap_tag(&self.alloc) == Tag::Array {
            let a = self.array_of(obj)?;
            if crate::insns::str_eq(name.as_str(), "len") {
                let len = a.len(&self.alloc);
                if len > i64::MAX as u64 {
                    return Err("array is too long".to_owned());
                }
                return self.int64(len as i64);
            }
            return Err("field not found on array".to_owned());
        }

        if !check_value(obj, &self.alloc) || !obj.is_heap() || obj.heap_tag(&self.alloc) != Tag::Object {
            return Err("get_field on non-object value".to_owned());
        }
        let slot = self.field_slot(prog, obj, name.as_str())?;
        let val = self.slot_get(obj, Tag::Object, slot)?;
        if val.is_undef() {
            return Err(concat_str("object field not initialized ", name.as_str()));
        }
        Ok(val)
    }

    /// Write a field of an object
    fn set_field(&mut self, prog: &Program, obj: Value, val: Value, cache: u32) -> (r: Result<(), String>)
        requires
            old(self).wf(),
        ensures
            final(self).wf(),
            final(self).globals == old(self).globals,
            final(self).stack == old(self).stack,
            final(self).frames == old(self).frames,
            final(self).compiled == old(self).compiled,
            final(self).insns == old(self).insns,
            old(self).prop_names@.len() <= cache ==> r is Err,
            cache < old(self).prop_names@.len() ==> ({
                let name = old(self).prop_names@[cache as int]@;
                let h0 = old(self).alloc;
                let is_obj = obj.points_into(h0) && obj.spec_is_heap() && obj.spec_heap_tag(h0) == Tag::Object;
                let d = Dict { addr: obj.spec_heap_addr() };
                &&& (!is_dict_block(obj, h0) && !is_obj) ==> r is Err
                &&& is_dict_block(obj, h0) ==> (r is Ok ==> d.valid_in(h0) && d.valid_in(final(self).alloc)
                    && d.spec_entries(final(self).alloc) == d.spec_entries(h0).insert(vstd::utf8::encode_utf8(name), val))
                &&& is_obj ==> (r is Ok ==> exists|ci: int, i: int| 0 <= ci < prog.classes@.len()
                    && spec_class_id_of(obj, h0) == Some(prog.classes@[ci].id.index() as int)
                    && 0 <= i < prog.classes@[ci].fields@.len() && prog.classes@[ci].fields@[i]@ == name
                    && final(self).alloc.words() == h0.words().update(obj.spec_heap_addr() / 8 + i, val.0))
            }),
    {
        if cache as usize >= self.prop_names.len() {
            return Err("invalid field access site".to_owned());
        }
        let name = self.prop_names[cache as usize].clone();
        if self.is_dict_value(obj) {
            let d0 = self.dict_of(obj)?;
            let ghost h0 = self.alloc;
            let key = match alloc_str(&mut self.alloc, name.as_str().as_bytes()) {
                Some(k) => k,
                None => { return Err("out of memory".to_owned()); }
            };
            let ghost h1 = self.alloc;
            proof {
                h0.lemma_wf_bounds();
                assert(keeps(h0, h1, Set::empty())) by {
                    assert forall|i: int| 0 <= i < h0.spec_bytes_used() / 8 && !Set::<int>::empty().contains(i)
                        implies #[trigger] h1.words()[i] == h0.words()[i] by {}
                }
                d0.lemma_grown(h0, h1);
            }
            let res = self.dict_store(obj, key, val);
            return res;
        }
        if !check_value(obj, &self.alloc) || !obj.is_heap() || obj.heap_tag(&self.alloc) != Tag::Object {
            return Err("set_field on non-object/dict value".to_owned());
        }
        let slot = self.field_slot(prog, obj, name.as_str())?;
        self.slot_set(obj, Tag::Object, slot, val)
    }

    /// Allocate an object of a class, with its fields uninitialized
    fn alloc_obj(&mut self, prog: &Program, class_id: ClassId) -> (r: Result<Value, String>)
        requires
            old(self).wf(),
        ensures
            final(self).wf(),
            final(self).globals == old(self).globals,
            final(self).stack == old(self).stack,
            final(self).frames == old(self).frames,
            final(self).compiled == old(self).compiled,
            final(self).insns == old(self).insns,
            r is Ok <==> exists|ci: int| 0 <= ci < prog.classes@.len() && prog.classes@[ci].id == class_id
                && (forall|cj: int| 0 <= cj < ci ==> prog.classes@[cj].id != class_id)
                && prog.classes@[ci].fields@.len() <= crate::allocator::MAX_NUM_SLOTS
                && crate::heap::room_for(old(self).alloc, (prog.classes@[ci].fields@.len() * 8) as int),
            r matches Ok(v) ==> {
                &&& is_slots_value(v, final(self).alloc, Tag::Object)
                &&& final(self).alloc.spec_header_of(v.spec_heap_addr() as int).spec_aux24() == class_id.index()
                &&& forall|i: int| 0 <= i < final(self).alloc.spec_header_of(v.spec_heap_addr() as int).spec_num_slots()
                    ==> #[trigger] slot_at(final(self).alloc, v.spec_heap_addr() as int, i) == Value(crate::value::IMM_UNDEF)
            },
    {
        let ci = match prog.class_idx(class_id) {
            Some(ci) => ci,
            None => { return Err("internal error: could not find class".to_owned()); }
        };
        let num_slots = prog.classes[ci].fields.len();
        if num_slots > crate::allocator::MAX_NUM_SLOTS {
            return Err("class has too many fields".to_owned());
        }
        match alloc_slots_filled(&mut self.alloc, Tag::Object, class_id.to_usize(), num_slots, Value::UNDEF()) {
            Some(p) => {
                let v = Value::object(p);
                proof {
                    assert(v.spec_is_heap());
                    self.alloc.lemma_wf_bounds();
                }
                Ok(v)
            }
            None => Err("out of memory".to_owned()),
        }
    }

    /// Result of an arithmetic instruction on two values
    fn arith(&mut self, op: Opcode, v0: Value, v1: Value) -> (r: Result<Value, String>)
        requires
            old(self).wf(),
        ensures
            final(self).wf(),
            final(self).globals == old(self).globals,
            final(self).stack == old(self).stack,
            final(self).frames == old(self).frames,
            final(self).insns == old(self).insns,
            v0.spec_is_fixnum() && v1.spec_is_fixnum() && is_int_arith(op) ==> match spec_arith_int(op,
                v0.spec_fixnum_val() as i64, v1.spec_fixnum_val() as i64) {
                Some(v) => (r matches Ok(x) ==> x.spec_to_i64(final(self).alloc) == Some(v))
                    && (Value::spec_fits_fixnum(v) ==> r is Ok),
                None => r is Err,
            },
            strings_concat(op, v0, v1, old(self).alloc, final(self).alloc, r),
    {
        proof { reveal(strings_concat); }
        match (self.to_i64(v0), self.to_i64(v1)) {
            (Some(a), Some(b)) => {
                let res = if op == Opcode::div_int || op == Opcode::modulo {
                    int_div_rem(a, b, op == Opcode::modulo)
                } else if op == Opcode::bit_and {
                    Some(a & b)
                } else if op == Opcode::bit_or {
                    Some(a | b)
                } else if op == Opcode::bit_xor {
                    Some(a ^ b)
                } else if op == Opcode::lshift {
                    if 0 <= b && b < 64 { Some(((a as u64) << (b as u64)) as i64) } else { None }
                } else if op == Opcode::rshift {
                    if 0 <= b && b < 64 { Some(a >> (b as u64)) } else { None }
                } else {
                    int_op(op, a, b)
                };
                return match res {
                    Some(v) => self.int64(v),
                    None => Err(int_op_error(op, b)),
                };
            }
            _ => {}
        }

        // Strings concatenate
        if op == Opcode::add {
            match (str_bytes(v0, &self.alloc), str_bytes(v1, &self.alloc)) {
                (Some(mut x), Some(mut y)) => {
                    x.append(&mut y);
                    return match alloc_str(&mut self.alloc, x.as_slice()) {
                        Some(v) => Ok(v),
                        None => Err("out of memory".to_owned()),
                    };
                }
                _ => {}
            }
        }

        Err(concat_str("unsupported operand types for ", op.name()))
    }

    /// Outcome of a comparison instruction on two values
    fn compare(&self, op: Opcode, v0: Value, v1: Value) -> (r: Result<bool, String>)
        requires
            self.wf(),
        ensures
            v0.spec_is_fixnum() && v1.spec_is_fixnum() ==> r == Ok::<bool, String>(
                if op == Opcode::jlt { v0.spec_fixnum_val() < v1.spec_fixnum_val() }
                else if op == Opcode::jle { v0.spec_fixnum_val() <= v1.spec_fixnum_val() }
                else if op == Opcode::jgt { v0.spec_fixnum_val() > v1.spec_fixnum_val() }
                else { v0.spec_fixnum_val() >= v1.spec_fixnum_val() }),
            strings_compare(op, v0, v1, self.alloc, r),
    {
        proof { reveal(strings_compare); }
        let ord: i8 = match (self.to_i64(v0), self.to_i64(v1)) {
            (Some(a), Some(b)) => if a < b { -1 } else if a > b { 1 } else { 0 },
            _ => match (str_bytes(v0, &self.alloc), str_bytes(v1, &self.alloc)) {
                (Some(x), Some(y)) => bytes_order(&x, &y),
                _ => { return Err(concat_str("unsupported types in comparison ", op.name())); }
            },
        };
        Ok(if op == Opcode::jlt { ord < 0 } else if op == Opcode::jle { ord <= 0 } else if op == Opcode::jgt { ord > 0 } else { ord >= 0 })
    }
}


/// A run of zero bytes
fn zero_bytes(n: u64) -> (r: Vec<u8>)
    ensures
        r@ == Seq::new(n as nat, |i: int| 0u8),
{
    let mut out: Vec<u8> = Vec::new();
    let mut k: u64 = 0;
    while k < n
        invariant
            k <= n,
            out@ == Seq::new(k as nat, |i: int| 0u8),
        decreases n - k,
    {
        out.push(0u8);
        k = k + 1;
        assert(out@ =~= Seq::new(k as nat, |i: int| 0u8));
    }
    out
}

/// The four bytes of a number, least significant first
fn le_u32(v: u32) -> (r: Vec<u8>)
    ensures
        r@ == le_bytes32(v),
{
    let mut out: Vec<u8> = Vec::new();
    out.push((v % 256) as u8);
    out.push(((v / 256) % 256) as u8);
    out.push(((v / 65536) % 256) as u8);
    out.push((v / 16777216) as u8);
    assert(out@ =~= le_bytes32(v));
    out
}

/// The two bytes of a number, least significant first
fn le_u16(v: u16) -> (r: Vec<u8>)
    ensures
        r@ == le_bytes16(v),
{
    let mut out: Vec<u8> = Vec::new();
    out.push((v % 256) as u8);
    out.push((v / 256) as u8);
    assert(out@ =~= le_bytes16(v));
    out
}

/// The four bytes of a number repeated a number of times
fn repeat_u32(v: u32, count: u64) -> (r: Vec<u8>)
    ensures
        r@.len() == count * 4,
        forall|j: int| 0 <= j < r@.len() ==> #[trigger] r@[j] == le_bytes32(v)[j % 4],
{
    let one = le_u32(v);
    let mut out: Vec<u8> = Vec::new();
    let mut k: u64 = 0;
    while k < count
        invariant
            k <= count,
            one@ == le_bytes32(v),
            out@.len() == k * 4,
            forall|j: int| 0 <= j < out@.len() ==> #[trigger] out@[j] == le_bytes32(v)[j % 4],
        decreases count - k,
    {
        let ghost before = out@;
        out.push(one[0]);
        out.push(one[1]);
        out.push(one[2]);
        out.push(one[3]);
        proof {
            assert forall|j: int| 0 <= j < out@.len() implies #[trigger] out@[j] == le_bytes32(v)[j % 4] by {
                if j < before.len() {
                    assert(out@[j] == before[j]);
                } else {
                    assert(j - k * 4 == j % 4) by (nonlinear_arith) requires k * 4 <= j < k * 4 + 4;
                }
            }
        }
        k = k + 1;
    }
    out
}

/// A run of the bytes of a byte array
fn read_bytes(ba: ByteArray, heap: &Alloc, idx: u64, n: u64) -> (r: Vec<u8>)
    requires
        ba.valid_in(*heap),
        idx + n <= ba.spec_len(*heap),
    ensures
        r@ == ba.spec_bytes(*heap).subrange(idx as int, idx + n),
{
    let mut out: Vec<u8> = Vec::new();
    let mut k: u64 = 0;
    while k < n
        invariant
            k <= n,
            idx + n <= ba.spec_len(*heap),
            ba.valid_in(*heap),
            out@ == ba.spec_bytes(*heap).subrange(idx as int, idx + k),
        decreases n - k,
    {
        out.push(ba.get_byte(heap, idx + k));
        k = k + 1;
        assert(out@ =~= ba.spec_bytes(*heap).subrange(idx as int, idx + k));
    }
    out
}

/// Most steps an actor takes in one call before it gives up
pub const MAX_STEPS: u64 = 0xFFFF_FFFF_FFFF_FFFF;

impl Actor {
    /// The array a value points at
    fn array_of(&self, v: Value) -> (r: Result<Array, String>)
        requires
            self.wf(),
        ensures
            r matches Ok(a) ==> a.valid_in(self.alloc) && a.addr == v.spec_heap_addr(),
            r is Ok <==> is_array_value(v, self.alloc),
    {
        if !check_value(v, &self.alloc) || !v.is_heap() || v.heap_tag(&self.alloc) != Tag::Array {
            return Err("expected an array".to_owned());
        }
        match Array::at(&self.alloc, v.heap_ptr()) {
            Some(a) => Ok(a),
            None => Err("malformed array".to_owned()),
        }
    }

    /// The byte array a value points at
    fn bytearray_of(&self, v: Value) -> (r: Result<ByteArray, String>)
        requires
            self.wf(),
        ensures
            r matches Ok(a) ==> a.valid_in(self.alloc) && a.addr == v.spec_heap_addr(),
            r is Ok <==> v.points_into(self.alloc) && v.spec_is_heap()
                && v.spec_heap_tag(self.alloc) == Tag::ByteArray
                && (ByteArray { addr: v.spec_heap_addr() }).valid_in(self.alloc),
    {
        if !check_value(v, &self.alloc) || !v.is_heap() || v.heap_tag(&self.alloc) != Tag::ByteArray {
            return Err("expected a byte array".to_owned());
        }
        match ByteArray::at(&self.alloc, v.heap_ptr()) {
            Some(a) => Ok(a),
            None => Err("malformed byte array".to_owned()),
        }
    }

    /// Whether a value points at a dictionary block
    fn is_dict_value(&self, v: Value) -> (r: bool)
        requires
            self.wf(),
        ensures
            r == is_dict_block(v, self.alloc),
    {
        check_value(v, &self.alloc) && v.is_heap() && v.heap_tag(&self.alloc) == Tag::Dict
    }

    /// The dictionary a value points at
    fn dict_of(&self, v: Value) -> (r: Result<Dict, String>)
        requires
            self.wf(),
        ensures
            r matches Ok(d) ==> d.valid_in(self.alloc) && d.addr == v.spec_heap_addr(),
            r is Ok <==> is_dict_block(v, self.alloc) && (Dict { addr: v.spec_heap_addr() }).valid_in(self.alloc),
    {
        if !self.is_dict_value(v) {
            return Err("expected a dict".to_owned());
        }
        match Dict::at(&self.alloc, v.heap_ptr()) {
            Some(d) => Ok(d),
            None => Err("malformed dict".to_owned()),
        }
    }

    /// The value a dictionary holds under the bytes of a key
    fn dict_lookup(&self, d: Dict, key: &[u8]) -> (r: Result<Value, String>)
        requires
            self.wf(),
            d.valid_in(self.alloc),
        ensures
            r matches Ok(v) ==> d.spec_entries(self.alloc).contains_key(key@)
                && v == d.spec_entries(self.alloc)[key@],
            r is Err ==> !d.spec_entries(self.alloc).contains_key(key@),
    {
        match d.get(&self.alloc, key) {
            Some(v) => Ok(v),
            None => Err("key not found in dict".to_owned()),
        }
    }

    /// Store a value in a dictionary under a key string
    fn dict_store(&mut self, dv: Value, key: Value, val: Value) -> (r: Result<(), String>)
        requires
            old(self).wf(),
        ensures
            final(self).wf(),
            final(self).globals == old(self).globals,
            final(self).stack == old(self).stack,
            final(self).frames == old(self).frames,
            final(self).compiled == old(self).compiled,
            final(self).insns == old(self).insns,
            r is Ok ==> {
                let d = Dict { addr: dv.spec_heap_addr() };
                &&& d.valid_in(final(self).alloc)
                &&& d.spec_entries(final(self).alloc)
                    == d.spec_entries(old(self).alloc).insert(spec_str_bytes(key, old(self).alloc), val)
            },
            r is Err ==> final(self).alloc == old(self).alloc,
            (is_dict_block(dv, old(self).alloc) && (Dict { addr: dv.spec_heap_addr() }).valid_in(old(self).alloc)
                && (Dict { addr: dv.spec_heap_addr() }).key_apart(old(self).alloc, key)
                && !(Dict { addr: dv.spec_heap_addr() }).spec_will_grow(old(self).alloc)) ==> r is Ok,
            !(is_dict_block(dv, old(self).alloc) && (Dict { addr: dv.spec_heap_addr() }).valid_in(old(self).alloc)
                && key.points_into(old(self).alloc) && key.spec_is_ptr_val(old(self).alloc, Tag::Str)
                && (Dict { addr: dv.spec_heap_addr() }).key_apart(old(self).alloc, key)) ==> r is Err,
    {
        let d = self.dict_of(dv)?;
        if !check_value(key, &self.alloc) || !key.is_heap() || !key.is_string(&self.alloc) {
            return Err("expected string key".to_owned());
        }
        if !d.key_fits(&self.alloc, key) {
            return Err("key string overlaps the dict".to_owned());
        }
        if !d.set(&mut self.alloc, key, val) {
            return Err("out of memory".to_owned());
        }
        Ok(())
    }

    /// The value a dictionary holds under a string key
    fn dict_index_get(&self, base: Value, idx: Value) -> (r: Result<Value, String>)
        requires
            self.wf(),
        ensures
            r is Ok <==> is_dict_block(base, self.alloc) && (Dict { addr: base.spec_heap_addr() }).valid_in(self.alloc)
                && idx.points_into(self.alloc) && idx.spec_is_ptr_val(self.alloc, Tag::Str)
                && (Dict { addr: base.spec_heap_addr() }).spec_entries(self.alloc).contains_key(spec_str_bytes(idx, self.alloc)),
            r matches Ok(v) ==> v == (Dict { addr: base.spec_heap_addr() }).spec_entries(self.alloc)[spec_str_bytes(idx, self.alloc)],
    {
        let d = self.dict_of(base)?;
        let key = match str_bytes(idx, &self.alloc) {
            Some(k) => k,
            None => { return Err("expected string key".to_owned()); }
        };
        self.dict_lookup(d, key.as_slice())
    }

    /// Store a value in a dictionary under a string key
    fn dict_index_set(&mut self, base: Value, idx: Value, val: Value) -> (r: Result<(), String>)
        requires
            old(self).wf(),
        ensures
            final(self).wf(),
            final(self).globals == old(self).globals,
            final(self).stack == old(self).stack,
            final(self).frames == old(self).frames,
            final(self).compiled == old(self).compiled,
            final(self).insns == old(self).insns,
    {
        self.dict_store(base, idx, val)
    }

    /// An integer argument
    fn int_arg(&self, v: Value) -> (r: Result<i64, String>)
        requires
            self.wf(),
        ensures
            r matches Ok(i) ==> v.spec_to_i64(self.alloc) == Some(i as int),
            r is Ok <==> v.points_into(self.alloc) && v.spec_to_i64(self.alloc) is Some,
    {
        match self.to_i64(v) {
            Some(i) => Ok(i),
            None => Err("expected an integer argument".to_owned()),
        }
    }

    /// A string argument, as its bytes
    fn str_arg(&self, v: Value) -> (r: Result<Vec<u8>, String>)
        requires
            self.wf(),
        ensures
            r matches Ok(b) ==> b@ == spec_str_bytes(v, self.alloc),
            r is Ok <==> v.points_into(self.alloc) && v.spec_is_ptr_val(self.alloc, Tag::Str),
    {
        match str_bytes(v, &self.alloc) {
            Some(b) => Ok(b),
            None => Err("expected a string argument".to_owned()),
        }
    }

    /// A string value holding given bytes
    fn new_str(&mut self, bytes: &[u8]) -> (r: Result<Value, String>)
        requires
            old(self).wf(),
        ensures
            final(self).wf(),
            final(self).globals == old(self).globals,
            final(self).stack == old(self).stack,
            final(self).frames == old(self).frames,
            final(self).compiled == old(self).compiled,
            final(self).insns == old(self).insns,
            r matches Ok(v) ==> spec_str_bytes(v, final(self).alloc) == bytes@
                && v.points_into(final(self).alloc) && v.spec_is_ptr_val(final(self).alloc, Tag::Str),
            r is Ok <==> bytes@.len() <= crate::allocator::MAX_RAW_BYTES
                && crate::heap::room_for(old(self).alloc, crate::allocator::spec_align_up(bytes@.len() as int)),
            r is Err ==> final(self).alloc == old(self).alloc,
    {
        match alloc_str(&mut self.alloc, bytes) {
            Some(v) => Ok(v),
            None => Err("out of memory".to_owned()),
        }
    }

    /// A string value holding the UTF-8 encoding of a string
    fn new_string(&mut self, s: &String) -> (r: Result<Value, String>)
        requires
            old(self).wf(),
        ensures
            final(self).wf(),
            final(self).globals == old(self).globals,
            final(self).stack == old(self).stack,
            final(self).frames == old(self).frames,
            final(self).compiled == old(self).compiled,
            final(self).insns == old(self).insns,
            r is Ok <==> !(spec_utf8(s@).len() > crate::allocator::MAX_RAW_BYTES
                || !crate::heap::room_for(old(self).alloc, crate::allocator::spec_align_up(spec_utf8(s@).len() as int))),
            r matches Ok(v) ==> v.points_into(final(self).alloc) && v.spec_is_ptr_val(final(self).alloc, Tag::Str)
                && spec_str_bytes(v, final(self).alloc) == spec_utf8(s@),
    {
        match self.intern_str(s.as_str()) {
            Some(v) => Ok(v),
            None => Err("out of memory".to_owned()),
        }
    }

    /// Run a method of integers, given by its index in the host function
    /// table
    #[verifier::rlimit(60)]
    #[verifier::spinoff_prover]
    fn call_int_method(&mut self, f: u16, recv: Value, start: u16, bp: usize) -> (r: Result<Value, String>)
        requires
            old(self).wf(),
        ensures
            final(self).wf(),
            final(self).globals == old(self).globals,
            final(self).stack == old(self).stack,
            final(self).frames == old(self).frames,
            final(self).compiled == old(self).compiled,
            final(self).insns == old(self).insns,
            int_method_outcome(f, recv, old(self).stack@, bp, start, old(self).alloc, r, final(self).alloc),
    {
        let v = self.int_arg(recv)?;
        if f == 31 {
            return match methods::int64_abs(v) {
                Some(a) => self.int64(a),
                None => Err("integer overflow in abs()".to_owned()),
            };
        }
        if f == 37 {
            return self.new_string(&methods::int64_to_s(v));
        }
        if f == 38 {
            return self.new_string(&crate::utils::thousands_sep(v));
        }
        if f == 36 {
            return Err("floating-point numbers are not supported".to_owned());
        }
        let a1 = self.arg(bp, start, 1)?;
        if f == 39 {
            let digits = self.index_of(a1)?;
            if digits > self.alloc.bytes_free() || digits > usize::MAX as u64 {
                return Err("out of memory".to_owned());
            }
            let hex = methods::int64_to_hex(v, digits as usize);
            assert((digits as usize) as nat == digits as nat);
            assert(a1.spec_to_i64(self.alloc) == Some(digits as int));
            return self.new_string(&hex);
        }
        let o = self.int_arg(a1)?;
        if f == 32 {
            return self.int64(methods::int64_min(v, o));
        }
        if f == 33 {
            return self.int64(methods::int64_max(v, o));
        }
        if f == 35 {
            let q = methods::int64_idiv(v, o)?;
            return self.int64(q);
        }
        let a2 = self.arg(bp, start, 2)?;
        let hi = self.int_arg(a2)?;
        let c = methods::int64_clip(v, o, hi)?;
        return self.int64(c);
    }

    /// Run a method of booleans, nil, integers or strings, given by its
    /// index in the host function table. The receiver and the arguments
    /// sit in the frame from register `start` on.
    #[verifier::rlimit(80)]
    #[verifier::spinoff_prover]
    fn call_value_method(&mut self, f: u16, recv: Value, start: u16, bp: usize) -> (r: Result<Value, String>)
        requires
            old(self).wf(),
        ensures
            final(self).wf(),
            final(self).globals == old(self).globals,
            final(self).stack == old(self).stack,
            final(self).frames == old(self).frames,
            final(self).compiled == old(self).compiled,
            final(self).insns == old(self).insns,
            value_method_outcome(f, recv, old(self).stack@, bp, start, old(self).alloc, r, final(self).alloc),
    {
        if 40 <= f && f <= 57 {
            return Err("floating-point numbers are not supported".to_owned());
        }
        if f == 28 {
            return self.new_string(&"true".to_owned());
        }
        if f == 29 {
            return self.new_string(&"false".to_owned());
        }
        if f == 30 {
            return self.new_string(&"nil".to_owned());
        }
        if 31 <= f && f <= 39 {
            return self.call_int_method(f, recv, start, bp);
        }
        if f == 58 {
            let a1 = self.arg(bp, start, 1)?;
            let cp = self.index_of(a1)?;
            if cp > u32::MAX as u64 {
                return Err("invalid Unicode codepoint".to_owned());
            }
            return match methods::codepoint_bytes(cp as u32) {
                Some(b) => self.new_str(b.as_slice()),
                None => Err("invalid Unicode codepoint".to_owned()),
            };
        }
        if f == 62 {
            return Err("floating-point numbers are not supported".to_owned());
        }
        self.call_str_method(f, recv, start, bp)
    }

    /// Run a method of strings, given by its index in the host function
    /// table
    #[verifier::rlimit(80)]
    #[verifier::spinoff_prover]
    fn call_str_method(&mut self, f: u16, recv: Value, start: u16, bp: usize) -> (r: Result<Value, String>)
        requires
            old(self).wf(),
        ensures
            final(self).wf(),
            final(self).globals == old(self).globals,
            final(self).stack == old(self).stack,
            final(self).frames == old(self).frames,
            final(self).compiled == old(self).compiled,
            final(self).insns == old(self).insns,
            str_method_outcome(f, recv, old(self).stack@, bp, start, old(self).alloc, r, final(self).alloc),
    {
        let sb = self.str_arg(recv)?;
        if f == 67 {
            return Ok(recv);
        }
        if f == 63 {
            let t = methods::trim(sb.as_slice());
            return self.new_str(t.as_slice());
        }
        if f == 64 || f == 65 {
            let m = if f == 64 { methods::string_upper(sb.as_slice()) } else { methods::string_lower(sb.as_slice()) };
            return match m {
                Some(u) => self.new_string(&u),
                None => Err("string is not valid UTF-8".to_owned()),
            };
        }
        let a1 = self.arg(bp, start, 1)?;
        if f == 59 || f == 60 {
            let idx = self.index_of(a1)?;
            if idx > usize::MAX as u64 {
                return Err("string byte index out of bounds".to_owned());
            }
            if f == 59 {
                return match methods::byte_at(sb.as_slice(), idx as usize) {
                    Some(b) => self.int64(b as i64),
                    None => Err("string byte index out of bounds".to_owned()),
                };
            }
            return match methods::char_at(sb.as_slice(), idx as usize)? {
                Some(c) => self.new_str(c.as_slice()),
                None => Ok(Value::NIL()),
            };
        }
        if f == 61 {
            let radix = self.index_of(a1)?;
            if radix < 2 || radix > 36 {
                return Err("radix must be between 2 and 36 in parse_int()".to_owned());
            }
            return match methods::parse_int(sb.as_slice(), radix as u32) {
                Some(i) => self.int64(i),
                None => Ok(Value::NIL()),
            };
        }
        if f == 66 {
            let sep = self.str_arg(a1)?;
            let parts = methods::split(sb.as_slice(), sep.as_slice());
            let a = match Array::with_capacity(parts.len() as u64, &mut self.alloc) {
                Some(a) => a,
                None => { return Err("out of memory".to_owned()); }
            };
            let av = Value::array(a.addr);
            proof { self.alloc.lemma_wf_bounds(); }
            let mut k: usize = 0;
            while k < parts.len()
                invariant
                    self.wf(),
                    av.spec_is_heap(),
                    is_array_value(av, self.alloc),
                    self.globals == old(self).globals,
                    self.stack == old(self).stack,
                    self.frames == old(self).frames,
                    self.compiled == old(self).compiled,
                    self.insns == old(self).insns,
                decreases parts@.len() - k,
            {
                let pv = self.new_str(parts[k].as_slice())?;
                let arr = self.array_of(av)?;
                if !arr.push(&mut self.alloc, pv) {
                    return Err("out of memory".to_owned());
                }
                k = k + 1;
            }
            return Ok(av);
        }
        Err("host method not available".to_owned())
    }

    /// A non-negative integer operand, as an index or a size
    fn index_of(&self, v: Value) -> (r: Result<u64, String>)
        requires
            self.wf(),
        ensures
            r matches Ok(i) ==> v.spec_to_i64(self.alloc) == Some(i as int),
            r is Ok <==> v.points_into(self.alloc) && (v.spec_to_i64(self.alloc) matches Some(i) && i >= 0),
    {
        match self.to_i64(v) {
            Some(i) => {
                if i < 0 {
                    return Err("index must not be negative".to_owned());
                }
                Ok(i as u64)
            }
            None => Err("index must be an integer".to_owned()),
        }
    }

    /// The element of an array at an index
    fn index_get(&self, base: Value, idx: Value) -> (r: Result<Value, String>)
        requires
            self.wf(),
        ensures
            r is Ok <==> is_array_value(base, self.alloc) && idx.points_into(self.alloc)
                && (idx.spec_to_i64(self.alloc) matches Some(i)
                    && 0 <= i < (Array { addr: base.spec_heap_addr() }).spec_len(self.alloc)),
            r matches Ok(v) ==> (idx.spec_to_i64(self.alloc) matches Some(i)
                && v == (Array { addr: base.spec_heap_addr() }).spec_items(self.alloc)[i]),
    {
        let a = self.array_of(base)?;
        let i = self.index_of(idx)?;
        if i >= a.len(&self.alloc) {
            return Err("array index out of bounds".to_owned());
        }
        let v = a.get(&self.alloc, i);
        assert(v == a.spec_items(self.alloc)[i as int]);
        Ok(v)
    }

    /// Set the element of an array at an index
    fn index_set(&mut self, base: Value, idx: Value, val: Value) -> (r: Result<(), String>)
        requires
            old(self).wf(),
        ensures
            final(self).wf(),
            final(self).globals == old(self).globals,
            final(self).stack == old(self).stack,
            final(self).frames == old(self).frames,
            final(self).compiled == old(self).compiled,
            final(self).insns == old(self).insns,
            r is Ok <==> is_array_value(base, old(self).alloc) && idx.points_into(old(self).alloc)
                && (idx.spec_to_i64(old(self).alloc) matches Some(i)
                    && 0 <= i < (Array { addr: base.spec_heap_addr() }).spec_len(old(self).alloc)),
            r is Err ==> final(self).alloc == old(self).alloc,
            r is Ok ==> (idx.spec_to_i64(old(self).alloc) matches Some(i) && {
                let a = Array { addr: base.spec_heap_addr() };
                &&& a.valid_in(final(self).alloc)
                &&& a.spec_items(final(self).alloc) == a.spec_items(old(self).alloc).update(i, val)
            }),
    {
        let a = self.array_of(base)?;
        let i = self.index_of(idx)?;
        if i >= a.len(&self.alloc) {
            return Err("array index out of bounds".to_owned());
        }
        let ghost h0 = self.alloc;
        a.set(&mut self.alloc, i, val);
        proof {
            assert(a.spec_items(self.alloc) =~= a.spec_items(h0).update(i as int, val));
        }
        Ok(())
    }

    /// Argument `k` of a call whose arguments start at register `start`
    fn arg(&self, bp: usize, start: u16, k: u16) -> (r: Result<Value, String>)
        ensures
            r is Ok <==> start + k <= u16::MAX && bp + start + k < self.stack@.len(),
            r matches Ok(v) ==> v == self.stack@[bp + start + k],
    {
        if start as u32 + k as u32 > u16::MAX as u32 {
            return Err("call outside of the frame".to_owned());
        }
        self.get_reg(bp, start + k)
    }

    /// Run a method of a built-in type. The receiver and the arguments
    /// sit in the frame from register `start` on, and the result goes in
    /// `start`.
    #[verifier::rlimit(80)]
    #[verifier::spinoff_prover]
    fn call_host_method(&mut self, recv: Value, name: &str, start: u16, argc: u8, bp: usize) -> (r: Result<(), String>)
        requires
            old(self).wf(),
        ensures
            final(self).wf(),
            final(self).globals == old(self).globals,
            final(self).frames == old(self).frames,
            final(self).compiled == old(self).compiled,
            final(self).insns == old(self).insns,
            !recv.points_into(old(self).alloc) ==> r is Err,
            recv.points_into(old(self).alloc) && recv.spec_type_of(old(self).alloc) is None ==> r is Err,
            recv.points_into(old(self).alloc) && recv.spec_type_of(old(self).alloc) is Some ==> match
                crate::runtime::spec_get_method(recv, old(self).alloc, name@) {
                None => r is Err,
                Some(f) => (argc != method_num_params(f) || 40 <= f <= 57) ==> r is Err,
            },
            r is Ok ==> recv.points_into(old(self).alloc) && recv.spec_type_of(old(self).alloc) is Some
                && (crate::runtime::spec_get_method(recv, old(self).alloc, name@) matches Some(f)
                && argc == method_num_params(f)
                && bp + start < old(self).stack@.len()
                && host_method_result(f, recv, old(self).stack@, bp, start, old(self).alloc,
                    final(self).stack@[bp + start], final(self).alloc)
                && final(self).stack@ == old(self).stack@.update(bp + start, final(self).stack@[bp + start])),
    {
        proof { reveal(host_method_result); }
        if !check_value(recv, &self.alloc) {
            return Err("method call on an invalid value".to_owned());
        }
        if recv.try_type_of(&self.alloc).is_none() {
            return Err("method call on an invalid value".to_owned());
        }
        let f = match get_method(recv, &self.alloc, name) {
            Some(f) => f.to_index(),
            None => { return Err(concat_str("method not found: ", name)); }
        };
        let nargs: u8 = if f == 94 {
            8
        } else if f == 86 {
            7
        } else if f == 88 {
            5
        } else if f == 91 {
            4
        } else if f == 34 || f == 68 || f == 72 || f == 74 || f == 77 || f == 79 || f == 81
            || f == 83 || f == 85 {
            3
        } else if f == 28 || f == 29 || f == 30 || f == 31 || f == 36 || f == 37 || f == 38
            || f == 62 || f == 63 || f == 64 || f == 65 || f == 67 || f == 70 || f == 87
            || f == 90 || f == 93 {
            1
        } else {
            2
        };
        if argc != nargs {
            return Err("incorrect argument count in method call".to_owned());
        }
        let result = if 40 <= f && f <= 57 {
            return Err("floating-point numbers are not supported".to_owned());
        } else if 28 <= f && f <= 67 {
            self.call_value_method(f, recv, start, bp)?
        } else if f == 68 {
            // Array.with_size(size, fill)
            let size = self.arg(bp, start, 1)?;
            let size = self.index_of(size)?;
            let fill = self.arg(bp, start, 2)?;
            match Array::with_size(size, fill, &mut self.alloc) {
                Some(a) => Value::array(a.addr),
                None => { return Err("out of memory".to_owned()); }
            }
        } else if f == 69 {
            let a = self.array_of(recv)?;
            let v = self.arg(bp, start, 1)?;
            if !a.push(&mut self.alloc, v) {
                return Err("out of memory".to_owned());
            }
            Value::NIL()
        } else if f == 70 {
            let a = self.array_of(recv)?;
            a.pop(&mut self.alloc)
        } else if f == 71 {
            let a = self.array_of(recv)?;
            let i = self.arg(bp, start, 1)?;
            let i = self.index_of(i)?;
            a.remove(&mut self.alloc, i)
        } else if f == 72 {
            let a = self.array_of(recv)?;
            let i = self.arg(bp, start, 1)?;
            let i = self.index_of(i)?;
            let v = self.arg(bp, start, 2)?;
            if i > a.len(&self.alloc) {
                return Err("array index out of bounds".to_owned());
            }
            if !a.insert(&mut self.alloc, i, v) {
                return Err("out of memory".to_owned());
            }
            Value::NIL()
        } else if f == 73 {
            let a = self.array_of(recv)?;
            let other = self.arg(bp, start, 1)?;
            let b = self.array_of(other)?;
            if !a.disjoint_from(b, &self.alloc) {
                return Err("cannot append an array to itself".to_owned());
            }
            if !a.append(&mut self.alloc, b) {
                return Err("out of memory".to_owned());
            }
            Value::NIL()
        } else if f == 74 {
            let a = self.array_of(recv)?;
            let n = self.arg(bp, start, 1)?;
            let n = self.index_of(n)?;
            let fill = self.arg(bp, start, 2)?;
            if !a.resize(&mut self.alloc, n, fill) {
                return Err("out of memory".to_owned());
            }
            Value::NIL()
        } else if f == 75 {
            // ByteArray.with_size(num_bytes): a byte array of zeros
            let n = self.arg(bp, start, 1)?;
            let n = self.index_of(n)?;
            if n > MAX_BA_BYTES {
                return Err("byte array is too large".to_owned());
            }
            let zeros = zero_bytes(n);
            match ByteArray::from_bytes(zeros.as_slice(), &mut self.alloc) {
                Some(ba) => {
                    proof { self.alloc.lemma_wf_bounds(); }
                    let res = Value::bytearray(ba.addr);
                    assert(ba_method_outcome(f as nat, recv, old(self).stack@, bp, start, old(self).alloc, res, self.alloc));
                    res
                }
                None => { return Err("out of memory".to_owned()); }
            }
        } else if f == 76 || f == 78 || f == 82 {
            // load_u32(byte_idx), load_u16(byte_idx), get_u32(idx)
            let ba = self.bytearray_of(recv)?;
            let i = self.arg(bp, start, 1)?;
            let i = self.index_of(i)?;
            let len = ba.num_bytes(&self.alloc);
            let width: u64 = if f == 78 { 2 } else { 4 };
            if f == 82 && i > len / 4 {
                return Err("byte array index out of bounds".to_owned());
            }
            let pos: u64 = if f == 82 { i * 4 } else { i };
            if pos > len || width > len - pos {
                return Err("byte array index out of bounds".to_owned());
            }
            let v = if f == 78 { ba.read_u16_at(&self.alloc, pos) } else { ba.read_u32_at(&self.alloc, pos) };
            let res = Value::fixnum(v as i64);
            assert(ba_method_outcome(f as nat, recv, old(self).stack@, bp, start, old(self).alloc, res, self.alloc));
            res
        } else if f == 77 || f == 79 || f == 83 {
            // store_u32(byte_idx, val), store_u16(byte_idx, val), set_u32(idx, val)
            let ba = self.bytearray_of(recv)?;
            let i = self.arg(bp, start, 1)?;
            let i = self.index_of(i)?;
            let v = self.arg(bp, start, 2)?;
            let v = self.int_arg(v)?;
            if f != 79 && (v < 0 || v > 0xFFFF_FFFF) {
                return Err("expected a 32-bit unsigned integer".to_owned());
            }
            let len = ba.num_bytes(&self.alloc);
            if f == 83 && i > len / 4 {
                return Err("byte array index out of bounds".to_owned());
            }
            let pos: u64 = if f == 83 { i * 4 } else { i };
            let bytes = if f == 79 { le_u16(v as u16) } else { le_u32(v as u32) };
            if pos > len || bytes.len() as u64 > len - pos {
                return Err("byte array index out of bounds".to_owned());
            }
            ba.write_bytes_at(&mut self.alloc, pos, bytes.as_slice());
            assert(ba_method_outcome(f as nat, recv, old(self).stack@, bp, start, old(self).alloc, Value(crate::value::IMM_NIL), self.alloc));
            Value::NIL()
        } else if f == 87 {
            // num_u32()
            let ba = self.bytearray_of(recv)?;
            let len = ba.num_bytes(&self.alloc);
            if len % 4 != 0 {
                return Err("expected ByteArray size to be divisible by 4".to_owned());
            }
            let res = Value::fixnum((len / 4) as i64);
            assert(ba_method_outcome(f as nat, recv, old(self).stack@, bp, start, old(self).alloc, res, self.alloc));
            res
        } else if f == 90 {
            // zero_fill()
            let ba = self.bytearray_of(recv)?;
            let len = ba.num_bytes(&self.alloc);
            let zeros = zero_bytes(len);
            ba.write_bytes_at(&mut self.alloc, 0, zeros.as_slice());
            assert(ba.spec_bytes(self.alloc) =~= Seq::new(len as nat, |i: int| 0u8));
            assert(ba_method_outcome(f as nat, recv, old(self).stack@, bp, start, old(self).alloc, Value(crate::value::IMM_NIL), self.alloc));
            Value::NIL()
        } else if f == 91 {
            // fill_u32(start_index, count, value)
            let ba = self.bytearray_of(recv)?;
            let i = self.arg(bp, start, 1)?;
            let i = self.index_of(i)?;
            let c = self.arg(bp, start, 2)?;
            let c = self.index_of(c)?;
            let v = self.arg(bp, start, 3)?;
            let v = self.int_arg(v)?;
            if v < 0 || v > 0xFFFF_FFFF {
                return Err("expected a 32-bit unsigned integer".to_owned());
            }
            let len = ba.num_bytes(&self.alloc);
            if i > len / 4 || c > len / 4 - i {
                return Err("byte array index out of bounds".to_owned());
            }
            proof {
                assert(i * 4 + c * 4 <= len) by (nonlinear_arith) requires i <= len / 4, c <= len / 4 - i;
            }
            let bytes = repeat_u32(v as u32, c);
            ba.write_bytes_at(&mut self.alloc, i * 4, bytes.as_slice());
            assert(ba_method_outcome(f as nat, recv, old(self).stack@, bp, start, old(self).alloc, Value(crate::value::IMM_NIL), self.alloc));
            Value::NIL()
        } else if f == 88 {
            // memcpy(dst_idx, src, src_idx, num_bytes)
            let ba = self.bytearray_of(recv)?;
            let di = self.arg(bp, start, 1)?;
            let di = self.index_of(di)?;
            let src = self.arg(bp, start, 2)?;
            let src = self.bytearray_of(src)?;
            let si = self.arg(bp, start, 3)?;
            let si = self.index_of(si)?;
            let n = self.arg(bp, start, 4)?;
            let n = self.index_of(n)?;
            let src_len = src.num_bytes(&self.alloc);
            let len = ba.num_bytes(&self.alloc);
            if si > src_len || n > src_len - si || di > len || n > len - di {
                return Err("byte array index out of bounds".to_owned());
            }
            let bytes = read_bytes(src, &self.alloc, si, n);
            ba.write_bytes_at(&mut self.alloc, di, bytes.as_slice());
            assert(ba_method_outcome(f as nat, recv, old(self).stack@, bp, start, old(self).alloc, Value(crate::value::IMM_NIL), self.alloc));
            Value::NIL()
        } else if f == 89 {
            // resize(num_bytes): bytes in use kept, new ones zero when the
            // table has to grow
            let ba = self.bytearray_of(recv)?;
            let n = self.arg(bp, start, 1)?;
            let n = self.index_of(n)?;
            if n > MAX_BA_BYTES {
                return Err("byte array is too large".to_owned());
            }
            let len = ba.num_bytes(&self.alloc);
            let cap = ba.capacity(&self.alloc);
            let ghost h0 = self.alloc;
            if n > cap {
                if !ba.grow_table(&mut self.alloc, n) {
                    return Err("out of memory".to_owned());
                }
                let ghost h1 = self.alloc;
                ba.set_len(&mut self.alloc, n);
                let ghost h2 = self.alloc;
                let zeros = zero_bytes(n - len);
                ba.write_bytes_at(&mut self.alloc, len, zeros.as_slice());
                proof {
                    assert forall|j: int| 0 <= j < len implies #[trigger] ba.spec_bytes(self.alloc)[j] == ba.spec_bytes(h0)[j] by {
                        assert(ba.spec_bytes(h2)[j] == ba.spec_byte(h2, j));
                        assert(ba.spec_byte(h2, j) == ba.spec_byte(h1, j));
                        assert(ba.spec_bytes(h1)[j] == ba.spec_byte(h1, j));
                    }
                }
            } else {
                ba.set_len(&mut self.alloc, n);
                proof {
                    assert forall|j: int| 0 <= j < len && j < n implies #[trigger] ba.spec_bytes(self.alloc)[j] == ba.spec_bytes(h0)[j] by {
                        assert(ba.spec_byte(self.alloc, j) == ba.spec_byte(h0, j));
                    }
                }
            }
            Value::NIL()
        } else if f == 92 {
            let d = self.dict_of(recv)?;
            let k = self.arg(bp, start, 1)?;
            let key = match str_bytes(k, &self.alloc) {
                Some(b) => b,
                None => { return Err("expected string key".to_owned()); }
            };
            Value::bool_val(d.has(&self.alloc, key.as_slice()))
        } else {
            return Err(concat_str("host method not available: ", name));
        };
        self.set_reg(bp, start, result)
    }

    /// Run one instruction of the current function
    #[verifier::rlimit(100)]
    #[verifier::spinoff_prover]
    fn step(&mut self, prog: &Program, pc: &mut usize, bp: &mut usize) -> (r: Result<Step, String>)
        requires
            old(self).wf(),
        ensures
            final(self).wf(),
            *old(pc) >= old(self).insns@.len() ==> r is Err,
            *old(pc) < old(self).insns@.len() ==> step_outcome(old(self).insns@[*old(pc) as int], *old(self), *final(self),
                *old(pc), *final(pc), *old(bp), *final(bp), r),
            r matches Ok(Step::Host { host_fn, base, argc }) ==> host_fn < NUM_HOST_GLOBALS
                && argc == spec_global_num_params(host_fn as nat)
                && base < final(self).stack@.len() && base + argc <= final(self).stack@.len(),
    {
        if *pc >= self.insns.len() {
            return Err("execution ran past the end of the code".to_owned());
        }
        let insn = self.insns[*pc];
        if !valid_opcode(insn) {
            return Err("invalid instruction".to_owned());
        }
        *pc = *pc + 1;
        let op = insn.opcode();

        match op {
            Opcode::nop | Opcode::breakpoint => {}

            Opcode::panic => {
                let opnds = insns::panic::decode(insn);
                let _ = opnds;
                return Err("explicit panic".to_owned());
            }

            Opcode::load_imm32 => {
                let opnds = insns::load_imm32::decode(insn);
                self.set_reg(*bp, opnds.dst, imm_value(opnds.imm))?;
            }

            Opcode::load_const => {
                let opnds = insns::load_const::decode(insn);
                if opnds.slot as usize >= self.consts.len() {
                    return Err("invalid constant slot".to_owned());
                }
                let val = self.consts[opnds.slot as usize];
                self.set_reg(*bp, opnds.dst, val)?;
            }

            Opcode::mov => {
                let opnds = insns::mov::decode(insn);
                let val = self.get_reg(*bp, opnds.src)?;
                self.set_reg(*bp, opnds.dst, val)?;
            }

            Opcode::get_global => {
                let opnds = insns::get_global::decode(insn);
                let idx = opnds.idx as usize;
                if idx >= self.globals.len() {
                    return Err("invalid global index".to_owned());
                }
                let val = self.globals[idx];
                if val.is_undef() {
                    return Err("attempting to read uninitialized global".to_owned());
                }
                self.set_reg(*bp, opnds.dst, val)?;
            }

            Opcode::set_global => {
                let opnds = insns::set_global::decode(insn);
                let idx = opnds.idx as usize;
                if idx >= self.globals.len() {
                    return Err("invalid global index".to_owned());
                }
                let val = self.get_reg(*bp, opnds.src)?;
                self.globals.set(idx, val);
            }

            Opcode::add | Opcode::sub | Opcode::mul | Opcode::div_int | Opcode::modulo
            | Opcode::bit_and | Opcode::bit_or | Opcode::bit_xor | Opcode::lshift | Opcode::rshift => {
                // These all share the operand layout of add
                let opnds = insns::add::decode(insn);
                let v0 = self.get_reg(*bp, opnds.a)?;
                let v1 = self.get_reg(*bp, opnds.b)?;
                let r = self.arith(op, v0, v1)?;
                self.set_reg(*bp, opnds.dst, r)?;
            }

            Opcode::add_imm16 | Opcode::sub_imm16 | Opcode::mul_imm16 => {
                let opnds = insns::add_imm16::decode(insn);
                let v0 = self.get_reg(*bp, opnds.a)?;
                let cst = Value::fixnum(opnds.imm as i64);
                let r = self.arith(op, v0, cst)?;
                self.set_reg(*bp, opnds.dst, r)?;
            }

            Opcode::div => {
                return Err("floating-point division is not supported".to_owned());
            }

            Opcode::bit_not => {
                let opnds = insns::bit_not::decode(insn);
                let v0 = self.get_reg(*bp, opnds.src)?;
                match self.to_i64(v0) {
                    Some(v) => {
                        let r = self.int64(!v)?;
                        self.set_reg(*bp, opnds.dst, r)?;
                    }
                    None => { return Err("unsupported type in bitwise not".to_owned()); }
                }
            }

            // Logical negation
            Opcode::not => {
                let opnds = insns::not::decode(insn);
                let v0 = self.get_reg(*bp, opnds.src)?;
                match v0.to_bool() {
                    Some(b) => { self.set_reg(*bp, opnds.dst, Value::bool_val(!b))?; }
                    None => { return Err("unsupported type in logical not".to_owned()); }
                }
            }

            // Create a new closure, its slots not yet set
            Opcode::clos_new => {
                let opnds = insns::clos_new::decode(insn);
                if opnds.fun_id as usize > MAX_ID {
                    return Err("invalid function id".to_owned());
                }
                match alloc_slots_filled(&mut self.alloc, Tag::Closure, opnds.fun_id as usize, opnds.num_slots as usize, Value::UNDEF()) {
                    Some(p) => { self.set_reg(*bp, opnds.dst, Value::closure(p))?; }
                    None => { return Err("out of memory".to_owned()); }
                }
            }

            // Set a closure slot
            Opcode::clos_set => {
                let opnds = insns::clos_set::decode(insn);
                let clos = self.get_reg(*bp, opnds.clos)?;
                let val = self.get_reg(*bp, opnds.src)?;
                self.slot_set(clos, Tag::Closure, opnds.idx as usize, val)?;
            }

            // Get a closure slot of the function currently executing
            Opcode::clos_get => {
                let opnds = insns::clos_get::decode(insn);
                if self.frames.len() == 0 {
                    return Err("not a closure".to_owned());
                }
                let fun = self.frames[self.frames.len() - 1].fun;
                let val = self.slot_get(fun, Tag::Closure, opnds.idx as usize)?;
                if val.is_undef() {
                    return Err("executing uninitialized closure".to_owned());
                }
                self.set_reg(*bp, opnds.dst, val)?;
            }

            // Create a new mutable cell
            Opcode::cell_new => {
                let opnds = insns::cell_new::decode(insn);
                if !has_room(&self.alloc, FIXED_SIZE) {
                    return Err("out of memory".to_owned());
                }
                let p = self.alloc.alloc_boxed(Value::NIL().raw_bits(), Tag::Cell);
                self.set_reg(*bp, opnds.dst, Value::cell(p))?;
            }

            // Set the value stored in a mutable cell
            Opcode::cell_set => {
                let opnds = insns::cell_set::decode(insn);
                let cell = self.get_reg(*bp, opnds.cell)?;
                let val = self.get_reg(*bp, opnds.src)?;
                if !check_value(cell, &self.alloc) || !cell.is_cell(&self.alloc) {
                    return Err("expected cell".to_owned());
                }
                proof { self.alloc.lemma_wf_bounds(); }
                self.alloc.write_word(cell.heap_ptr(), val.raw_bits());
            }

            // Get the value stored in a mutable cell
            Opcode::cell_get => {
                let opnds = insns::cell_get::decode(insn);
                let cell = self.get_reg(*bp, opnds.cell)?;
                if !check_value(cell, &self.alloc) {
                    return Err("invalid cell in cell_get".to_owned());
                }
                match cell.to_cell(&self.alloc) {
                    Some(val) => { self.set_reg(*bp, opnds.dst, val)?; }
                    None => { return Err("invalid cell in cell_get".to_owned()); }
                }
            }

            Opcode::instanceof => {
                let opnds = insns::instanceof::decode(insn);
                let val = self.get_reg(*bp, opnds.val)?;
                let is = match class_id_of(val, &self.alloc) {
                    Some(c) => c.to_usize() == opnds.class_id as usize,
                    None => false,
                };
                self.set_reg(*bp, opnds.dst, Value::bool_val(is))?;
            }

            Opcode::get_field => {
                let opnds = insns::get_field::decode(insn);
                let obj = self.get_reg(*bp, opnds.obj)?;
                let val = self.get_field(prog, obj, opnds.cache)?;
                self.set_reg(*bp, opnds.dst, val)?;
            }

            Opcode::set_field => {
                let opnds = insns::set_field::decode(insn);
                let obj = self.get_reg(*bp, opnds.obj)?;
                let val = self.get_reg(*bp, opnds.src)?;
                self.set_field(prog, obj, val, opnds.cache)?;
            }

            // Create a new empty array or dictionary
            Opcode::arr_new => {
                let opnds = insns::arr_new::decode(insn);
                match Array::with_capacity(opnds.capacity as u64, &mut self.alloc) {
                    Some(a) => { self.set_reg(*bp, opnds.dst, Value::array(a.addr))?; }
                    None => { return Err("out of memory".to_owned()); }
                }
            }

            Opcode::dict_new => {
                let opnds = insns::dict_new::decode(insn);
                match Dict::with_capacity(0, &mut self.alloc) {
                    Some(d) => { self.set_reg(*bp, opnds.dst, Value::dict(d.addr))?; }
                    None => { return Err("out of memory".to_owned()); }
                }
            }

            Opcode::arr_push => {
                let opnds = insns::arr_push::decode(insn);
                let base = self.get_reg(*bp, opnds.arr)?;
                let v = self.get_reg(*bp, opnds.val)?;
                let a = self.array_of(base)?;
                if !a.push(&mut self.alloc, v) {
                    return Err("out of memory".to_owned());
                }
            }

            Opcode::get_index => {
                let opnds = insns::get_index::decode(insn);
                let base = self.get_reg(*bp, opnds.arr)?;
                let idx = self.get_reg(*bp, opnds.idx)?;
                let v = if self.is_dict_value(base) {
                    self.dict_index_get(base, idx)?
                } else {
                    self.index_get(base, idx)?
                };
                self.set_reg(*bp, opnds.dst, v)?;
            }

            Opcode::set_index => {
                let opnds = insns::set_index::decode(insn);
                let base = self.get_reg(*bp, opnds.arr)?;
                let idx = self.get_reg(*bp, opnds.idx)?;
                let v = self.get_reg(*bp, opnds.src)?;
                if self.is_dict_value(base) {
                    self.dict_index_set(base, idx, v)?;
                } else {
                    self.index_set(base, idx, v)?;
                }
            }

            // Copy a byte array, as a literal's value is each time it is
            // evaluated
            Opcode::ba_clone => {
                let opnds = insns::ba_clone::decode(insn);
                let src = self.get_reg(*bp, opnds.src)?;
                let ba = self.bytearray_of(src)?;
                match ba.clone_in(&mut self.alloc) {
                    Some(c) => {
                        proof { self.alloc.lemma_wf_bounds(); }
                        self.set_reg(*bp, opnds.dst, Value::bytearray(c.addr))?;
                    }
                    None => { return Err("out of memory".to_owned()); }
                }
            }

            // Jump if true, or if false
            Opcode::if_true | Opcode::if_false => {
                let opnds = insns::if_true::decode(insn);
                let v = self.get_reg(*bp, opnds.val)?;
                let want = op == Opcode::if_true;
                match v.to_bool() {
                    Some(b) => {
                        if b == want {
                            *pc = branch_target(*pc, opnds.disp)?;
                        }
                    }
                    None => { return Err("conditional branch only accepts boolean values".to_owned()); }
                }
            }

            Opcode::jeq | Opcode::jne => {
                let opnds = insns::jeq::decode(insn);
                let a = self.get_reg(*bp, opnds.a)?;
                let b = self.get_reg(*bp, opnds.b)?;
                let eq = self.values_equal(a, b);
                if eq == (op == Opcode::jeq) {
                    *pc = branch_target(*pc, opnds.disp)?;
                }
            }

            Opcode::jlt | Opcode::jle | Opcode::jgt | Opcode::jge => {
                let opnds = insns::jlt::decode(insn);
                let a = self.get_reg(*bp, opnds.a)?;
                let b = self.get_reg(*bp, opnds.b)?;
                if self.compare(op, a, b)? {
                    *pc = branch_target(*pc, opnds.disp)?;
                }
            }

            // Unconditional jump
            Opcode::jmp => {
                let opnds = insns::jmp::decode(insn);
                *pc = branch_target(*pc, opnds.disp)?;
            }

            // Call a function by id
            Opcode::call_direct => {
                let opnds = insns::call_direct::decode(insn);
                if opnds.fun as usize > MAX_ID {
                    return Err("invalid function id".to_owned());
                }
                let fun_val = Value::fun(FunId::new(opnds.fun as usize));
                self.call_value(prog, fun_val, opnds.start_reg, opnds.argc, pc, bp)?;
            }

            // Call a function value. The callee sits just past the arguments,
            // where this frame will overwrite it
            Opcode::call_opnd => {
                let opnds = insns::call_opnd::decode(insn);
                let fun_val = self.get_reg(*bp, (opnds.start_reg as u32 + opnds.argc as u32) as u16)?;
                // A host function value is called by the host, as
                // `call_host` is
                if fun_val.is_host_fn() {
                    let idx = fun_val.payload();
                    if idx >= NUM_HOST_GLOBALS as u64 {
                        return Err("invalid host function".to_owned());
                    }
                    if opnds.argc as usize != global_num_params(idx as usize) {
                        return Err("incorrect argument count for host function".to_owned());
                    }
                    if *bp >= self.stack.len() || opnds.start_reg as usize >= self.stack.len() - *bp {
                        return Err("host function arguments past the stack".to_owned());
                    }
                    let base = *bp + opnds.start_reg as usize;
                    if opnds.argc as usize > self.stack.len() - base {
                        return Err("host function arguments past the stack".to_owned());
                    }
                    return Ok(Step::Host { host_fn: idx as u16, base, argc: opnds.argc as usize });
                }
                self.call_value(prog, fun_val, opnds.start_reg, opnds.argc, pc, bp)?;
            }

            // Call a method. An object's comes from its class, that of a
            // built-in type from the host
            Opcode::call_method => {
                let opnds = insns::call_method::decode(insn);
                if opnds.argc == 0 || opnds.cache as usize >= self.call_names.len() {
                    return Err("invalid method call site".to_owned());
                }
                let name = self.call_names[opnds.cache as usize].clone();
                let recv = self.get_reg(*bp, opnds.start_reg)?;
                if check_value(recv, &self.alloc) && recv.is_heap() && recv.heap_tag(&self.alloc) == Tag::Object {
                    let class_id = match class_id_of(recv, &self.alloc) {
                        Some(c) => c,
                        None => { return Err("method call on an invalid object".to_owned()); }
                    };
                    let ci = match prog.class_idx(class_id) {
                        Some(ci) => ci,
                        None => { return Err("internal error: could not find class".to_owned()); }
                    };
                    match prog.classes[ci].method(name.as_str()) {
                        Some(fun_id) => {
                            self.call_value(prog, Value::fun(fun_id), opnds.start_reg, opnds.argc, pc, bp)?;
                        }
                        None => { return Err(concat_str("method not found: ", name.as_str())); }
                    }
                } else {
                    self.call_host_method(recv, name.as_str(), opnds.start_reg, opnds.argc, *bp)?;
                }
            }

            // The host performs the call: the step says which function,
            // on which registers
            Opcode::call_host => {
                let opnds = insns::call_host::decode(insn);
                if opnds.host_fn as usize >= NUM_HOST_GLOBALS {
                    return Err("invalid host function".to_owned());
                }
                if opnds.argc as usize != global_num_params(opnds.host_fn as usize) {
                    return Err("incorrect argument count for host function".to_owned());
                }
                if *bp >= self.stack.len() || opnds.start_reg as usize >= self.stack.len() - *bp {
                    return Err("host function arguments past the stack".to_owned());
                }
                let base = *bp + opnds.start_reg as usize;
                if opnds.argc as usize > self.stack.len() - base {
                    return Err("host function arguments past the stack".to_owned());
                }
                return Ok(Step::Host { host_fn: opnds.host_fn, base, argc: opnds.argc as usize });
            }

            Opcode::call_method_host | Opcode::call_pc
            | Opcode::new_known_ctor => {
                return Err(concat_str("unsupported instruction ", op.name()));
            }

            // Allocate a class instance and run its constructor
            Opcode::new => {
                let opnds = insns::new::decode(insn);
                if opnds.class_id as usize > MAX_ID {
                    return Err("invalid class id".to_owned());
                }
                let class_id = ClassId::new(opnds.class_id as usize);

                // The object is the constructor's self argument, and also
                // what the call leaves behind as its result
                let obj_val = self.alloc_obj(prog, class_id)?;
                self.set_reg(*bp, opnds.start_reg, obj_val)?;

                let ci = match prog.class_idx(class_id) {
                    Some(ci) => ci,
                    None => { return Err("internal error: could not find class".to_owned()); }
                };
                match prog.classes[ci].method("init") {
                    Some(fun_id) => {
                        self.call_value(prog, Value::fun(fun_id), opnds.start_reg, opnds.argc, pc, bp)?;
                    }
                    None => {
                        if opnds.argc != 1 {
                            return Err("class has no constructor but was given arguments".to_owned());
                        }
                    }
                }
            }

            Opcode::ret => {
                let opnds = insns::ret::decode(insn);
                let val = self.get_reg(*bp, opnds.src)?;
                return self.do_return(val, pc, bp);
            }

            Opcode::ret_nil => {
                return self.do_return(Value::NIL(), pc, bp);
            }

            Opcode::ret_imm32 => {
                let opnds = insns::ret_imm32::decode(insn);
                return self.do_return(imm_value(opnds.imm), pc, bp);
            }
        }
        Ok(Step::Next)
    }

    /// Set up a call of a function value on arguments, with the arguments
    /// as the first registers of its frame; where the call stands is
    /// handed back to be run
    pub fn start(&mut self, prog: &Program, fun: Value, args: &[Value]) -> (r: Result<Run, String>)
        requires
            old(self).wf(),
        ensures
            final(self).wf(),
            (old(self).stack@.len() != 0 || old(self).frames@.len() != 0) ==> r is Err,
            spec_fun_id_of(fun, old(self).alloc) is None ==> r is Err,
            r is Ok ==> old(self).stack@.len() == 0 && old(self).frames@.len() == 0
                && spec_fun_id_of(fun, old(self).alloc) is Some,
            r matches Ok(run) ==> run.bp == 0 && run.fuel == MAX_STEPS,
            r is Ok ==> final(self).frames@.len() == 1 && final(self).frames@[0].fun == fun
                && final(self).stack@.len() >= args@.len()
                && final(self).stack@.subrange(0, args@.len() as int) == args@,
            r is Err ==> call_refused(*old(self), fun, args@),
    {
        if self.stack.len() != 0 || self.frames.len() != 0 {
            return Err("actor is already running a call".to_owned());
        }

        let fun_id = match self.fun_id_of(fun) {
            Some(id) => id,
            None => { return Err("expected function value".to_owned()); }
        };

        proof {
            assert forall|f: FunId| #![trigger f.index()] f.index() == fun_id.index() implies f == fun_id by {
                f.lemma_index_injective(fun_id);
            }
        }
        // Get a compiled address for this function
        let ghost a0 = *self;
        let entry = match self.get_compiled_fun(prog, fun_id) {
            Ok(e) => e,
            Err(msg) => {
                proof { assert(!a0.has_compiled(fun_id)); }
                return Err(msg);
            }
        };

        if args.len() != entry.num_params {
            proof {
                if a0.has_compiled(fun_id) {
                    assert(a0.compiled@.contains((fun_id, entry)));
                }
            }
            return Err("function called with the wrong number of arguments".to_owned());
        }

        // The arguments become the first registers of the frame, which
        // compiling left empty
        self.stack.clear();
        self.frames.clear();
        let mut i: usize = 0;
        while i < args.len()
            invariant
                self.wf(),
                old(self).stack@.len() == 0,
                old(self).frames@.len() == 0,
                self.frames@.len() == 0,
                spec_fun_id_of(fun, old(self).alloc) is Some,
                i <= args@.len(),
                self.stack@ == args@.subrange(0, i as int),
            decreases args@.len() - i,
        {
            self.stack.push(args[i]);
            i = i + 1;
            assert(self.stack@ =~= args@.subrange(0, i as int));
        }
        assert(self.stack@ =~= args@);

        // Push a new stack frame
        self.frames.push(StackFrame { fun, prev_bp: usize::MAX, prev_top: 0, ret_addr: usize::MAX });

        // Every register the frame covers holds a value, so the ones past
        // the arguments start nil
        let frame_size = if entry.frame_size > args.len() { entry.frame_size } else { args.len() };
        self.resize_stack(frame_size);
        assert(self.stack@.subrange(0, args@.len() as int) =~= args@);

        // The frame of the outermost call starts at the bottom of the stack
        Ok(Run { pc: entry.entry_pc, bp: 0, fuel: MAX_STEPS })
    }

    /// Run a call that was set up, until it returns, fails, or needs a
    /// host function. A failure, or running out of steps, ends the call.
    pub fn run(&mut self, prog: &Program, run: &mut Run) -> (r: Result<Outcome, String>)
        requires
            old(self).wf(),
        ensures
            final(self).wf(),
            r is Err ==> final(self).stack@.len() == 0 && final(self).frames@.len() == 0,
            r matches Ok(Outcome::Host { host_fn, base, args }) ==> {
                &&& host_fn < NUM_HOST_GLOBALS
                &&& args@.len() == spec_global_num_params(host_fn as nat)
                &&& base + args@.len() <= final(self).stack@.len()
                &&& base < final(self).stack@.len()
                &&& args@ == final(self).stack@.subrange(base as int, base + args@.len())
            },
            r is Err ==> exists|t: Seq<(Actor, usize, usize)>| #[trigger] steps_to(t)
                && t.len() >= 1 && t[0] == (*old(self), old(run).pc, old(run).bp)
                && (stops_at(t.last()) || t.len() > old(run).fuel),
            r matches Ok(Outcome::Host { host_fn, base, args }) ==> exists|t: Seq<(Actor, usize, usize)>| #[trigger] steps_to(t)
                && t.len() >= 1 && t[0] == (*old(self), old(run).pc, old(run).bp)
                && ({
                    let (a, pc, bp) = t.last();
                    &&& pc < a.insns@.len()
                    &&& step_outcome(a.insns@[pc as int], a, *final(self), pc, final(run).pc, bp, final(run).bp,
                        Ok(Step::Host { host_fn, base, argc: args@.len() as usize }))
                }),
            r matches Ok(Outcome::Done(v)) ==> exists|t: Seq<(Actor, usize, usize)>| #[trigger] steps_to(t)
                && t.len() >= 1 && t[0] == (*old(self), old(run).pc, old(run).bp)
                && ({
                    let (a, pc, bp) = t.last();
                    &&& pc < a.insns@.len()
                    &&& step_outcome(a.insns@[pc as int], a, *final(self), pc, final(run).pc, bp, final(run).bp,
                        Ok(Step::Done(v)))
                }),
    {
        let ghost mut trace: Seq<(Actor, usize, usize)> = seq![(*self, run.pc, run.bp)];
        loop
            invariant
                self.wf(),
                trace.len() >= 1,
                trace[0] == (*old(self), old(run).pc, old(run).bp),
                trace.last() == (*self, run.pc, run.bp),
                steps_to(trace),
                trace.len() - 1 + run.fuel == old(run).fuel,
            decreases run.fuel,
        {
            if run.fuel == 0 {
                self.stack.clear();
                self.frames.clear();
                proof { assert(steps_to(trace) && trace.len() > old(run).fuel); }
                return Err("step limit reached".to_owned());
            }
            run.fuel = run.fuel - 1;
            let ghost st = (*self, run.pc, run.bp);
            match self.step(prog, &mut run.pc, &mut run.bp) {
                Ok(Step::Next) => {
                    proof {
                        let t2 = trace.push((*self, run.pc, run.bp));
                        assert forall|k: int| 0 <= k < t2.len() - 1 implies #[trigger] step_link(t2, k) by {
                            if k < trace.len() - 1 {
                                assert(step_link(trace, k));
                            }
                        }
                        trace = t2;
                    }
                }
                Ok(Step::Done(v)) => {
                    proof { assert(steps_to(trace)); }
                    return Ok(Outcome::Done(v));
                }
                Ok(Step::Host { host_fn, base, argc }) => {
                    let mut args: Vec<Value> = Vec::new();
                    let mut k: usize = 0;
                    let n = self.stack.len();
                    while k < argc
                        invariant
                            n == self.stack@.len(),
                            k <= argc,
                            base + argc <= self.stack@.len(),
                            args@ == self.stack@.subrange(base as int, base + k),
                        decreases argc - k,
                    {
                        args.push(self.stack[base + k]);
                        k = k + 1;
                        assert(args@ =~= self.stack@.subrange(base as int, base + k));
                    }
                    proof { assert(steps_to(trace)); }
                    return Ok(Outcome::Host { host_fn, base, args });
                }
                Err(msg) => {
                    proof {
                        let (a, pc, bp) = st;
                        if pc < a.insns@.len() {
                            assert(step_outcome(a.insns@[pc as int], a, *self, pc, run.pc, bp, run.bp,
                                Err::<Step, String>(msg)));
                        }
                        assert(stops_at(st));
                        assert(steps_to(trace));
                    }
                    self.stack.clear();
                    self.frames.clear();
                    return Err(msg);
                }
            }
        }
    }

    /// Hand back the result of a host function, written where its first
    /// argument was
    pub fn host_return(&mut self, base: usize, val: Value) -> (r: Result<(), String>)
        requires
            old(self).wf(),
        ensures
            final(self).wf(),
            r is Ok <==> base < old(self).stack@.len(),
            r is Ok ==> final(self).stack@ == old(self).stack@.update(base as int, val)
                && final(self).frames == old(self).frames
                && final(self).globals == old(self).globals
                && final(self).alloc == old(self).alloc,
            r is Err ==> *final(self) == *old(self),
    {
        if base >= self.stack.len() {
            return Err("host function result past the stack".to_owned());
        }
        self.stack.set(base, val);
        Ok(())
    }

    /// Call a function with arguments and run it to completion
    pub fn call(&mut self, prog: &Program, fun: Value, args: &[Value]) -> (r: Result<Value, String>)
        requires
            old(self).wf(),
        ensures
            final(self).wf(),
            (old(self).stack@.len() != 0 || old(self).frames@.len() != 0) ==> r is Err,
            spec_fun_id_of(fun, old(self).alloc) is None ==> r is Err,
            r is Ok ==> old(self).stack@.len() == 0 && old(self).frames@.len() == 0
                && spec_fun_id_of(fun, old(self).alloc) is Some,
            r matches Ok(v) ==> exists|t: Seq<(Actor, usize, usize)>| #[trigger] steps_to(t) && t.len() >= 1
                && calls_from(t[0], fun, args@) && ends_in(t.last(), *final(self), v),
            r is Err ==> call_refused(*old(self), fun, args@)
                || exists|t: Seq<(Actor, usize, usize)>| #[trigger] steps_to(t) && t.len() >= 1
                    && calls_from(t[0], fun, args@) && (stops_at(t.last()) || calls_host(t.last()) || t.len() > MAX_STEPS),
    {
        let mut run = self.start(prog, fun, args)?;
        let ghost s0 = (*self, run.pc, run.bp);
        assert(calls_from(s0, fun, args@));
        match self.run(prog, &mut run) {
            Ok(Outcome::Done(v)) => {
                proof {
                    let t = choose|t: Seq<(Actor, usize, usize)>| #[trigger] steps_to(t)
                        && t.len() >= 1 && t[0] == s0
                        && ({
                            let (a, pc, bp) = t.last();
                            &&& pc < a.insns@.len()
                            &&& step_outcome(a.insns@[pc as int], a, *self, pc, run.pc, bp, run.bp,
                                Ok(Step::Done(v)))
                        });
                    assert(ends_in(t.last(), *self, v));
                }
                Ok(v)
            }
            Ok(Outcome::Host { host_fn, base, args: host_args }) => {
                proof {
                    let t = choose|t: Seq<(Actor, usize, usize)>| #[trigger] steps_to(t)
                        && t.len() >= 1 && t[0] == s0
                        && ({
                            let (a, pc, bp) = t.last();
                            &&& pc < a.insns@.len()
                            &&& step_outcome(a.insns@[pc as int], a, *self, pc, run.pc, bp, run.bp,
                                Ok(Step::Host { host_fn, base, argc: host_args@.len() as usize }))
                        });
                    assert(calls_host(t.last()));
                }
                self.stack.clear();
                self.frames.clear();
                Err("host functions are called through the host".to_owned())
            }
            Err(msg) => {
                proof {
                    let t = choose|t: Seq<(Actor, usize, usize)>| #[trigger] steps_to(t)
                        && t.len() >= 1 && t[0] == s0 && (stops_at(t.last()) || t.len() > MAX_STEPS);
                }
                Err(msg)
            }
        }
    }
}

/// A program ready to run, with its main actor
pub struct VM {
    pub prog: Program,
    pub actor: Actor,
}

impl VM {
    pub open spec fn wf(self) -> bool {
        self.actor.wf()
    }

    /// A machine for a program, whose heap commits memory in pages of a
    /// given size
    pub fn with_page_size(prog: Program, page_size: u64) -> (r: VM)
        requires
            page_size > 0,
            page_size % 8 == 0,
            page_size <= crate::allocator::INIT_SIZE,
        ensures
            r.wf(),
            r.prog == prog,
            r.actor.globals@.len() == prog.num_globals,
    {
        let num_globals = prog.num_globals as usize;
        let actor = Actor::new(0, num_globals, page_size);
        VM { prog, actor }
    }

    /// A machine for a program
    pub fn new(prog: Program) -> (r: VM)
        ensures
            r.wf(),
            r.prog == prog,
            r.actor.globals@.len() == prog.num_globals,
    {
        VM::with_page_size(prog, DEFAULT_PAGE_SIZE)
    }

    /// Generate the code of every function of the program, to check that
    /// all of it compiles
    pub fn compile_all(vm: &mut VM) -> (r: Result<(), String>)
        requires
            old(vm).wf(),
        ensures
            final(vm).wf(),
            final(vm).prog == old(vm).prog,
            r is Ok ==> forall|i: int| 0 <= i < final(vm).prog.funs@.len() ==>
                final(vm).actor.has_compiled(#[trigger] final(vm).prog.funs@[i].id),
            (forall|i: int| 0 <= i < old(vm).prog.funs@.len() ==>
                old(vm).actor.has_compiled(#[trigger] old(vm).prog.funs@[i].id)) ==> r is Ok,
            forall|f: FunId| old(vm).actor.has_compiled(f) ==> #[trigger] final(vm).actor.has_compiled(f),
    {
        let n = vm.prog.funs.len();
        let mut i: usize = 0;
        while i < n
            invariant
                vm.wf(),
                vm.prog == old(vm).prog,
                n == vm.prog.funs@.len(),
                i <= n,
                forall|j: int| 0 <= j < i ==> vm.actor.has_compiled(#[trigger] vm.prog.funs@[j].id),
                forall|f: FunId| old(vm).actor.has_compiled(f) ==> #[trigger] vm.actor.has_compiled(f),
            decreases n - i,
        {
            let fun_id = vm.prog.funs[i].id;
            assert(vm.prog.has_fun(fun_id)) by {
                assert(vm.prog.funs@[i as int].id == fun_id);
            }
            let ghost before = vm.actor;
            vm.actor.get_compiled_fun(&vm.prog, fun_id)?;
            assert forall|j: int| 0 <= j < i + 1 implies vm.actor.has_compiled(#[trigger] vm.prog.funs@[j].id) by {
                if j < i {
                    assert(before.has_compiled(vm.prog.funs@[j].id));
                }
            }
            i = i + 1;
        }
        Ok(())
    }

    /// Call a function of the program with arguments, on the main actor
    pub fn call(vm: &mut VM, fun_id: FunId, args: Vec<Value>) -> (r: Result<Value, String>)
        requires
            old(vm).wf(),
        ensures
            final(vm).wf(),
            final(vm).prog == old(vm).prog,
            (old(vm).actor.stack@.len() != 0 || old(vm).actor.frames@.len() != 0) ==> r is Err,
            r is Ok ==> old(vm).actor.stack@.len() == 0 && old(vm).actor.frames@.len() == 0,
            r matches Ok(v) ==> exists|t: Seq<(Actor, usize, usize)>| #[trigger] steps_to(t) && t.len() >= 1
                && calls_from(t[0], Value::spec_fun(fun_id), args@) && ends_in(t.last(), final(vm).actor, v),
            r is Err ==> call_refused(old(vm).actor, Value::spec_fun(fun_id), args@)
                || exists|t: Seq<(Actor, usize, usize)>| #[trigger] steps_to(t) && t.len() >= 1
                    && calls_from(t[0], Value::spec_fun(fun_id), args@)
                    && (stops_at(t.last()) || calls_host(t.last()) || t.len() > MAX_STEPS),
    {
        vm.actor.call(&vm.prog, Value::fun(fun_id), args.as_slice())
    }
}

} // verus!
