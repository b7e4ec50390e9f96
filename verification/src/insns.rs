//! Interpreter instructions.
//!
//! Instructions are one 64-bit word. The opcode occupies the low 8 bits.
//! Operands are packed from bit 8 upwards, except the last one, which is
//! placed at the top of the word. Top-aligning the last operand makes its
//! extraction one shift instead of two, which is why signed immediates
//! are always declared last.
#![allow(non_camel_case_types)]
use vstd::prelude::*;
use vstd::string::StrSliceExecFns;

verus! {

/// Number of opcodes. Opcodes are dense from zero, and the highest stays
/// below 255 to leave that value free for a future extension mechanism.
pub const NUM_OPCODES: usize = 59;

/// The low `width` bits set
pub open spec fn field_mask(width: u64) -> u64 {
    0xFFFF_FFFF_FFFF_FFFFu64 >> ((64 - width) as u64)
}

/// Unsigned field of a word
pub open spec fn spec_bits_u(w: u64, pos: u64, width: u64) -> u64 {
    (w >> pos) & field_mask(width)
}

/// Sign-extended field at the top of a word
pub open spec fn spec_top_i(w: u64, width: u64) -> i64 {
    (w as i64) >> ((64 - width) as u64)
}

/// Whether a value fits a field of a given width
pub open spec fn spec_fits(val: i64, width: u32, signed: bool) -> bool {
    if signed {
        -(1i64 << ((width - 1) as u32)) <= val < (1i64 << ((width - 1) as u32))
    } else {
        0 <= val && (val as u64) < (1u64 << width)
    }
}

// Writing a field into a word whose field is clear reads back as the
// value, masked to the field
proof fn lemma_field_round_trip(w: u64, pos: u64, width: u64, v: u64)
    requires
        1 <= width <= 64,
        pos + width <= 64,
        spec_bits_u(w, pos, width) == 0,
    ensures
        spec_bits_u(w | ((v & field_mask(width)) << pos), pos, width) == v & field_mask(width),
{
    assert(spec_bits_u(w | ((v & field_mask(width)) << pos), pos, width) == v & field_mask(width)) by (bit_vector)
        requires
            1 <= width <= 64,
            pos + width <= 64,
            spec_bits_u(w, pos, width) == 0;
}

// Writing a field leaves every field that does not overlap it alone
proof fn lemma_field_keep(w: u64, pos: u64, width: u64, v: u64, pos2: u64, width2: u64)
    requires
        1 <= width <= 64,
        pos + width <= 64,
        1 <= width2 <= 64,
        pos2 + width2 <= 64,
        pos2 + width2 <= pos || pos + width <= pos2,
    ensures
        spec_bits_u(w | ((v & field_mask(width)) << pos), pos2, width2) == spec_bits_u(w, pos2, width2),
{
    assert(spec_bits_u(w | ((v & field_mask(width)) << pos), pos2, width2) == spec_bits_u(w, pos2, width2)) by (bit_vector)
        requires
            1 <= width <= 64,
            pos + width <= 64,
            1 <= width2 <= 64,
            pos2 + width2 <= 64,
            pos2 + width2 <= pos || pos + width <= pos2;
}

// A signed value written at the top of a word reads back sign-extended
proof fn lemma_top_signed(w: u64, width: u64, v: i64)
    requires
        width == 16 || width == 24 || width == 32,
        spec_bits_u(w, (64 - width) as u64, width) == (v as u64) & field_mask(width),
        width == 16 ==> -0x8000 <= v < 0x8000,
        width == 24 ==> -0x80_0000 <= v < 0x80_0000,
        width == 32 ==> -0x8000_0000 <= v < 0x8000_0000,
    ensures
        spec_top_i(w, width) == v,
{
    assert(spec_top_i(w, width) == v) by (bit_vector)
        requires
            width == 16 || width == 24 || width == 32,
            spec_bits_u(w, (64 - width) as u64, width) == (v as u64) & field_mask(width),
            width == 16 ==> -0x8000 <= v < 0x8000,
            width == 24 ==> -0x80_0000 <= v < 0x80_0000,
            width == 32 ==> -0x8000_0000 <= v < 0x8000_0000;
}

// The opcode byte leaves every operand field clear, and the masks of
// the widths in use, with the ranges a field read can take
proof fn lemma_fields_facts(code: u64, w: u64, pos: u64, width: u64, v: u64)
    requires
        code < 256,
        8 <= pos,
        1 <= width <= 64,
        pos + width <= 64,
    ensures
        spec_bits_u(code, pos, width) == 0,
        spec_bits_u(code, 0, 8) == code,
        spec_bits_u(w, pos, width) <= field_mask(width),
        spec_bits_u(w, 0, 8) <= 255,
        v <= field_mask(width) ==> v & field_mask(width) == v,
        field_mask(8) == 0xFF,
        field_mask(12) == 0xFFF,
        field_mask(16) == 0xFFFF,
        field_mask(20) == 0xF_FFFF,
        field_mask(24) == 0xFF_FFFF,
        field_mask(32) == 0xFFFF_FFFF,
        width == 16 ==> -0x8000 <= spec_top_i(w, width) < 0x8000,
        width == 24 ==> -0x80_0000 <= spec_top_i(w, width) < 0x80_0000,
        width == 32 ==> -0x8000_0000 <= spec_top_i(w, width) < 0x8000_0000,
{
    assert(spec_bits_u(code, pos, width) == 0 && spec_bits_u(code, 0, 8) == code
        && spec_bits_u(w, pos, width) <= field_mask(width)
        && spec_bits_u(w, 0, 8) <= 255
        && (v <= field_mask(width) ==> v & field_mask(width) == v)
        && field_mask(8) == 0xFF && field_mask(12) == 0xFFF && field_mask(16) == 0xFFFF
        && field_mask(20) == 0xF_FFFF && field_mask(24) == 0xFF_FFFF && field_mask(32) == 0xFFFF_FFFF
        && (width == 16 ==> -0x8000 <= spec_top_i(w, width) < 0x8000)
        && (width == 24 ==> -0x80_0000 <= spec_top_i(w, width) < 0x80_0000)
        && (width == 32 ==> -0x8000_0000 <= spec_top_i(w, width) < 0x8000_0000)) by (bit_vector)
        requires
            code < 256,
            8 <= pos,
            1 <= width <= 64,
            pos + width <= 64;
}

// Clearing the top of a word keeps the bits below and leaves the top
// field clear
proof fn lemma_clear_top(w: u64, width: u64)
    requires
        width == 16 || width == 24 || width == 32,
    ensures
        spec_bits_u(w & field_mask((64 - width) as u64), (64 - width) as u64, width) == 0,
        spec_bits_u(w & field_mask((64 - width) as u64), 0, (64 - width) as u64)
            == spec_bits_u(w, 0, (64 - width) as u64),
{
    assert(spec_bits_u(w & field_mask((64 - width) as u64), (64 - width) as u64, width) == 0
        && spec_bits_u(w & field_mask((64 - width) as u64), 0, (64 - width) as u64)
            == spec_bits_u(w, 0, (64 - width) as u64)) by (bit_vector)
        requires
            width == 16 || width == 24 || width == 32;
}

/// Instruction opcodes
#[derive(PartialEq, Eq, Copy, Clone, Debug, Structural)]
pub enum Opcode {
    panic,
    breakpoint,
    nop,
    load_imm32,
    mov,
    load_const,
    get_global,
    set_global,
    lshift,
    rshift,
    bit_and,
    bit_or,
    bit_xor,
    bit_not,
    add,
    sub,
    mul,
    div,
    div_int,
    modulo,
    add_imm16,
    sub_imm16,
    mul_imm16,
    not,
    clos_new,
    clos_set,
    clos_get,
    cell_new,
    cell_set,
    cell_get,
    instanceof,
    get_field,
    set_field,
    get_index,
    set_index,
    dict_new,
    arr_new,
    arr_push,
    ba_clone,
    if_true,
    if_false,
    jeq,
    jne,
    jlt,
    jle,
    jgt,
    jge,
    jmp,
    call_opnd,
    call_host,
    call_direct,
    call_pc,
    call_method,
    call_method_host,
    new,
    new_known_ctor,
    ret,
    ret_nil,
    ret_imm32,
}

/// Byte an opcode is encoded as
pub open spec fn opcode_code(op: Opcode) -> u8 {
    match op {
        Opcode::panic => 0,
        Opcode::breakpoint => 1,
        Opcode::nop => 2,
        Opcode::load_imm32 => 3,
        Opcode::mov => 4,
        Opcode::load_const => 5,
        Opcode::get_global => 6,
        Opcode::set_global => 7,
        Opcode::lshift => 8,
        Opcode::rshift => 9,
        Opcode::bit_and => 10,
        Opcode::bit_or => 11,
        Opcode::bit_xor => 12,
        Opcode::bit_not => 13,
        Opcode::add => 14,
        Opcode::sub => 15,
        Opcode::mul => 16,
        Opcode::div => 17,
        Opcode::div_int => 18,
        Opcode::modulo => 19,
        Opcode::add_imm16 => 20,
        Opcode::sub_imm16 => 21,
        Opcode::mul_imm16 => 22,
        Opcode::not => 23,
        Opcode::clos_new => 24,
        Opcode::clos_set => 25,
        Opcode::clos_get => 26,
        Opcode::cell_new => 27,
        Opcode::cell_set => 28,
        Opcode::cell_get => 29,
        Opcode::instanceof => 30,
        Opcode::get_field => 31,
        Opcode::set_field => 32,
        Opcode::get_index => 33,
        Opcode::set_index => 34,
        Opcode::dict_new => 35,
        Opcode::arr_new => 36,
        Opcode::arr_push => 37,
        Opcode::ba_clone => 38,
        Opcode::if_true => 39,
        Opcode::if_false => 40,
        Opcode::jeq => 41,
        Opcode::jne => 42,
        Opcode::jlt => 43,
        Opcode::jle => 44,
        Opcode::jgt => 45,
        Opcode::jge => 46,
        Opcode::jmp => 47,
        Opcode::call_opnd => 48,
        Opcode::call_host => 49,
        Opcode::call_direct => 50,
        Opcode::call_pc => 51,
        Opcode::call_method => 52,
        Opcode::call_method_host => 53,
        Opcode::new => 54,
        Opcode::new_known_ctor => 55,
        Opcode::ret => 56,
        Opcode::ret_nil => 57,
        Opcode::ret_imm32 => 58,
    }
}

/// Number of operands of an opcode
pub open spec fn opcode_num_opnds(op: Opcode) -> usize {
    match op {
        Opcode::panic => 3,
        Opcode::breakpoint => 0,
        Opcode::nop => 0,
        Opcode::load_imm32 => 2,
        Opcode::mov => 2,
        Opcode::load_const => 2,
        Opcode::get_global => 2,
        Opcode::set_global => 2,
        Opcode::lshift => 3,
        Opcode::rshift => 3,
        Opcode::bit_and => 3,
        Opcode::bit_or => 3,
        Opcode::bit_xor => 3,
        Opcode::bit_not => 2,
        Opcode::add => 3,
        Opcode::sub => 3,
        Opcode::mul => 3,
        Opcode::div => 3,
        Opcode::div_int => 3,
        Opcode::modulo => 3,
        Opcode::add_imm16 => 3,
        Opcode::sub_imm16 => 3,
        Opcode::mul_imm16 => 3,
        Opcode::not => 2,
        Opcode::clos_new => 3,
        Opcode::clos_set => 3,
        Opcode::clos_get => 2,
        Opcode::cell_new => 1,
        Opcode::cell_set => 2,
        Opcode::cell_get => 2,
        Opcode::instanceof => 3,
        Opcode::get_field => 3,
        Opcode::set_field => 3,
        Opcode::get_index => 3,
        Opcode::set_index => 3,
        Opcode::dict_new => 1,
        Opcode::arr_new => 2,
        Opcode::arr_push => 2,
        Opcode::ba_clone => 2,
        Opcode::if_true => 2,
        Opcode::if_false => 2,
        Opcode::jeq => 3,
        Opcode::jne => 3,
        Opcode::jlt => 3,
        Opcode::jle => 3,
        Opcode::jgt => 3,
        Opcode::jge => 3,
        Opcode::jmp => 1,
        Opcode::call_opnd => 3,
        Opcode::call_host => 3,
        Opcode::call_direct => 3,
        Opcode::call_pc => 3,
        Opcode::call_method => 3,
        Opcode::call_method_host => 4,
        Opcode::new => 3,
        Opcode::new_known_ctor => 3,
        Opcode::ret => 1,
        Opcode::ret_nil => 0,
        Opcode::ret_imm32 => 1,
    }
}

/// Number of operands an opcode writes to
pub open spec fn opcode_num_outs(op: Opcode) -> usize {
    match op {
        Opcode::panic => 0,
        Opcode::breakpoint => 0,
        Opcode::nop => 0,
        Opcode::load_imm32 => 1,
        Opcode::mov => 1,
        Opcode::load_const => 1,
        Opcode::get_global => 1,
        Opcode::set_global => 0,
        Opcode::lshift => 1,
        Opcode::rshift => 1,
        Opcode::bit_and => 1,
        Opcode::bit_or => 1,
        Opcode::bit_xor => 1,
        Opcode::bit_not => 1,
        Opcode::add => 1,
        Opcode::sub => 1,
        Opcode::mul => 1,
        Opcode::div => 1,
        Opcode::div_int => 1,
        Opcode::modulo => 1,
        Opcode::add_imm16 => 1,
        Opcode::sub_imm16 => 1,
        Opcode::mul_imm16 => 1,
        Opcode::not => 1,
        Opcode::clos_new => 1,
        Opcode::clos_set => 0,
        Opcode::clos_get => 1,
        Opcode::cell_new => 1,
        Opcode::cell_set => 0,
        Opcode::cell_get => 1,
        Opcode::instanceof => 1,
        Opcode::get_field => 1,
        Opcode::set_field => 0,
        Opcode::get_index => 1,
        Opcode::set_index => 0,
        Opcode::dict_new => 1,
        Opcode::arr_new => 1,
        Opcode::arr_push => 0,
        Opcode::ba_clone => 1,
        Opcode::if_true => 0,
        Opcode::if_false => 0,
        Opcode::jeq => 0,
        Opcode::jne => 0,
        Opcode::jlt => 0,
        Opcode::jle => 0,
        Opcode::jgt => 0,
        Opcode::jge => 0,
        Opcode::jmp => 0,
        Opcode::call_opnd => 0,
        Opcode::call_host => 0,
        Opcode::call_direct => 0,
        Opcode::call_pc => 0,
        Opcode::call_method => 0,
        Opcode::call_method_host => 0,
        Opcode::new => 0,
        Opcode::new_known_ctor => 0,
        Opcode::ret => 0,
        Opcode::ret_nil => 0,
        Opcode::ret_imm32 => 0,
    }
}

/// Name of an opcode
pub open spec fn opcode_name(op: Opcode) -> Seq<char> {
    match op {
        Opcode::panic => "panic"@,
        Opcode::breakpoint => "breakpoint"@,
        Opcode::nop => "nop"@,
        Opcode::load_imm32 => "load_imm32"@,
        Opcode::mov => "mov"@,
        Opcode::load_const => "load_const"@,
        Opcode::get_global => "get_global"@,
        Opcode::set_global => "set_global"@,
        Opcode::lshift => "lshift"@,
        Opcode::rshift => "rshift"@,
        Opcode::bit_and => "bit_and"@,
        Opcode::bit_or => "bit_or"@,
        Opcode::bit_xor => "bit_xor"@,
        Opcode::bit_not => "bit_not"@,
        Opcode::add => "add"@,
        Opcode::sub => "sub"@,
        Opcode::mul => "mul"@,
        Opcode::div => "div"@,
        Opcode::div_int => "div_int"@,
        Opcode::modulo => "modulo"@,
        Opcode::add_imm16 => "add_imm16"@,
        Opcode::sub_imm16 => "sub_imm16"@,
        Opcode::mul_imm16 => "mul_imm16"@,
        Opcode::not => "not"@,
        Opcode::clos_new => "clos_new"@,
        Opcode::clos_set => "clos_set"@,
        Opcode::clos_get => "clos_get"@,
        Opcode::cell_new => "cell_new"@,
        Opcode::cell_set => "cell_set"@,
        Opcode::cell_get => "cell_get"@,
        Opcode::instanceof => "instanceof"@,
        Opcode::get_field => "get_field"@,
        Opcode::set_field => "set_field"@,
        Opcode::get_index => "get_index"@,
        Opcode::set_index => "set_index"@,
        Opcode::dict_new => "dict_new"@,
        Opcode::arr_new => "arr_new"@,
        Opcode::arr_push => "arr_push"@,
        Opcode::ba_clone => "ba_clone"@,
        Opcode::if_true => "if_true"@,
        Opcode::if_false => "if_false"@,
        Opcode::jeq => "jeq"@,
        Opcode::jne => "jne"@,
        Opcode::jlt => "jlt"@,
        Opcode::jle => "jle"@,
        Opcode::jgt => "jgt"@,
        Opcode::jge => "jge"@,
        Opcode::jmp => "jmp"@,
        Opcode::call_opnd => "call_opnd"@,
        Opcode::call_host => "call_host"@,
        Opcode::call_direct => "call_direct"@,
        Opcode::call_pc => "call_pc"@,
        Opcode::call_method => "call_method"@,
        Opcode::call_method_host => "call_method_host"@,
        Opcode::new => "new"@,
        Opcode::new_known_ctor => "new_known_ctor"@,
        Opcode::ret => "ret"@,
        Opcode::ret_nil => "ret_nil"@,
        Opcode::ret_imm32 => "ret_imm32"@,
    }
}

/// Whether an opcode has a pc-relative branch displacement
pub open spec fn opcode_is_branch(op: Opcode) -> bool {
    match op {
        Opcode::panic => false,
        Opcode::breakpoint => false,
        Opcode::nop => false,
        Opcode::load_imm32 => false,
        Opcode::mov => false,
        Opcode::load_const => false,
        Opcode::get_global => false,
        Opcode::set_global => false,
        Opcode::lshift => false,
        Opcode::rshift => false,
        Opcode::bit_and => false,
        Opcode::bit_or => false,
        Opcode::bit_xor => false,
        Opcode::bit_not => false,
        Opcode::add => false,
        Opcode::sub => false,
        Opcode::mul => false,
        Opcode::div => false,
        Opcode::div_int => false,
        Opcode::modulo => false,
        Opcode::add_imm16 => false,
        Opcode::sub_imm16 => false,
        Opcode::mul_imm16 => false,
        Opcode::not => false,
        Opcode::clos_new => false,
        Opcode::clos_set => false,
        Opcode::clos_get => false,
        Opcode::cell_new => false,
        Opcode::cell_set => false,
        Opcode::cell_get => false,
        Opcode::instanceof => false,
        Opcode::get_field => false,
        Opcode::set_field => false,
        Opcode::get_index => false,
        Opcode::set_index => false,
        Opcode::dict_new => false,
        Opcode::arr_new => false,
        Opcode::arr_push => false,
        Opcode::ba_clone => false,
        Opcode::if_true => true,
        Opcode::if_false => true,
        Opcode::jeq => true,
        Opcode::jne => true,
        Opcode::jlt => true,
        Opcode::jle => true,
        Opcode::jgt => true,
        Opcode::jge => true,
        Opcode::jmp => true,
        Opcode::call_opnd => false,
        Opcode::call_host => false,
        Opcode::call_direct => false,
        Opcode::call_pc => false,
        Opcode::call_method => false,
        Opcode::call_method_host => false,
        Opcode::new => false,
        Opcode::new_known_ctor => false,
        Opcode::ret => false,
        Opcode::ret_nil => false,
        Opcode::ret_imm32 => false,
    }
}

/// Width of the branch displacement of an opcode, zero if it has none
pub open spec fn opcode_disp_width(op: Opcode) -> u64 {
    match op {
        Opcode::panic => 0,
        Opcode::breakpoint => 0,
        Opcode::nop => 0,
        Opcode::load_imm32 => 0,
        Opcode::mov => 0,
        Opcode::load_const => 0,
        Opcode::get_global => 0,
        Opcode::set_global => 0,
        Opcode::lshift => 0,
        Opcode::rshift => 0,
        Opcode::bit_and => 0,
        Opcode::bit_or => 0,
        Opcode::bit_xor => 0,
        Opcode::bit_not => 0,
        Opcode::add => 0,
        Opcode::sub => 0,
        Opcode::mul => 0,
        Opcode::div => 0,
        Opcode::div_int => 0,
        Opcode::modulo => 0,
        Opcode::add_imm16 => 0,
        Opcode::sub_imm16 => 0,
        Opcode::mul_imm16 => 0,
        Opcode::not => 0,
        Opcode::clos_new => 0,
        Opcode::clos_set => 0,
        Opcode::clos_get => 0,
        Opcode::cell_new => 0,
        Opcode::cell_set => 0,
        Opcode::cell_get => 0,
        Opcode::instanceof => 0,
        Opcode::get_field => 0,
        Opcode::set_field => 0,
        Opcode::get_index => 0,
        Opcode::set_index => 0,
        Opcode::dict_new => 0,
        Opcode::arr_new => 0,
        Opcode::arr_push => 0,
        Opcode::ba_clone => 0,
        Opcode::if_true => 32,
        Opcode::if_false => 32,
        Opcode::jeq => 24,
        Opcode::jne => 24,
        Opcode::jlt => 24,
        Opcode::jle => 24,
        Opcode::jgt => 24,
        Opcode::jge => 24,
        Opcode::jmp => 32,
        Opcode::call_opnd => 0,
        Opcode::call_host => 0,
        Opcode::call_direct => 0,
        Opcode::call_pc => 0,
        Opcode::call_method => 0,
        Opcode::call_method_host => 0,
        Opcode::new => 0,
        Opcode::new_known_ctor => 0,
        Opcode::ret => 0,
        Opcode::ret_nil => 0,
        Opcode::ret_imm32 => 0,
    }
}

/// Opcode with a given byte, for the bytes opcodes are encoded as
pub open spec fn opcode_of_code(c: u8) -> Opcode {
    if c == 0 { Opcode::panic }
    else if c == 1 { Opcode::breakpoint }
    else if c == 2 { Opcode::nop }
    else if c == 3 { Opcode::load_imm32 }
    else if c == 4 { Opcode::mov }
    else if c == 5 { Opcode::load_const }
    else if c == 6 { Opcode::get_global }
    else if c == 7 { Opcode::set_global }
    else if c == 8 { Opcode::lshift }
    else if c == 9 { Opcode::rshift }
    else if c == 10 { Opcode::bit_and }
    else if c == 11 { Opcode::bit_or }
    else if c == 12 { Opcode::bit_xor }
    else if c == 13 { Opcode::bit_not }
    else if c == 14 { Opcode::add }
    else if c == 15 { Opcode::sub }
    else if c == 16 { Opcode::mul }
    else if c == 17 { Opcode::div }
    else if c == 18 { Opcode::div_int }
    else if c == 19 { Opcode::modulo }
    else if c == 20 { Opcode::add_imm16 }
    else if c == 21 { Opcode::sub_imm16 }
    else if c == 22 { Opcode::mul_imm16 }
    else if c == 23 { Opcode::not }
    else if c == 24 { Opcode::clos_new }
    else if c == 25 { Opcode::clos_set }
    else if c == 26 { Opcode::clos_get }
    else if c == 27 { Opcode::cell_new }
    else if c == 28 { Opcode::cell_set }
    else if c == 29 { Opcode::cell_get }
    else if c == 30 { Opcode::instanceof }
    else if c == 31 { Opcode::get_field }
    else if c == 32 { Opcode::set_field }
    else if c == 33 { Opcode::get_index }
    else if c == 34 { Opcode::set_index }
    else if c == 35 { Opcode::dict_new }
    else if c == 36 { Opcode::arr_new }
    else if c == 37 { Opcode::arr_push }
    else if c == 38 { Opcode::ba_clone }
    else if c == 39 { Opcode::if_true }
    else if c == 40 { Opcode::if_false }
    else if c == 41 { Opcode::jeq }
    else if c == 42 { Opcode::jne }
    else if c == 43 { Opcode::jlt }
    else if c == 44 { Opcode::jle }
    else if c == 45 { Opcode::jgt }
    else if c == 46 { Opcode::jge }
    else if c == 47 { Opcode::jmp }
    else if c == 48 { Opcode::call_opnd }
    else if c == 49 { Opcode::call_host }
    else if c == 50 { Opcode::call_direct }
    else if c == 51 { Opcode::call_pc }
    else if c == 52 { Opcode::call_method }
    else if c == 53 { Opcode::call_method_host }
    else if c == 54 { Opcode::new }
    else if c == 55 { Opcode::new_known_ctor }
    else if c == 56 { Opcode::ret }
    else if c == 57 { Opcode::ret_nil }
    else { Opcode::ret_imm32 }
}

/// Opcode a name stands for, if any
pub open spec fn opcode_of_name(s: Seq<char>) -> Option<Opcode> {
    if s == "panic"@ { Some(Opcode::panic) }
    else if s == "breakpoint"@ { Some(Opcode::breakpoint) }
    else if s == "nop"@ { Some(Opcode::nop) }
    else if s == "load_imm32"@ { Some(Opcode::load_imm32) }
    else if s == "mov"@ { Some(Opcode::mov) }
    else if s == "load_const"@ { Some(Opcode::load_const) }
    else if s == "get_global"@ { Some(Opcode::get_global) }
    else if s == "set_global"@ { Some(Opcode::set_global) }
    else if s == "lshift"@ { Some(Opcode::lshift) }
    else if s == "rshift"@ { Some(Opcode::rshift) }
    else if s == "bit_and"@ { Some(Opcode::bit_and) }
    else if s == "bit_or"@ { Some(Opcode::bit_or) }
    else if s == "bit_xor"@ { Some(Opcode::bit_xor) }
    else if s == "bit_not"@ { Some(Opcode::bit_not) }
    else if s == "add"@ { Some(Opcode::add) }
    else if s == "sub"@ { Some(Opcode::sub) }
    else if s == "mul"@ { Some(Opcode::mul) }
    else if s == "div"@ { Some(Opcode::div) }
    else if s == "div_int"@ { Some(Opcode::div_int) }
    else if s == "modulo"@ { Some(Opcode::modulo) }
    else if s == "add_imm16"@ { Some(Opcode::add_imm16) }
    else if s == "sub_imm16"@ { Some(Opcode::sub_imm16) }
    else if s == "mul_imm16"@ { Some(Opcode::mul_imm16) }
    else if s == "not"@ { Some(Opcode::not) }
    else if s == "clos_new"@ { Some(Opcode::clos_new) }
    else if s == "clos_set"@ { Some(Opcode::clos_set) }
    else if s == "clos_get"@ { Some(Opcode::clos_get) }
    else if s == "cell_new"@ { Some(Opcode::cell_new) }
    else if s == "cell_set"@ { Some(Opcode::cell_set) }
    else if s == "cell_get"@ { Some(Opcode::cell_get) }
    else if s == "instanceof"@ { Some(Opcode::instanceof) }
    else if s == "get_field"@ { Some(Opcode::get_field) }
    else if s == "set_field"@ { Some(Opcode::set_field) }
    else if s == "get_index"@ { Some(Opcode::get_index) }
    else if s == "set_index"@ { Some(Opcode::set_index) }
    else if s == "dict_new"@ { Some(Opcode::dict_new) }
    else if s == "arr_new"@ { Some(Opcode::arr_new) }
    else if s == "arr_push"@ { Some(Opcode::arr_push) }
    else if s == "ba_clone"@ { Some(Opcode::ba_clone) }
    else if s == "if_true"@ { Some(Opcode::if_true) }
    else if s == "if_false"@ { Some(Opcode::if_false) }
    else if s == "jeq"@ { Some(Opcode::jeq) }
    else if s == "jne"@ { Some(Opcode::jne) }
    else if s == "jlt"@ { Some(Opcode::jlt) }
    else if s == "jle"@ { Some(Opcode::jle) }
    else if s == "jgt"@ { Some(Opcode::jgt) }
    else if s == "jge"@ { Some(Opcode::jge) }
    else if s == "jmp"@ { Some(Opcode::jmp) }
    else if s == "call_opnd"@ { Some(Opcode::call_opnd) }
    else if s == "call_host"@ { Some(Opcode::call_host) }
    else if s == "call_direct"@ { Some(Opcode::call_direct) }
    else if s == "call_pc"@ { Some(Opcode::call_pc) }
    else if s == "call_method"@ { Some(Opcode::call_method) }
    else if s == "call_method_host"@ { Some(Opcode::call_method_host) }
    else if s == "new"@ { Some(Opcode::new) }
    else if s == "new_known_ctor"@ { Some(Opcode::new_known_ctor) }
    else if s == "ret"@ { Some(Opcode::ret) }
    else if s == "ret_nil"@ { Some(Opcode::ret_nil) }
    else if s == "ret_imm32"@ { Some(Opcode::ret_imm32) }
    else { None }
}

/// Opcodes are numbered densely from zero: the code of each one is below
/// `NUM_OPCODES` and names it back
pub proof fn law_opcode_codes_dense(op: Opcode)
    ensures
        (opcode_code(op) as usize) < NUM_OPCODES,
        opcode_of_code(opcode_code(op)) == op,
{
}


/// Whether two strings hold the same characters
pub fn str_eq(a: &str, b: &str) -> (r: bool)
    ensures
        r == (a@ == b@),
{
    let n: usize = a.unicode_len();
    if n != b.unicode_len() {
        return false;
    }
    let mut i: usize = 0;
    while i < n
        invariant
            n == a@.len(),
            n == b@.len(),
            0 <= i <= n,
            forall|j: int| 0 <= j < i ==> a@[j] == b@[j],
        decreases n - i,
    {
        if a.get_char(i) != b.get_char(i) {
            return false;
        }
        i = i + 1;
    }
    assert(a@ =~= b@);
    true
}

impl Opcode {
    /// Byte this opcode is encoded as
    pub fn code(self) -> (r: u8)
        ensures
            r == opcode_code(self),
            (r as usize) < NUM_OPCODES,
            opcode_of_code(r) == self,
    {
        match self {
            Opcode::panic => 0,
            Opcode::breakpoint => 1,
            Opcode::nop => 2,
            Opcode::load_imm32 => 3,
            Opcode::mov => 4,
            Opcode::load_const => 5,
            Opcode::get_global => 6,
            Opcode::set_global => 7,
            Opcode::lshift => 8,
            Opcode::rshift => 9,
            Opcode::bit_and => 10,
            Opcode::bit_or => 11,
            Opcode::bit_xor => 12,
            Opcode::bit_not => 13,
            Opcode::add => 14,
            Opcode::sub => 15,
            Opcode::mul => 16,
            Opcode::div => 17,
            Opcode::div_int => 18,
            Opcode::modulo => 19,
            Opcode::add_imm16 => 20,
            Opcode::sub_imm16 => 21,
            Opcode::mul_imm16 => 22,
            Opcode::not => 23,
            Opcode::clos_new => 24,
            Opcode::clos_set => 25,
            Opcode::clos_get => 26,
            Opcode::cell_new => 27,
            Opcode::cell_set => 28,
            Opcode::cell_get => 29,
            Opcode::instanceof => 30,
            Opcode::get_field => 31,
            Opcode::set_field => 32,
            Opcode::get_index => 33,
            Opcode::set_index => 34,
            Opcode::dict_new => 35,
            Opcode::arr_new => 36,
            Opcode::arr_push => 37,
            Opcode::ba_clone => 38,
            Opcode::if_true => 39,
            Opcode::if_false => 40,
            Opcode::jeq => 41,
            Opcode::jne => 42,
            Opcode::jlt => 43,
            Opcode::jle => 44,
            Opcode::jgt => 45,
            Opcode::jge => 46,
            Opcode::jmp => 47,
            Opcode::call_opnd => 48,
            Opcode::call_host => 49,
            Opcode::call_direct => 50,
            Opcode::call_pc => 51,
            Opcode::call_method => 52,
            Opcode::call_method_host => 53,
            Opcode::new => 54,
            Opcode::new_known_ctor => 55,
            Opcode::ret => 56,
            Opcode::ret_nil => 57,
            Opcode::ret_imm32 => 58,
        }
    }

    pub fn num_opnds(self) -> (r: usize)
        ensures
            r == opcode_num_opnds(self),
    {
        match self {
            Opcode::panic => 3,
            Opcode::breakpoint => 0,
            Opcode::nop => 0,
            Opcode::load_imm32 => 2,
            Opcode::mov => 2,
            Opcode::load_const => 2,
            Opcode::get_global => 2,
            Opcode::set_global => 2,
            Opcode::lshift => 3,
            Opcode::rshift => 3,
            Opcode::bit_and => 3,
            Opcode::bit_or => 3,
            Opcode::bit_xor => 3,
            Opcode::bit_not => 2,
            Opcode::add => 3,
            Opcode::sub => 3,
            Opcode::mul => 3,
            Opcode::div => 3,
            Opcode::div_int => 3,
            Opcode::modulo => 3,
            Opcode::add_imm16 => 3,
            Opcode::sub_imm16 => 3,
            Opcode::mul_imm16 => 3,
            Opcode::not => 2,
            Opcode::clos_new => 3,
            Opcode::clos_set => 3,
            Opcode::clos_get => 2,
            Opcode::cell_new => 1,
            Opcode::cell_set => 2,
            Opcode::cell_get => 2,
            Opcode::instanceof => 3,
            Opcode::get_field => 3,
            Opcode::set_field => 3,
            Opcode::get_index => 3,
            Opcode::set_index => 3,
            Opcode::dict_new => 1,
            Opcode::arr_new => 2,
            Opcode::arr_push => 2,
            Opcode::ba_clone => 2,
            Opcode::if_true => 2,
            Opcode::if_false => 2,
            Opcode::jeq => 3,
            Opcode::jne => 3,
            Opcode::jlt => 3,
            Opcode::jle => 3,
            Opcode::jgt => 3,
            Opcode::jge => 3,
            Opcode::jmp => 1,
            Opcode::call_opnd => 3,
            Opcode::call_host => 3,
            Opcode::call_direct => 3,
            Opcode::call_pc => 3,
            Opcode::call_method => 3,
            Opcode::call_method_host => 4,
            Opcode::new => 3,
            Opcode::new_known_ctor => 3,
            Opcode::ret => 1,
            Opcode::ret_nil => 0,
            Opcode::ret_imm32 => 1,
        }
    }

    pub fn num_outs(self) -> (r: usize)
        ensures
            r == opcode_num_outs(self),
    {
        match self {
            Opcode::panic => 0,
            Opcode::breakpoint => 0,
            Opcode::nop => 0,
            Opcode::load_imm32 => 1,
            Opcode::mov => 1,
            Opcode::load_const => 1,
            Opcode::get_global => 1,
            Opcode::set_global => 0,
            Opcode::lshift => 1,
            Opcode::rshift => 1,
            Opcode::bit_and => 1,
            Opcode::bit_or => 1,
            Opcode::bit_xor => 1,
            Opcode::bit_not => 1,
            Opcode::add => 1,
            Opcode::sub => 1,
            Opcode::mul => 1,
            Opcode::div => 1,
            Opcode::div_int => 1,
            Opcode::modulo => 1,
            Opcode::add_imm16 => 1,
            Opcode::sub_imm16 => 1,
            Opcode::mul_imm16 => 1,
            Opcode::not => 1,
            Opcode::clos_new => 1,
            Opcode::clos_set => 0,
            Opcode::clos_get => 1,
            Opcode::cell_new => 1,
            Opcode::cell_set => 0,
            Opcode::cell_get => 1,
            Opcode::instanceof => 1,
            Opcode::get_field => 1,
            Opcode::set_field => 0,
            Opcode::get_index => 1,
            Opcode::set_index => 0,
            Opcode::dict_new => 1,
            Opcode::arr_new => 1,
            Opcode::arr_push => 0,
            Opcode::ba_clone => 1,
            Opcode::if_true => 0,
            Opcode::if_false => 0,
            Opcode::jeq => 0,
            Opcode::jne => 0,
            Opcode::jlt => 0,
            Opcode::jle => 0,
            Opcode::jgt => 0,
            Opcode::jge => 0,
            Opcode::jmp => 0,
            Opcode::call_opnd => 0,
            Opcode::call_host => 0,
            Opcode::call_direct => 0,
            Opcode::call_pc => 0,
            Opcode::call_method => 0,
            Opcode::call_method_host => 0,
            Opcode::new => 0,
            Opcode::new_known_ctor => 0,
            Opcode::ret => 0,
            Opcode::ret_nil => 0,
            Opcode::ret_imm32 => 0,
        }
    }

    /// Whether this instruction has a pc-relative branch displacement
    pub fn is_branch(self) -> (r: bool)
        ensures
            r == opcode_is_branch(self),
    {
        match self {
            Opcode::panic => false,
            Opcode::breakpoint => false,
            Opcode::nop => false,
            Opcode::load_imm32 => false,
            Opcode::mov => false,
            Opcode::load_const => false,
            Opcode::get_global => false,
            Opcode::set_global => false,
            Opcode::lshift => false,
            Opcode::rshift => false,
            Opcode::bit_and => false,
            Opcode::bit_or => false,
            Opcode::bit_xor => false,
            Opcode::bit_not => false,
            Opcode::add => false,
            Opcode::sub => false,
            Opcode::mul => false,
            Opcode::div => false,
            Opcode::div_int => false,
            Opcode::modulo => false,
            Opcode::add_imm16 => false,
            Opcode::sub_imm16 => false,
            Opcode::mul_imm16 => false,
            Opcode::not => false,
            Opcode::clos_new => false,
            Opcode::clos_set => false,
            Opcode::clos_get => false,
            Opcode::cell_new => false,
            Opcode::cell_set => false,
            Opcode::cell_get => false,
            Opcode::instanceof => false,
            Opcode::get_field => false,
            Opcode::set_field => false,
            Opcode::get_index => false,
            Opcode::set_index => false,
            Opcode::dict_new => false,
            Opcode::arr_new => false,
            Opcode::arr_push => false,
            Opcode::ba_clone => false,
            Opcode::if_true => true,
            Opcode::if_false => true,
            Opcode::jeq => true,
            Opcode::jne => true,
            Opcode::jlt => true,
            Opcode::jle => true,
            Opcode::jgt => true,
            Opcode::jge => true,
            Opcode::jmp => true,
            Opcode::call_opnd => false,
            Opcode::call_host => false,
            Opcode::call_direct => false,
            Opcode::call_pc => false,
            Opcode::call_method => false,
            Opcode::call_method_host => false,
            Opcode::new => false,
            Opcode::new_known_ctor => false,
            Opcode::ret => false,
            Opcode::ret_nil => false,
            Opcode::ret_imm32 => false,
        }
    }

    pub fn name(self) -> (r: &'static str)
        ensures
            r@ == opcode_name(self),
    {
        match self {
            Opcode::panic => "panic",
            Opcode::breakpoint => "breakpoint",
            Opcode::nop => "nop",
            Opcode::load_imm32 => "load_imm32",
            Opcode::mov => "mov",
            Opcode::load_const => "load_const",
            Opcode::get_global => "get_global",
            Opcode::set_global => "set_global",
            Opcode::lshift => "lshift",
            Opcode::rshift => "rshift",
            Opcode::bit_and => "bit_and",
            Opcode::bit_or => "bit_or",
            Opcode::bit_xor => "bit_xor",
            Opcode::bit_not => "bit_not",
            Opcode::add => "add",
            Opcode::sub => "sub",
            Opcode::mul => "mul",
            Opcode::div => "div",
            Opcode::div_int => "div_int",
            Opcode::modulo => "modulo",
            Opcode::add_imm16 => "add_imm16",
            Opcode::sub_imm16 => "sub_imm16",
            Opcode::mul_imm16 => "mul_imm16",
            Opcode::not => "not",
            Opcode::clos_new => "clos_new",
            Opcode::clos_set => "clos_set",
            Opcode::clos_get => "clos_get",
            Opcode::cell_new => "cell_new",
            Opcode::cell_set => "cell_set",
            Opcode::cell_get => "cell_get",
            Opcode::instanceof => "instanceof",
            Opcode::get_field => "get_field",
            Opcode::set_field => "set_field",
            Opcode::get_index => "get_index",
            Opcode::set_index => "set_index",
            Opcode::dict_new => "dict_new",
            Opcode::arr_new => "arr_new",
            Opcode::arr_push => "arr_push",
            Opcode::ba_clone => "ba_clone",
            Opcode::if_true => "if_true",
            Opcode::if_false => "if_false",
            Opcode::jeq => "jeq",
            Opcode::jne => "jne",
            Opcode::jlt => "jlt",
            Opcode::jle => "jle",
            Opcode::jgt => "jgt",
            Opcode::jge => "jge",
            Opcode::jmp => "jmp",
            Opcode::call_opnd => "call_opnd",
            Opcode::call_host => "call_host",
            Opcode::call_direct => "call_direct",
            Opcode::call_pc => "call_pc",
            Opcode::call_method => "call_method",
            Opcode::call_method_host => "call_method_host",
            Opcode::new => "new",
            Opcode::new_known_ctor => "new_known_ctor",
            Opcode::ret => "ret",
            Opcode::ret_nil => "ret_nil",
            Opcode::ret_imm32 => "ret_imm32",
        }
    }

    /// The opcode with a given byte
    pub fn from_u8(c: u8) -> (r: Opcode)
        requires
            (c as usize) < NUM_OPCODES,
        ensures
            r == opcode_of_code(c),
            opcode_code(r) == c,
    {
        if c == 0 { Opcode::panic }
        else if c == 1 { Opcode::breakpoint }
        else if c == 2 { Opcode::nop }
        else if c == 3 { Opcode::load_imm32 }
        else if c == 4 { Opcode::mov }
        else if c == 5 { Opcode::load_const }
        else if c == 6 { Opcode::get_global }
        else if c == 7 { Opcode::set_global }
        else if c == 8 { Opcode::lshift }
        else if c == 9 { Opcode::rshift }
        else if c == 10 { Opcode::bit_and }
        else if c == 11 { Opcode::bit_or }
        else if c == 12 { Opcode::bit_xor }
        else if c == 13 { Opcode::bit_not }
        else if c == 14 { Opcode::add }
        else if c == 15 { Opcode::sub }
        else if c == 16 { Opcode::mul }
        else if c == 17 { Opcode::div }
        else if c == 18 { Opcode::div_int }
        else if c == 19 { Opcode::modulo }
        else if c == 20 { Opcode::add_imm16 }
        else if c == 21 { Opcode::sub_imm16 }
        else if c == 22 { Opcode::mul_imm16 }
        else if c == 23 { Opcode::not }
        else if c == 24 { Opcode::clos_new }
        else if c == 25 { Opcode::clos_set }
        else if c == 26 { Opcode::clos_get }
        else if c == 27 { Opcode::cell_new }
        else if c == 28 { Opcode::cell_set }
        else if c == 29 { Opcode::cell_get }
        else if c == 30 { Opcode::instanceof }
        else if c == 31 { Opcode::get_field }
        else if c == 32 { Opcode::set_field }
        else if c == 33 { Opcode::get_index }
        else if c == 34 { Opcode::set_index }
        else if c == 35 { Opcode::dict_new }
        else if c == 36 { Opcode::arr_new }
        else if c == 37 { Opcode::arr_push }
        else if c == 38 { Opcode::ba_clone }
        else if c == 39 { Opcode::if_true }
        else if c == 40 { Opcode::if_false }
        else if c == 41 { Opcode::jeq }
        else if c == 42 { Opcode::jne }
        else if c == 43 { Opcode::jlt }
        else if c == 44 { Opcode::jle }
        else if c == 45 { Opcode::jgt }
        else if c == 46 { Opcode::jge }
        else if c == 47 { Opcode::jmp }
        else if c == 48 { Opcode::call_opnd }
        else if c == 49 { Opcode::call_host }
        else if c == 50 { Opcode::call_direct }
        else if c == 51 { Opcode::call_pc }
        else if c == 52 { Opcode::call_method }
        else if c == 53 { Opcode::call_method_host }
        else if c == 54 { Opcode::new }
        else if c == 55 { Opcode::new_known_ctor }
        else if c == 56 { Opcode::ret }
        else if c == 57 { Opcode::ret_nil }
        else { Opcode::ret_imm32 }
    }

    /// The opcode a name stands for, if any
    pub fn from_str(s: &str) -> (r: Option<Opcode>)
        ensures
            r == opcode_of_name(s@),
    {
        if str_eq(s, "panic") { return Some(Opcode::panic); }
        if str_eq(s, "breakpoint") { return Some(Opcode::breakpoint); }
        if str_eq(s, "nop") { return Some(Opcode::nop); }
        if str_eq(s, "load_imm32") { return Some(Opcode::load_imm32); }
        if str_eq(s, "mov") { return Some(Opcode::mov); }
        if str_eq(s, "load_const") { return Some(Opcode::load_const); }
        if str_eq(s, "get_global") { return Some(Opcode::get_global); }
        if str_eq(s, "set_global") { return Some(Opcode::set_global); }
        if str_eq(s, "lshift") { return Some(Opcode::lshift); }
        if str_eq(s, "rshift") { return Some(Opcode::rshift); }
        if str_eq(s, "bit_and") { return Some(Opcode::bit_and); }
        if str_eq(s, "bit_or") { return Some(Opcode::bit_or); }
        if str_eq(s, "bit_xor") { return Some(Opcode::bit_xor); }
        if str_eq(s, "bit_not") { return Some(Opcode::bit_not); }
        if str_eq(s, "add") { return Some(Opcode::add); }
        if str_eq(s, "sub") { return Some(Opcode::sub); }
        if str_eq(s, "mul") { return Some(Opcode::mul); }
        if str_eq(s, "div") { return Some(Opcode::div); }
        if str_eq(s, "div_int") { return Some(Opcode::div_int); }
        if str_eq(s, "modulo") { return Some(Opcode::modulo); }
        if str_eq(s, "add_imm16") { return Some(Opcode::add_imm16); }
        if str_eq(s, "sub_imm16") { return Some(Opcode::sub_imm16); }
        if str_eq(s, "mul_imm16") { return Some(Opcode::mul_imm16); }
        if str_eq(s, "not") { return Some(Opcode::not); }
        if str_eq(s, "clos_new") { return Some(Opcode::clos_new); }
        if str_eq(s, "clos_set") { return Some(Opcode::clos_set); }
        if str_eq(s, "clos_get") { return Some(Opcode::clos_get); }
        if str_eq(s, "cell_new") { return Some(Opcode::cell_new); }
        if str_eq(s, "cell_set") { return Some(Opcode::cell_set); }
        if str_eq(s, "cell_get") { return Some(Opcode::cell_get); }
        if str_eq(s, "instanceof") { return Some(Opcode::instanceof); }
        if str_eq(s, "get_field") { return Some(Opcode::get_field); }
        if str_eq(s, "set_field") { return Some(Opcode::set_field); }
        if str_eq(s, "get_index") { return Some(Opcode::get_index); }
        if str_eq(s, "set_index") { return Some(Opcode::set_index); }
        if str_eq(s, "dict_new") { return Some(Opcode::dict_new); }
        if str_eq(s, "arr_new") { return Some(Opcode::arr_new); }
        if str_eq(s, "arr_push") { return Some(Opcode::arr_push); }
        if str_eq(s, "ba_clone") { return Some(Opcode::ba_clone); }
        if str_eq(s, "if_true") { return Some(Opcode::if_true); }
        if str_eq(s, "if_false") { return Some(Opcode::if_false); }
        if str_eq(s, "jeq") { return Some(Opcode::jeq); }
        if str_eq(s, "jne") { return Some(Opcode::jne); }
        if str_eq(s, "jlt") { return Some(Opcode::jlt); }
        if str_eq(s, "jle") { return Some(Opcode::jle); }
        if str_eq(s, "jgt") { return Some(Opcode::jgt); }
        if str_eq(s, "jge") { return Some(Opcode::jge); }
        if str_eq(s, "jmp") { return Some(Opcode::jmp); }
        if str_eq(s, "call_opnd") { return Some(Opcode::call_opnd); }
        if str_eq(s, "call_host") { return Some(Opcode::call_host); }
        if str_eq(s, "call_direct") { return Some(Opcode::call_direct); }
        if str_eq(s, "call_pc") { return Some(Opcode::call_pc); }
        if str_eq(s, "call_method") { return Some(Opcode::call_method); }
        if str_eq(s, "call_method_host") { return Some(Opcode::call_method_host); }
        if str_eq(s, "new") { return Some(Opcode::new); }
        if str_eq(s, "new_known_ctor") { return Some(Opcode::new_known_ctor); }
        if str_eq(s, "ret") { return Some(Opcode::ret); }
        if str_eq(s, "ret_nil") { return Some(Opcode::ret_nil); }
        if str_eq(s, "ret_imm32") { return Some(Opcode::ret_imm32); }
        None
    }
}

/// Interpreter instruction
#[derive(PartialEq, Eq, Copy, Clone, Debug, Structural)]
pub struct Insn(pub u64);

impl Insn {
    pub open spec fn spec_opcode_byte(self) -> u64 {
        spec_bits_u(self.0, 0, 8)
    }

    pub open spec fn has_valid_opcode(self) -> bool {
        self.spec_opcode_byte() < NUM_OPCODES
    }

    pub open spec fn spec_opcode(self) -> Opcode {
        opcode_of_code(self.spec_opcode_byte() as u8)
    }

    pub fn opcode(&self) -> (r: Opcode)
        requires
            self.has_valid_opcode(),
        ensures
            r == self.spec_opcode(),
    {
        proof { lemma_fields_facts(0, self.0, 8, 8, 0); }
        Opcode::from_u8(self.bits_u(0, 8) as u8)
    }

    /// Get the full u64 instruction word
    pub fn word_u64(&self) -> (r: u64)
        ensures
            r == self.0,
    {
        self.0
    }

    /// Extract an unsigned operand field
    pub fn bits_u(&self, pos: u64, width: u64) -> (r: u64)
        requires
            1 <= width <= 64,
            pos < 64,
        ensures
            r == spec_bits_u(self.0, pos, width),
    {
        (self.0 >> pos) & (u64::MAX >> (64 - width))
    }

    /// Extract the sign-extended operand at the top of the word
    pub fn top_i(&self, width: u64) -> (r: i64)
        requires
            1 <= width <= 64,
        ensures
            r == spec_top_i(self.0, width),
    {
        (self.0 as i64) >> (64 - width)
    }

    /// Write an operand field, which has to be clear
    fn with_bits(self, pos: u64, width: u64, val: u64) -> (r: Insn)
        requires
            1 <= width <= 64,
            pos + width <= 64,
        ensures
            r.0 == self.0 | ((val & field_mask(width)) << pos),
    {
        Insn(self.0 | ((val & (u64::MAX >> (64 - width))) << pos))
    }

    /// Whether a value is representable in a field of a given width
    pub fn fits(val: i64, width: u32, signed: bool) -> (r: bool)
        requires
            1 <= width <= 63,
        ensures
            r == spec_fits(val, width, signed),
    {
        if signed {
            let half: i64 = 1i64 << (width - 1);
            assert(1 <= half <= 0x4000_0000_0000_0000) by (bit_vector)
                requires half == 1i64 << ((width - 1) as u32), 1 <= width <= 63;
            val >= -half && val < half
        } else {
            val >= 0 && (val as u64) < (1u64 << width)
        }
    }

    pub open spec fn spec_branch_disp(self) -> Option<i32> {
        if opcode_is_branch(self.spec_opcode()) {
            Some(spec_top_i(self.0, opcode_disp_width(self.spec_opcode())) as i32)
        } else {
            None
        }
    }

    /// Get the branch displacement of a jump instruction, if it has one
    pub fn branch_disp(self) -> (r: Option<i32>)
        requires
            self.has_valid_opcode(),
        ensures
            r == self.spec_branch_disp(),
    {
        let op = self.opcode();
        if op.is_branch() {
            let width: u64 = match op {
                Opcode::jeq | Opcode::jne | Opcode::jlt | Opcode::jle | Opcode::jgt | Opcode::jge => 24,
                _ => 32,
            };
            proof { lemma_fields_facts(0, self.0, 8, width, 0); }
            Some(self.top_i(width) as i32)
        } else {
            None
        }
    }

    /// Replace the branch displacement of a jump instruction. The
    /// displacement is counted in instructions, relative to the one
    /// following the branch, so a displacement of zero falls through.
    /// The operands below the displacement are left as they were.
    pub fn with_branch_disp(self, disp: i32) -> (r: Insn)
        requires
            self.has_valid_opcode(),
            opcode_is_branch(self.spec_opcode()),
            opcode_disp_width(self.spec_opcode()) == 24 ==> -0x80_0000 <= disp < 0x80_0000,
        ensures
            r.has_valid_opcode(),
            r.spec_opcode() == self.spec_opcode(),
            r.spec_branch_disp() == Some(disp),
            spec_bits_u(r.0, 0, (64 - opcode_disp_width(self.spec_opcode())) as u64)
                == spec_bits_u(self.0, 0, (64 - opcode_disp_width(self.spec_opcode())) as u64),
    {
        let op = self.opcode();
        let width: u64 = match op {
            Opcode::jeq | Opcode::jne | Opcode::jlt | Opcode::jle | Opcode::jgt | Opcode::jge => 24,
            _ => 32,
        };
        let low = self.0 & (u64::MAX >> width);
        let r = Insn(low).with_bits(64 - width, width, disp as i64 as u64);
        proof {
            lemma_clear_top(self.0, width);
            lemma_field_round_trip(low, (64 - width) as u64, width, disp as i64 as u64);
            lemma_field_keep(low, (64 - width) as u64, width, disp as i64 as u64, 0, (64 - width) as u64);
            lemma_top_signed(r.0, width, disp as i64);
            lemma_fields_facts(0, r.0, 8, width, 0);
            lemma_fields_facts(0, self.0, 8, width, 0);
            // The opcode byte lies in the part of the word that is kept
            lemma_low_byte_of_low_part(r.0, self.0, (64 - width) as u64);
        }
        r
    }

    /// Encode a `panic` instruction
    pub fn panic(file_id: u16, line_no: u32, col_no: u32) -> (r: Insn)
        requires
            file_id <= 0xFFF,
            line_no <= 0xFFFFFF,
            col_no <= 0xFFFFF,
        ensures
            r.has_valid_opcode(),
            r.spec_opcode() == Opcode::panic,
            panic::spec_decode(r) == (panic { file_id, line_no, col_no }),
    {
        let w0 = Insn(0);
        let w1 = w0.with_bits(8, 12, file_id as u64);
        let w2 = w1.with_bits(20, 24, line_no as u64);
        let w3 = w2.with_bits(44, 20, col_no as u64);
        proof {
            lemma_fields_facts(0, w3.0, 8, 12, file_id as u64);
            lemma_fields_facts(0, w3.0, 20, 24, line_no as u64);
            lemma_fields_facts(0, w3.0, 44, 20, col_no as u64);
            lemma_fields_facts(0, w3.0, 8, 8, 0);
            lemma_field_round_trip(w0.0, 8, 12, file_id as u64);
            lemma_field_keep(w1.0, 20, 24, line_no as u64, 8, 12);
            lemma_field_keep(w2.0, 44, 20, col_no as u64, 8, 12);
            lemma_field_keep(w0.0, 8, 12, file_id as u64, 20, 24);
            lemma_field_round_trip(w1.0, 20, 24, line_no as u64);
            lemma_field_keep(w2.0, 44, 20, col_no as u64, 20, 24);
            lemma_field_keep(w0.0, 8, 12, file_id as u64, 44, 20);
            lemma_field_keep(w1.0, 20, 24, line_no as u64, 44, 20);
            lemma_field_round_trip(w2.0, 44, 20, col_no as u64);
            lemma_field_keep(w0.0, 8, 12, file_id as u64, 0, 8);
            lemma_field_keep(w1.0, 20, 24, line_no as u64, 0, 8);
            lemma_field_keep(w2.0, 44, 20, col_no as u64, 0, 8);
        }
        w3
    }

    /// Encode a `breakpoint` instruction
    pub fn breakpoint() -> (r: Insn)
        ensures
            r.has_valid_opcode(),
            r.spec_opcode() == Opcode::breakpoint,
            breakpoint::spec_decode(r) == (breakpoint {  }),
    {
        let w0 = Insn(1);
        proof {
            lemma_fields_facts(1, w0.0, 8, 8, 0);
        }
        w0
    }

    /// Encode a `nop` instruction
    pub fn nop() -> (r: Insn)
        ensures
            r.has_valid_opcode(),
            r.spec_opcode() == Opcode::nop,
            nop::spec_decode(r) == (nop {  }),
            r.0 == opcode_code(Opcode::nop),
    {
        let w0 = Insn(2);
        proof {
            lemma_fields_facts(2, w0.0, 8, 8, 0);
        }
        w0
    }

    /// Encode a `load_imm32` instruction
    pub fn load_imm32(dst: u16, imm: i32) -> (r: Insn)
        ensures
            r.has_valid_opcode(),
            r.spec_opcode() == Opcode::load_imm32,
            load_imm32::spec_decode(r) == (load_imm32 { dst, imm }),
    {
        let w0 = Insn(3);
        let w1 = w0.with_bits(8, 16, dst as u64);
        let w2 = w1.with_bits(32, 32, imm as i64 as u64);
        proof {
            lemma_fields_facts(3, w2.0, 8, 16, dst as u64);
            lemma_fields_facts(3, w2.0, 32, 32, imm as i64 as u64);
            lemma_fields_facts(3, w2.0, 8, 8, 0);
            lemma_field_round_trip(w0.0, 8, 16, dst as u64);
            lemma_field_keep(w1.0, 32, 32, imm as i64 as u64, 8, 16);
            lemma_field_keep(w0.0, 8, 16, dst as u64, 32, 32);
            lemma_field_round_trip(w1.0, 32, 32, imm as i64 as u64);
            lemma_top_signed(w2.0, 32, imm as i64);
            lemma_field_keep(w0.0, 8, 16, dst as u64, 0, 8);
            lemma_field_keep(w1.0, 32, 32, imm as i64 as u64, 0, 8);
        }
        w2
    }

    /// Encode a `mov` instruction
    pub fn mov(dst: u16, src: u16) -> (r: Insn)
        ensures
            r.has_valid_opcode(),
            r.spec_opcode() == Opcode::mov,
            mov::spec_decode(r) == (mov { dst, src }),
    {
        let w0 = Insn(4);
        let w1 = w0.with_bits(8, 16, dst as u64);
        let w2 = w1.with_bits(48, 16, src as u64);
        proof {
            lemma_fields_facts(4, w2.0, 8, 16, dst as u64);
            lemma_fields_facts(4, w2.0, 48, 16, src as u64);
            lemma_fields_facts(4, w2.0, 8, 8, 0);
            lemma_field_round_trip(w0.0, 8, 16, dst as u64);
            lemma_field_keep(w1.0, 48, 16, src as u64, 8, 16);
            lemma_field_keep(w0.0, 8, 16, dst as u64, 48, 16);
            lemma_field_round_trip(w1.0, 48, 16, src as u64);
            lemma_field_keep(w0.0, 8, 16, dst as u64, 0, 8);
            lemma_field_keep(w1.0, 48, 16, src as u64, 0, 8);
        }
        w2
    }

    /// Encode a `load_const` instruction
    pub fn load_const(dst: u16, slot: u32) -> (r: Insn)
        ensures
            r.has_valid_opcode(),
            r.spec_opcode() == Opcode::load_const,
            load_const::spec_decode(r) == (load_const { dst, slot }),
    {
        let w0 = Insn(5);
        let w1 = w0.with_bits(8, 16, dst as u64);
        let w2 = w1.with_bits(32, 32, slot as u64);
        proof {
            lemma_fields_facts(5, w2.0, 8, 16, dst as u64);
            lemma_fields_facts(5, w2.0, 32, 32, slot as u64);
            lemma_fields_facts(5, w2.0, 8, 8, 0);
            lemma_field_round_trip(w0.0, 8, 16, dst as u64);
            lemma_field_keep(w1.0, 32, 32, slot as u64, 8, 16);
            lemma_field_keep(w0.0, 8, 16, dst as u64, 32, 32);
            lemma_field_round_trip(w1.0, 32, 32, slot as u64);
            lemma_field_keep(w0.0, 8, 16, dst as u64, 0, 8);
            lemma_field_keep(w1.0, 32, 32, slot as u64, 0, 8);
        }
        w2
    }

    /// Encode a `get_global` instruction
    pub fn get_global(dst: u16, idx: u32) -> (r: Insn)
        ensures
            r.has_valid_opcode(),
            r.spec_opcode() == Opcode::get_global,
            get_global::spec_decode(r) == (get_global { dst, idx }),
    {
        let w0 = Insn(6);
        let w1 = w0.with_bits(8, 16, dst as u64);
        let w2 = w1.with_bits(32, 32, idx as u64);
        proof {
            lemma_fields_facts(6, w2.0, 8, 16, dst as u64);
            lemma_fields_facts(6, w2.0, 32, 32, idx as u64);
            lemma_fields_facts(6, w2.0, 8, 8, 0);
            lemma_field_round_trip(w0.0, 8, 16, dst as u64);
            lemma_field_keep(w1.0, 32, 32, idx as u64, 8, 16);
            lemma_field_keep(w0.0, 8, 16, dst as u64, 32, 32);
            lemma_field_round_trip(w1.0, 32, 32, idx as u64);
            lemma_field_keep(w0.0, 8, 16, dst as u64, 0, 8);
            lemma_field_keep(w1.0, 32, 32, idx as u64, 0, 8);
        }
        w2
    }

    /// Encode a `set_global` instruction
    pub fn set_global(src: u16, idx: u32) -> (r: Insn)
        ensures
            r.has_valid_opcode(),
            r.spec_opcode() == Opcode::set_global,
            set_global::spec_decode(r) == (set_global { src, idx }),
    {
        let w0 = Insn(7);
        let w1 = w0.with_bits(8, 16, src as u64);
        let w2 = w1.with_bits(32, 32, idx as u64);
        proof {
            lemma_fields_facts(7, w2.0, 8, 16, src as u64);
            lemma_fields_facts(7, w2.0, 32, 32, idx as u64);
            lemma_fields_facts(7, w2.0, 8, 8, 0);
            lemma_field_round_trip(w0.0, 8, 16, src as u64);
            lemma_field_keep(w1.0, 32, 32, idx as u64, 8, 16);
            lemma_field_keep(w0.0, 8, 16, src as u64, 32, 32);
            lemma_field_round_trip(w1.0, 32, 32, idx as u64);
            lemma_field_keep(w0.0, 8, 16, src as u64, 0, 8);
            lemma_field_keep(w1.0, 32, 32, idx as u64, 0, 8);
        }
        w2
    }

    /// Encode a `lshift` instruction
    pub fn lshift(dst: u16, a: u16, b: u16) -> (r: Insn)
        ensures
            r.has_valid_opcode(),
            r.spec_opcode() == Opcode::lshift,
            lshift::spec_decode(r) == (lshift { dst, a, b }),
    {
        let w0 = Insn(8);
        let w1 = w0.with_bits(8, 16, dst as u64);
        let w2 = w1.with_bits(24, 16, a as u64);
        let w3 = w2.with_bits(48, 16, b as u64);
        proof {
            lemma_fields_facts(8, w3.0, 8, 16, dst as u64);
            lemma_fields_facts(8, w3.0, 24, 16, a as u64);
            lemma_fields_facts(8, w3.0, 48, 16, b as u64);
            lemma_fields_facts(8, w3.0, 8, 8, 0);
            lemma_field_round_trip(w0.0, 8, 16, dst as u64);
            lemma_field_keep(w1.0, 24, 16, a as u64, 8, 16);
            lemma_field_keep(w2.0, 48, 16, b as u64, 8, 16);
            lemma_field_keep(w0.0, 8, 16, dst as u64, 24, 16);
            lemma_field_round_trip(w1.0, 24, 16, a as u64);
            lemma_field_keep(w2.0, 48, 16, b as u64, 24, 16);
            lemma_field_keep(w0.0, 8, 16, dst as u64, 48, 16);
            lemma_field_keep(w1.0, 24, 16, a as u64, 48, 16);
            lemma_field_round_trip(w2.0, 48, 16, b as u64);
            lemma_field_keep(w0.0, 8, 16, dst as u64, 0, 8);
            lemma_field_keep(w1.0, 24, 16, a as u64, 0, 8);
            lemma_field_keep(w2.0, 48, 16, b as u64, 0, 8);
        }
        w3
    }

    /// Encode a `rshift` instruction
    pub fn rshift(dst: u16, a: u16, b: u16) -> (r: Insn)
        ensures
            r.has_valid_opcode(),
            r.spec_opcode() == Opcode::rshift,
            rshift::spec_decode(r) == (rshift { dst, a, b }),
    {
        let w0 = Insn(9);
        let w1 = w0.with_bits(8, 16, dst as u64);
        let w2 = w1.with_bits(24, 16, a as u64);
        let w3 = w2.with_bits(48, 16, b as u64);
        proof {
            lemma_fields_facts(9, w3.0, 8, 16, dst as u64);
            lemma_fields_facts(9, w3.0, 24, 16, a as u64);
            lemma_fields_facts(9, w3.0, 48, 16, b as u64);
            lemma_fields_facts(9, w3.0, 8, 8, 0);
            lemma_field_round_trip(w0.0, 8, 16, dst as u64);
            lemma_field_keep(w1.0, 24, 16, a as u64, 8, 16);
            lemma_field_keep(w2.0, 48, 16, b as u64, 8, 16);
            lemma_field_keep(w0.0, 8, 16, dst as u64, 24, 16);
            lemma_field_round_trip(w1.0, 24, 16, a as u64);
            lemma_field_keep(w2.0, 48, 16, b as u64, 24, 16);
            lemma_field_keep(w0.0, 8, 16, dst as u64, 48, 16);
            lemma_field_keep(w1.0, 24, 16, a as u64, 48, 16);
            lemma_field_round_trip(w2.0, 48, 16, b as u64);
            lemma_field_keep(w0.0, 8, 16, dst as u64, 0, 8);
            lemma_field_keep(w1.0, 24, 16, a as u64, 0, 8);
            lemma_field_keep(w2.0, 48, 16, b as u64, 0, 8);
        }
        w3
    }

    /// Encode a `bit_and` instruction
    pub fn bit_and(dst: u16, a: u16, b: u16) -> (r: Insn)
        ensures
            r.has_valid_opcode(),
            r.spec_opcode() == Opcode::bit_and,
            bit_and::spec_decode(r) == (bit_and { dst, a, b }),
    {
        let w0 = Insn(10);
        let w1 = w0.with_bits(8, 16, dst as u64);
        let w2 = w1.with_bits(24, 16, a as u64);
        let w3 = w2.with_bits(48, 16, b as u64);
        proof {
            lemma_fields_facts(10, w3.0, 8, 16, dst as u64);
            lemma_fields_facts(10, w3.0, 24, 16, a as u64);
            lemma_fields_facts(10, w3.0, 48, 16, b as u64);
            lemma_fields_facts(10, w3.0, 8, 8, 0);
            lemma_field_round_trip(w0.0, 8, 16, dst as u64);
            lemma_field_keep(w1.0, 24, 16, a as u64, 8, 16);
            lemma_field_keep(w2.0, 48, 16, b as u64, 8, 16);
            lemma_field_keep(w0.0, 8, 16, dst as u64, 24, 16);
            lemma_field_round_trip(w1.0, 24, 16, a as u64);
            lemma_field_keep(w2.0, 48, 16, b as u64, 24, 16);
            lemma_field_keep(w0.0, 8, 16, dst as u64, 48, 16);
            lemma_field_keep(w1.0, 24, 16, a as u64, 48, 16);
            lemma_field_round_trip(w2.0, 48, 16, b as u64);
            lemma_field_keep(w0.0, 8, 16, dst as u64, 0, 8);
            lemma_field_keep(w1.0, 24, 16, a as u64, 0, 8);
            lemma_field_keep(w2.0, 48, 16, b as u64, 0, 8);
        }
        w3
    }

    /// Encode a `bit_or` instruction
    pub fn bit_or(dst: u16, a: u16, b: u16) -> (r: Insn)
        ensures
            r.has_valid_opcode(),
            r.spec_opcode() == Opcode::bit_or,
            bit_or::spec_decode(r) == (bit_or { dst, a, b }),
    {
        let w0 = Insn(11);
        let w1 = w0.with_bits(8, 16, dst as u64);
        let w2 = w1.with_bits(24, 16, a as u64);
        let w3 = w2.with_bits(48, 16, b as u64);
        proof {
            lemma_fields_facts(11, w3.0, 8, 16, dst as u64);
            lemma_fields_facts(11, w3.0, 24, 16, a as u64);
            lemma_fields_facts(11, w3.0, 48, 16, b as u64);
            lemma_fields_facts(11, w3.0, 8, 8, 0);
            lemma_field_round_trip(w0.0, 8, 16, dst as u64);
            lemma_field_keep(w1.0, 24, 16, a as u64, 8, 16);
            lemma_field_keep(w2.0, 48, 16, b as u64, 8, 16);
            lemma_field_keep(w0.0, 8, 16, dst as u64, 24, 16);
            lemma_field_round_trip(w1.0, 24, 16, a as u64);
            lemma_field_keep(w2.0, 48, 16, b as u64, 24, 16);
            lemma_field_keep(w0.0, 8, 16, dst as u64, 48, 16);
            lemma_field_keep(w1.0, 24, 16, a as u64, 48, 16);
            lemma_field_round_trip(w2.0, 48, 16, b as u64);
            lemma_field_keep(w0.0, 8, 16, dst as u64, 0, 8);
            lemma_field_keep(w1.0, 24, 16, a as u64, 0, 8);
            lemma_field_keep(w2.0, 48, 16, b as u64, 0, 8);
        }
        w3
    }

    /// Encode a `bit_xor` instruction
    pub fn bit_xor(dst: u16, a: u16, b: u16) -> (r: Insn)
        ensures
            r.has_valid_opcode(),
            r.spec_opcode() == Opcode::bit_xor,
            bit_xor::spec_decode(r) == (bit_xor { dst, a, b }),
    {
        let w0 = Insn(12);
        let w1 = w0.with_bits(8, 16, dst as u64);
        let w2 = w1.with_bits(24, 16, a as u64);
        let w3 = w2.with_bits(48, 16, b as u64);
        proof {
            lemma_fields_facts(12, w3.0, 8, 16, dst as u64);
            lemma_fields_facts(12, w3.0, 24, 16, a as u64);
            lemma_fields_facts(12, w3.0, 48, 16, b as u64);
            lemma_fields_facts(12, w3.0, 8, 8, 0);
            lemma_field_round_trip(w0.0, 8, 16, dst as u64);
            lemma_field_keep(w1.0, 24, 16, a as u64, 8, 16);
            lemma_field_keep(w2.0, 48, 16, b as u64, 8, 16);
            lemma_field_keep(w0.0, 8, 16, dst as u64, 24, 16);
            lemma_field_round_trip(w1.0, 24, 16, a as u64);
            lemma_field_keep(w2.0, 48, 16, b as u64, 24, 16);
            lemma_field_keep(w0.0, 8, 16, dst as u64, 48, 16);
            lemma_field_keep(w1.0, 24, 16, a as u64, 48, 16);
            lemma_field_round_trip(w2.0, 48, 16, b as u64);
            lemma_field_keep(w0.0, 8, 16, dst as u64, 0, 8);
            lemma_field_keep(w1.0, 24, 16, a as u64, 0, 8);
            lemma_field_keep(w2.0, 48, 16, b as u64, 0, 8);
        }
        w3
    }

    /// Encode a `bit_not` instruction
    pub fn bit_not(dst: u16, src: u16) -> (r: Insn)
        ensures
            r.has_valid_opcode(),
            r.spec_opcode() == Opcode::bit_not,
            bit_not::spec_decode(r) == (bit_not { dst, src }),
    {
        let w0 = Insn(13);
        let w1 = w0.with_bits(8, 16, dst as u64);
        let w2 = w1.with_bits(48, 16, src as u64);
        proof {
            lemma_fields_facts(13, w2.0, 8, 16, dst as u64);
            lemma_fields_facts(13, w2.0, 48, 16, src as u64);
            lemma_fields_facts(13, w2.0, 8, 8, 0);
            lemma_field_round_trip(w0.0, 8, 16, dst as u64);
            lemma_field_keep(w1.0, 48, 16, src as u64, 8, 16);
            lemma_field_keep(w0.0, 8, 16, dst as u64, 48, 16);
            lemma_field_round_trip(w1.0, 48, 16, src as u64);
            lemma_field_keep(w0.0, 8, 16, dst as u64, 0, 8);
            lemma_field_keep(w1.0, 48, 16, src as u64, 0, 8);
        }
        w2
    }

    /// Encode a `add` instruction
    pub fn add(dst: u16, a: u16, b: u16) -> (r: Insn)
        ensures
            r.has_valid_opcode(),
            r.spec_opcode() == Opcode::add,
            add::spec_decode(r) == (add { dst, a, b }),
    {
        let w0 = Insn(14);
        let w1 = w0.with_bits(8, 16, dst as u64);
        let w2 = w1.with_bits(24, 16, a as u64);
        let w3 = w2.with_bits(48, 16, b as u64);
        proof {
            lemma_fields_facts(14, w3.0, 8, 16, dst as u64);
            lemma_fields_facts(14, w3.0, 24, 16, a as u64);
            lemma_fields_facts(14, w3.0, 48, 16, b as u64);
            lemma_fields_facts(14, w3.0, 8, 8, 0);
            lemma_field_round_trip(w0.0, 8, 16, dst as u64);
            lemma_field_keep(w1.0, 24, 16, a as u64, 8, 16);
            lemma_field_keep(w2.0, 48, 16, b as u64, 8, 16);
            lemma_field_keep(w0.0, 8, 16, dst as u64, 24, 16);
            lemma_field_round_trip(w1.0, 24, 16, a as u64);
            lemma_field_keep(w2.0, 48, 16, b as u64, 24, 16);
            lemma_field_keep(w0.0, 8, 16, dst as u64, 48, 16);
            lemma_field_keep(w1.0, 24, 16, a as u64, 48, 16);
            lemma_field_round_trip(w2.0, 48, 16, b as u64);
            lemma_field_keep(w0.0, 8, 16, dst as u64, 0, 8);
            lemma_field_keep(w1.0, 24, 16, a as u64, 0, 8);
            lemma_field_keep(w2.0, 48, 16, b as u64, 0, 8);
        }
        w3
    }

    /// Encode a `sub` instruction
    pub fn sub(dst: u16, a: u16, b: u16) -> (r: Insn)
        ensures
            r.has_valid_opcode(),
            r.spec_opcode() == Opcode::sub,
            sub::spec_decode(r) == (sub { dst, a, b }),
    {
        let w0 = Insn(15);
        let w1 = w0.with_bits(8, 16, dst as u64);
        let w2 = w1.with_bits(24, 16, a as u64);
        let w3 = w2.with_bits(48, 16, b as u64);
        proof {
            lemma_fields_facts(15, w3.0, 8, 16, dst as u64);
            lemma_fields_facts(15, w3.0, 24, 16, a as u64);
            lemma_fields_facts(15, w3.0, 48, 16, b as u64);
            lemma_fields_facts(15, w3.0, 8, 8, 0);
            lemma_field_round_trip(w0.0, 8, 16, dst as u64);
            lemma_field_keep(w1.0, 24, 16, a as u64, 8, 16);
            lemma_field_keep(w2.0, 48, 16, b as u64, 8, 16);
            lemma_field_keep(w0.0, 8, 16, dst as u64, 24, 16);
            lemma_field_round_trip(w1.0, 24, 16, a as u64);
            lemma_field_keep(w2.0, 48, 16, b as u64, 24, 16);
            lemma_field_keep(w0.0, 8, 16, dst as u64, 48, 16);
            lemma_field_keep(w1.0, 24, 16, a as u64, 48, 16);
            lemma_field_round_trip(w2.0, 48, 16, b as u64);
            lemma_field_keep(w0.0, 8, 16, dst as u64, 0, 8);
            lemma_field_keep(w1.0, 24, 16, a as u64, 0, 8);
            lemma_field_keep(w2.0, 48, 16, b as u64, 0, 8);
        }
        w3
    }

    /// Encode a `mul` instruction
    pub fn mul(dst: u16, a: u16, b: u16) -> (r: Insn)
        ensures
            r.has_valid_opcode(),
            r.spec_opcode() == Opcode::mul,
            mul::spec_decode(r) == (mul { dst, a, b }),
    {
        let w0 = Insn(16);
        let w1 = w0.with_bits(8, 16, dst as u64);
        let w2 = w1.with_bits(24, 16, a as u64);
        let w3 = w2.with_bits(48, 16, b as u64);
        proof {
            lemma_fields_facts(16, w3.0, 8, 16, dst as u64);
            lemma_fields_facts(16, w3.0, 24, 16, a as u64);
            lemma_fields_facts(16, w3.0, 48, 16, b as u64);
            lemma_fields_facts(16, w3.0, 8, 8, 0);
            lemma_field_round_trip(w0.0, 8, 16, dst as u64);
            lemma_field_keep(w1.0, 24, 16, a as u64, 8, 16);
            lemma_field_keep(w2.0, 48, 16, b as u64, 8, 16);
            lemma_field_keep(w0.0, 8, 16, dst as u64, 24, 16);
            lemma_field_round_trip(w1.0, 24, 16, a as u64);
            lemma_field_keep(w2.0, 48, 16, b as u64, 24, 16);
            lemma_field_keep(w0.0, 8, 16, dst as u64, 48, 16);
            lemma_field_keep(w1.0, 24, 16, a as u64, 48, 16);
            lemma_field_round_trip(w2.0, 48, 16, b as u64);
            lemma_field_keep(w0.0, 8, 16, dst as u64, 0, 8);
            lemma_field_keep(w1.0, 24, 16, a as u64, 0, 8);
            lemma_field_keep(w2.0, 48, 16, b as u64, 0, 8);
        }
        w3
    }

    /// Encode a `div` instruction
    pub fn div(dst: u16, a: u16, b: u16) -> (r: Insn)
        ensures
            r.has_valid_opcode(),
            r.spec_opcode() == Opcode::div,
            div::spec_decode(r) == (div { dst, a, b }),
    {
        let w0 = Insn(17);
        let w1 = w0.with_bits(8, 16, dst as u64);
        let w2 = w1.with_bits(24, 16, a as u64);
        let w3 = w2.with_bits(48, 16, b as u64);
        proof {
            lemma_fields_facts(17, w3.0, 8, 16, dst as u64);
            lemma_fields_facts(17, w3.0, 24, 16, a as u64);
            lemma_fields_facts(17, w3.0, 48, 16, b as u64);
            lemma_fields_facts(17, w3.0, 8, 8, 0);
            lemma_field_round_trip(w0.0, 8, 16, dst as u64);
            lemma_field_keep(w1.0, 24, 16, a as u64, 8, 16);
            lemma_field_keep(w2.0, 48, 16, b as u64, 8, 16);
            lemma_field_keep(w0.0, 8, 16, dst as u64, 24, 16);
            lemma_field_round_trip(w1.0, 24, 16, a as u64);
            lemma_field_keep(w2.0, 48, 16, b as u64, 24, 16);
            lemma_field_keep(w0.0, 8, 16, dst as u64, 48, 16);
            lemma_field_keep(w1.0, 24, 16, a as u64, 48, 16);
            lemma_field_round_trip(w2.0, 48, 16, b as u64);
            lemma_field_keep(w0.0, 8, 16, dst as u64, 0, 8);
            lemma_field_keep(w1.0, 24, 16, a as u64, 0, 8);
            lemma_field_keep(w2.0, 48, 16, b as u64, 0, 8);
        }
        w3
    }

    /// Encode a `div_int` instruction
    pub fn div_int(dst: u16, a: u16, b: u16) -> (r: Insn)
        ensures
            r.has_valid_opcode(),
            r.spec_opcode() == Opcode::div_int,
            div_int::spec_decode(r) == (div_int { dst, a, b }),
    {
        let w0 = Insn(18);
        let w1 = w0.with_bits(8, 16, dst as u64);
        let w2 = w1.with_bits(24, 16, a as u64);
        let w3 = w2.with_bits(48, 16, b as u64);
        proof {
            lemma_fields_facts(18, w3.0, 8, 16, dst as u64);
            lemma_fields_facts(18, w3.0, 24, 16, a as u64);
            lemma_fields_facts(18, w3.0, 48, 16, b as u64);
            lemma_fields_facts(18, w3.0, 8, 8, 0);
            lemma_field_round_trip(w0.0, 8, 16, dst as u64);
            lemma_field_keep(w1.0, 24, 16, a as u64, 8, 16);
            lemma_field_keep(w2.0, 48, 16, b as u64, 8, 16);
            lemma_field_keep(w0.0, 8, 16, dst as u64, 24, 16);
            lemma_field_round_trip(w1.0, 24, 16, a as u64);
            lemma_field_keep(w2.0, 48, 16, b as u64, 24, 16);
            lemma_field_keep(w0.0, 8, 16, dst as u64, 48, 16);
            lemma_field_keep(w1.0, 24, 16, a as u64, 48, 16);
            lemma_field_round_trip(w2.0, 48, 16, b as u64);
            lemma_field_keep(w0.0, 8, 16, dst as u64, 0, 8);
            lemma_field_keep(w1.0, 24, 16, a as u64, 0, 8);
            lemma_field_keep(w2.0, 48, 16, b as u64, 0, 8);
        }
        w3
    }

    /// Encode a `modulo` instruction
    pub fn modulo(dst: u16, a: u16, b: u16) -> (r: Insn)
        ensures
            r.has_valid_opcode(),
            r.spec_opcode() == Opcode::modulo,
            modulo::spec_decode(r) == (modulo { dst, a, b }),
    {
        let w0 = Insn(19);
        let w1 = w0.with_bits(8, 16, dst as u64);
        let w2 = w1.with_bits(24, 16, a as u64);
        let w3 = w2.with_bits(48, 16, b as u64);
        proof {
            lemma_fields_facts(19, w3.0, 8, 16, dst as u64);
            lemma_fields_facts(19, w3.0, 24, 16, a as u64);
            lemma_fields_facts(19, w3.0, 48, 16, b as u64);
            lemma_fields_facts(19, w3.0, 8, 8, 0);
            lemma_field_round_trip(w0.0, 8, 16, dst as u64);
            lemma_field_keep(w1.0, 24, 16, a as u64, 8, 16);
            lemma_field_keep(w2.0, 48, 16, b as u64, 8, 16);
            lemma_field_keep(w0.0, 8, 16, dst as u64, 24, 16);
            lemma_field_round_trip(w1.0, 24, 16, a as u64);
            lemma_field_keep(w2.0, 48, 16, b as u64, 24, 16);
            lemma_field_keep(w0.0, 8, 16, dst as u64, 48, 16);
            lemma_field_keep(w1.0, 24, 16, a as u64, 48, 16);
            lemma_field_round_trip(w2.0, 48, 16, b as u64);
            lemma_field_keep(w0.0, 8, 16, dst as u64, 0, 8);
            lemma_field_keep(w1.0, 24, 16, a as u64, 0, 8);
            lemma_field_keep(w2.0, 48, 16, b as u64, 0, 8);
        }
        w3
    }

    /// Encode a `add_imm16` instruction
    pub fn add_imm16(dst: u16, a: u16, imm: i16) -> (r: Insn)
        ensures
            r.has_valid_opcode(),
            r.spec_opcode() == Opcode::add_imm16,
            add_imm16::spec_decode(r) == (add_imm16 { dst, a, imm }),
    {
        let w0 = Insn(20);
        let w1 = w0.with_bits(8, 16, dst as u64);
        let w2 = w1.with_bits(24, 16, a as u64);
        let w3 = w2.with_bits(48, 16, imm as i64 as u64);
        proof {
            lemma_fields_facts(20, w3.0, 8, 16, dst as u64);
            lemma_fields_facts(20, w3.0, 24, 16, a as u64);
            lemma_fields_facts(20, w3.0, 48, 16, imm as i64 as u64);
            lemma_fields_facts(20, w3.0, 8, 8, 0);
            lemma_field_round_trip(w0.0, 8, 16, dst as u64);
            lemma_field_keep(w1.0, 24, 16, a as u64, 8, 16);
            lemma_field_keep(w2.0, 48, 16, imm as i64 as u64, 8, 16);
            lemma_field_keep(w0.0, 8, 16, dst as u64, 24, 16);
            lemma_field_round_trip(w1.0, 24, 16, a as u64);
            lemma_field_keep(w2.0, 48, 16, imm as i64 as u64, 24, 16);
            lemma_field_keep(w0.0, 8, 16, dst as u64, 48, 16);
            lemma_field_keep(w1.0, 24, 16, a as u64, 48, 16);
            lemma_field_round_trip(w2.0, 48, 16, imm as i64 as u64);
            lemma_top_signed(w3.0, 16, imm as i64);
            lemma_field_keep(w0.0, 8, 16, dst as u64, 0, 8);
            lemma_field_keep(w1.0, 24, 16, a as u64, 0, 8);
            lemma_field_keep(w2.0, 48, 16, imm as i64 as u64, 0, 8);
        }
        w3
    }

    /// Encode a `sub_imm16` instruction
    pub fn sub_imm16(dst: u16, a: u16, imm: i16) -> (r: Insn)
        ensures
            r.has_valid_opcode(),
            r.spec_opcode() == Opcode::sub_imm16,
            sub_imm16::spec_decode(r) == (sub_imm16 { dst, a, imm }),
    {
        let w0 = Insn(21);
        let w1 = w0.with_bits(8, 16, dst as u64);
        let w2 = w1.with_bits(24, 16, a as u64);
        let w3 = w2.with_bits(48, 16, imm as i64 as u64);
        proof {
            lemma_fields_facts(21, w3.0, 8, 16, dst as u64);
            lemma_fields_facts(21, w3.0, 24, 16, a as u64);
            lemma_fields_facts(21, w3.0, 48, 16, imm as i64 as u64);
            lemma_fields_facts(21, w3.0, 8, 8, 0);
            lemma_field_round_trip(w0.0, 8, 16, dst as u64);
            lemma_field_keep(w1.0, 24, 16, a as u64, 8, 16);
            lemma_field_keep(w2.0, 48, 16, imm as i64 as u64, 8, 16);
            lemma_field_keep(w0.0, 8, 16, dst as u64, 24, 16);
            lemma_field_round_trip(w1.0, 24, 16, a as u64);
            lemma_field_keep(w2.0, 48, 16, imm as i64 as u64, 24, 16);
            lemma_field_keep(w0.0, 8, 16, dst as u64, 48, 16);
            lemma_field_keep(w1.0, 24, 16, a as u64, 48, 16);
            lemma_field_round_trip(w2.0, 48, 16, imm as i64 as u64);
            lemma_top_signed(w3.0, 16, imm as i64);
            lemma_field_keep(w0.0, 8, 16, dst as u64, 0, 8);
            lemma_field_keep(w1.0, 24, 16, a as u64, 0, 8);
            lemma_field_keep(w2.0, 48, 16, imm as i64 as u64, 0, 8);
        }
        w3
    }

    /// Encode a `mul_imm16` instruction
    pub fn mul_imm16(dst: u16, a: u16, imm: i16) -> (r: Insn)
        ensures
            r.has_valid_opcode(),
            r.spec_opcode() == Opcode::mul_imm16,
            mul_imm16::spec_decode(r) == (mul_imm16 { dst, a, imm }),
    {
        let w0 = Insn(22);
        let w1 = w0.with_bits(8, 16, dst as u64);
        let w2 = w1.with_bits(24, 16, a as u64);
        let w3 = w2.with_bits(48, 16, imm as i64 as u64);
        proof {
            lemma_fields_facts(22, w3.0, 8, 16, dst as u64);
            lemma_fields_facts(22, w3.0, 24, 16, a as u64);
            lemma_fields_facts(22, w3.0, 48, 16, imm as i64 as u64);
            lemma_fields_facts(22, w3.0, 8, 8, 0);
            lemma_field_round_trip(w0.0, 8, 16, dst as u64);
            lemma_field_keep(w1.0, 24, 16, a as u64, 8, 16);
            lemma_field_keep(w2.0, 48, 16, imm as i64 as u64, 8, 16);
            lemma_field_keep(w0.0, 8, 16, dst as u64, 24, 16);
            lemma_field_round_trip(w1.0, 24, 16, a as u64);
            lemma_field_keep(w2.0, 48, 16, imm as i64 as u64, 24, 16);
            lemma_field_keep(w0.0, 8, 16, dst as u64, 48, 16);
            lemma_field_keep(w1.0, 24, 16, a as u64, 48, 16);
            lemma_field_round_trip(w2.0, 48, 16, imm as i64 as u64);
            lemma_top_signed(w3.0, 16, imm as i64);
            lemma_field_keep(w0.0, 8, 16, dst as u64, 0, 8);
            lemma_field_keep(w1.0, 24, 16, a as u64, 0, 8);
            lemma_field_keep(w2.0, 48, 16, imm as i64 as u64, 0, 8);
        }
        w3
    }

    /// Encode a `not` instruction
    pub fn not(dst: u16, src: u16) -> (r: Insn)
        ensures
            r.has_valid_opcode(),
            r.spec_opcode() == Opcode::not,
            not::spec_decode(r) == (not { dst, src }),
    {
        let w0 = Insn(23);
        let w1 = w0.with_bits(8, 16, dst as u64);
        let w2 = w1.with_bits(48, 16, src as u64);
        proof {
            lemma_fields_facts(23, w2.0, 8, 16, dst as u64);
            lemma_fields_facts(23, w2.0, 48, 16, src as u64);
            lemma_fields_facts(23, w2.0, 8, 8, 0);
            lemma_field_round_trip(w0.0, 8, 16, dst as u64);
            lemma_field_keep(w1.0, 48, 16, src as u64, 8, 16);
            lemma_field_keep(w0.0, 8, 16, dst as u64, 48, 16);
            lemma_field_round_trip(w1.0, 48, 16, src as u64);
            lemma_field_keep(w0.0, 8, 16, dst as u64, 0, 8);
            lemma_field_keep(w1.0, 48, 16, src as u64, 0, 8);
        }
        w2
    }

    /// Encode a `clos_new` instruction
    pub fn clos_new(dst: u16, fun_id: u32, num_slots: u16) -> (r: Insn)
        requires
            fun_id <= 0xFFFFFF,
            num_slots <= 0xFFF,
        ensures
            r.has_valid_opcode(),
            r.spec_opcode() == Opcode::clos_new,
            clos_new::spec_decode(r) == (clos_new { dst, fun_id, num_slots }),
    {
        let w0 = Insn(24);
        let w1 = w0.with_bits(8, 16, dst as u64);
        let w2 = w1.with_bits(24, 24, fun_id as u64);
        let w3 = w2.with_bits(52, 12, num_slots as u64);
        proof {
            lemma_fields_facts(24, w3.0, 8, 16, dst as u64);
            lemma_fields_facts(24, w3.0, 24, 24, fun_id as u64);
            lemma_fields_facts(24, w3.0, 52, 12, num_slots as u64);
            lemma_fields_facts(24, w3.0, 8, 8, 0);
            lemma_field_round_trip(w0.0, 8, 16, dst as u64);
            lemma_field_keep(w1.0, 24, 24, fun_id as u64, 8, 16);
            lemma_field_keep(w2.0, 52, 12, num_slots as u64, 8, 16);
            lemma_field_keep(w0.0, 8, 16, dst as u64, 24, 24);
            lemma_field_round_trip(w1.0, 24, 24, fun_id as u64);
            lemma_field_keep(w2.0, 52, 12, num_slots as u64, 24, 24);
            lemma_field_keep(w0.0, 8, 16, dst as u64, 52, 12);
            lemma_field_keep(w1.0, 24, 24, fun_id as u64, 52, 12);
            lemma_field_round_trip(w2.0, 52, 12, num_slots as u64);
            lemma_field_keep(w0.0, 8, 16, dst as u64, 0, 8);
            lemma_field_keep(w1.0, 24, 24, fun_id as u64, 0, 8);
            lemma_field_keep(w2.0, 52, 12, num_slots as u64, 0, 8);
        }
        w3
    }

    /// Encode a `clos_set` instruction
    pub fn clos_set(clos: u16, src: u16, idx: u16) -> (r: Insn)
        requires
            idx <= 0xFFF,
        ensures
            r.has_valid_opcode(),
            r.spec_opcode() == Opcode::clos_set,
            clos_set::spec_decode(r) == (clos_set { clos, src, idx }),
    {
        let w0 = Insn(25);
        let w1 = w0.with_bits(8, 16, clos as u64);
        let w2 = w1.with_bits(24, 16, src as u64);
        let w3 = w2.with_bits(52, 12, idx as u64);
        proof {
            lemma_fields_facts(25, w3.0, 8, 16, clos as u64);
            lemma_fields_facts(25, w3.0, 24, 16, src as u64);
            lemma_fields_facts(25, w3.0, 52, 12, idx as u64);
            lemma_fields_facts(25, w3.0, 8, 8, 0);
            lemma_field_round_trip(w0.0, 8, 16, clos as u64);
            lemma_field_keep(w1.0, 24, 16, src as u64, 8, 16);
            lemma_field_keep(w2.0, 52, 12, idx as u64, 8, 16);
            lemma_field_keep(w0.0, 8, 16, clos as u64, 24, 16);
            lemma_field_round_trip(w1.0, 24, 16, src as u64);
            lemma_field_keep(w2.0, 52, 12, idx as u64, 24, 16);
            lemma_field_keep(w0.0, 8, 16, clos as u64, 52, 12);
            lemma_field_keep(w1.0, 24, 16, src as u64, 52, 12);
            lemma_field_round_trip(w2.0, 52, 12, idx as u64);
            lemma_field_keep(w0.0, 8, 16, clos as u64, 0, 8);
            lemma_field_keep(w1.0, 24, 16, src as u64, 0, 8);
            lemma_field_keep(w2.0, 52, 12, idx as u64, 0, 8);
        }
        w3
    }

    /// Encode a `clos_get` instruction
    pub fn clos_get(dst: u16, idx: u16) -> (r: Insn)
        requires
            idx <= 0xFFF,
        ensures
            r.has_valid_opcode(),
            r.spec_opcode() == Opcode::clos_get,
            clos_get::spec_decode(r) == (clos_get { dst, idx }),
    {
        let w0 = Insn(26);
        let w1 = w0.with_bits(8, 16, dst as u64);
        let w2 = w1.with_bits(52, 12, idx as u64);
        proof {
            lemma_fields_facts(26, w2.0, 8, 16, dst as u64);
            lemma_fields_facts(26, w2.0, 52, 12, idx as u64);
            lemma_fields_facts(26, w2.0, 8, 8, 0);
            lemma_field_round_trip(w0.0, 8, 16, dst as u64);
            lemma_field_keep(w1.0, 52, 12, idx as u64, 8, 16);
            lemma_field_keep(w0.0, 8, 16, dst as u64, 52, 12);
            lemma_field_round_trip(w1.0, 52, 12, idx as u64);
            lemma_field_keep(w0.0, 8, 16, dst as u64, 0, 8);
            lemma_field_keep(w1.0, 52, 12, idx as u64, 0, 8);
        }
        w2
    }

    /// Encode a `cell_new` instruction
    pub fn cell_new(dst: u16) -> (r: Insn)
        ensures
            r.has_valid_opcode(),
            r.spec_opcode() == Opcode::cell_new,
            cell_new::spec_decode(r) == (cell_new { dst }),
    {
        let w0 = Insn(27);
        let w1 = w0.with_bits(48, 16, dst as u64);
        proof {
            lemma_fields_facts(27, w1.0, 48, 16, dst as u64);
            lemma_fields_facts(27, w1.0, 8, 8, 0);
            lemma_field_round_trip(w0.0, 48, 16, dst as u64);
            lemma_field_keep(w0.0, 48, 16, dst as u64, 0, 8);
        }
        w1
    }

    /// Encode a `cell_set` instruction
    pub fn cell_set(cell: u16, src: u16) -> (r: Insn)
        ensures
            r.has_valid_opcode(),
            r.spec_opcode() == Opcode::cell_set,
            cell_set::spec_decode(r) == (cell_set { cell, src }),
    {
        let w0 = Insn(28);
        let w1 = w0.with_bits(8, 16, cell as u64);
        let w2 = w1.with_bits(48, 16, src as u64);
        proof {
            lemma_fields_facts(28, w2.0, 8, 16, cell as u64);
            lemma_fields_facts(28, w2.0, 48, 16, src as u64);
            lemma_fields_facts(28, w2.0, 8, 8, 0);
            lemma_field_round_trip(w0.0, 8, 16, cell as u64);
            lemma_field_keep(w1.0, 48, 16, src as u64, 8, 16);
            lemma_field_keep(w0.0, 8, 16, cell as u64, 48, 16);
            lemma_field_round_trip(w1.0, 48, 16, src as u64);
            lemma_field_keep(w0.0, 8, 16, cell as u64, 0, 8);
            lemma_field_keep(w1.0, 48, 16, src as u64, 0, 8);
        }
        w2
    }

    /// Encode a `cell_get` instruction
    pub fn cell_get(dst: u16, cell: u16) -> (r: Insn)
        ensures
            r.has_valid_opcode(),
            r.spec_opcode() == Opcode::cell_get,
            cell_get::spec_decode(r) == (cell_get { dst, cell }),
    {
        let w0 = Insn(29);
        let w1 = w0.with_bits(8, 16, dst as u64);
        let w2 = w1.with_bits(48, 16, cell as u64);
        proof {
            lemma_fields_facts(29, w2.0, 8, 16, dst as u64);
            lemma_fields_facts(29, w2.0, 48, 16, cell as u64);
            lemma_fields_facts(29, w2.0, 8, 8, 0);
            lemma_field_round_trip(w0.0, 8, 16, dst as u64);
            lemma_field_keep(w1.0, 48, 16, cell as u64, 8, 16);
            lemma_field_keep(w0.0, 8, 16, dst as u64, 48, 16);
            lemma_field_round_trip(w1.0, 48, 16, cell as u64);
            lemma_field_keep(w0.0, 8, 16, dst as u64, 0, 8);
            lemma_field_keep(w1.0, 48, 16, cell as u64, 0, 8);
        }
        w2
    }

    /// Encode a `instanceof` instruction
    pub fn instanceof(dst: u16, val: u16, class_id: u32) -> (r: Insn)
        requires
            class_id <= 0xFFFFFF,
        ensures
            r.has_valid_opcode(),
            r.spec_opcode() == Opcode::instanceof,
            instanceof::spec_decode(r) == (instanceof { dst, val, class_id }),
    {
        let w0 = Insn(30);
        let w1 = w0.with_bits(8, 16, dst as u64);
        let w2 = w1.with_bits(24, 16, val as u64);
        let w3 = w2.with_bits(40, 24, class_id as u64);
        proof {
            lemma_fields_facts(30, w3.0, 8, 16, dst as u64);
            lemma_fields_facts(30, w3.0, 24, 16, val as u64);
            lemma_fields_facts(30, w3.0, 40, 24, class_id as u64);
            lemma_fields_facts(30, w3.0, 8, 8, 0);
            lemma_field_round_trip(w0.0, 8, 16, dst as u64);
            lemma_field_keep(w1.0, 24, 16, val as u64, 8, 16);
            lemma_field_keep(w2.0, 40, 24, class_id as u64, 8, 16);
            lemma_field_keep(w0.0, 8, 16, dst as u64, 24, 16);
            lemma_field_round_trip(w1.0, 24, 16, val as u64);
            lemma_field_keep(w2.0, 40, 24, class_id as u64, 24, 16);
            lemma_field_keep(w0.0, 8, 16, dst as u64, 40, 24);
            lemma_field_keep(w1.0, 24, 16, val as u64, 40, 24);
            lemma_field_round_trip(w2.0, 40, 24, class_id as u64);
            lemma_field_keep(w0.0, 8, 16, dst as u64, 0, 8);
            lemma_field_keep(w1.0, 24, 16, val as u64, 0, 8);
            lemma_field_keep(w2.0, 40, 24, class_id as u64, 0, 8);
        }
        w3
    }

    /// Encode a `get_field` instruction
    pub fn get_field(dst: u16, obj: u16, cache: u32) -> (r: Insn)
        requires
            cache <= 0xFFFFFF,
        ensures
            r.has_valid_opcode(),
            r.spec_opcode() == Opcode::get_field,
            get_field::spec_decode(r) == (get_field { dst, obj, cache }),
    {
        let w0 = Insn(31);
        let w1 = w0.with_bits(8, 16, dst as u64);
        let w2 = w1.with_bits(24, 16, obj as u64);
        let w3 = w2.with_bits(40, 24, cache as u64);
        proof {
            lemma_fields_facts(31, w3.0, 8, 16, dst as u64);
            lemma_fields_facts(31, w3.0, 24, 16, obj as u64);
            lemma_fields_facts(31, w3.0, 40, 24, cache as u64);
            lemma_fields_facts(31, w3.0, 8, 8, 0);
            lemma_field_round_trip(w0.0, 8, 16, dst as u64);
            lemma_field_keep(w1.0, 24, 16, obj as u64, 8, 16);
            lemma_field_keep(w2.0, 40, 24, cache as u64, 8, 16);
            lemma_field_keep(w0.0, 8, 16, dst as u64, 24, 16);
            lemma_field_round_trip(w1.0, 24, 16, obj as u64);
            lemma_field_keep(w2.0, 40, 24, cache as u64, 24, 16);
            lemma_field_keep(w0.0, 8, 16, dst as u64, 40, 24);
            lemma_field_keep(w1.0, 24, 16, obj as u64, 40, 24);
            lemma_field_round_trip(w2.0, 40, 24, cache as u64);
            lemma_field_keep(w0.0, 8, 16, dst as u64, 0, 8);
            lemma_field_keep(w1.0, 24, 16, obj as u64, 0, 8);
            lemma_field_keep(w2.0, 40, 24, cache as u64, 0, 8);
        }
        w3
    }

    /// Encode a `set_field` instruction
    pub fn set_field(obj: u16, src: u16, cache: u32) -> (r: Insn)
        requires
            cache <= 0xFFFFFF,
        ensures
            r.has_valid_opcode(),
            r.spec_opcode() == Opcode::set_field,
            set_field::spec_decode(r) == (set_field { obj, src, cache }),
    {
        let w0 = Insn(32);
        let w1 = w0.with_bits(8, 16, obj as u64);
        let w2 = w1.with_bits(24, 16, src as u64);
        let w3 = w2.with_bits(40, 24, cache as u64);
        proof {
            lemma_fields_facts(32, w3.0, 8, 16, obj as u64);
            lemma_fields_facts(32, w3.0, 24, 16, src as u64);
            lemma_fields_facts(32, w3.0, 40, 24, cache as u64);
            lemma_fields_facts(32, w3.0, 8, 8, 0);
            lemma_field_round_trip(w0.0, 8, 16, obj as u64);
            lemma_field_keep(w1.0, 24, 16, src as u64, 8, 16);
            lemma_field_keep(w2.0, 40, 24, cache as u64, 8, 16);
            lemma_field_keep(w0.0, 8, 16, obj as u64, 24, 16);
            lemma_field_round_trip(w1.0, 24, 16, src as u64);
            lemma_field_keep(w2.0, 40, 24, cache as u64, 24, 16);
            lemma_field_keep(w0.0, 8, 16, obj as u64, 40, 24);
            lemma_field_keep(w1.0, 24, 16, src as u64, 40, 24);
            lemma_field_round_trip(w2.0, 40, 24, cache as u64);
            lemma_field_keep(w0.0, 8, 16, obj as u64, 0, 8);
            lemma_field_keep(w1.0, 24, 16, src as u64, 0, 8);
            lemma_field_keep(w2.0, 40, 24, cache as u64, 0, 8);
        }
        w3
    }

    /// Encode a `get_index` instruction
    pub fn get_index(dst: u16, arr: u16, idx: u16) -> (r: Insn)
        ensures
            r.has_valid_opcode(),
            r.spec_opcode() == Opcode::get_index,
            get_index::spec_decode(r) == (get_index { dst, arr, idx }),
    {
        let w0 = Insn(33);
        let w1 = w0.with_bits(8, 16, dst as u64);
        let w2 = w1.with_bits(24, 16, arr as u64);
        let w3 = w2.with_bits(48, 16, idx as u64);
        proof {
            lemma_fields_facts(33, w3.0, 8, 16, dst as u64);
            lemma_fields_facts(33, w3.0, 24, 16, arr as u64);
            lemma_fields_facts(33, w3.0, 48, 16, idx as u64);
            lemma_fields_facts(33, w3.0, 8, 8, 0);
            lemma_field_round_trip(w0.0, 8, 16, dst as u64);
            lemma_field_keep(w1.0, 24, 16, arr as u64, 8, 16);
            lemma_field_keep(w2.0, 48, 16, idx as u64, 8, 16);
            lemma_field_keep(w0.0, 8, 16, dst as u64, 24, 16);
            lemma_field_round_trip(w1.0, 24, 16, arr as u64);
            lemma_field_keep(w2.0, 48, 16, idx as u64, 24, 16);
            lemma_field_keep(w0.0, 8, 16, dst as u64, 48, 16);
            lemma_field_keep(w1.0, 24, 16, arr as u64, 48, 16);
            lemma_field_round_trip(w2.0, 48, 16, idx as u64);
            lemma_field_keep(w0.0, 8, 16, dst as u64, 0, 8);
            lemma_field_keep(w1.0, 24, 16, arr as u64, 0, 8);
            lemma_field_keep(w2.0, 48, 16, idx as u64, 0, 8);
        }
        w3
    }

    /// Encode a `set_index` instruction
    pub fn set_index(arr: u16, idx: u16, src: u16) -> (r: Insn)
        ensures
            r.has_valid_opcode(),
            r.spec_opcode() == Opcode::set_index,
            set_index::spec_decode(r) == (set_index { arr, idx, src }),
    {
        let w0 = Insn(34);
        let w1 = w0.with_bits(8, 16, arr as u64);
        let w2 = w1.with_bits(24, 16, idx as u64);
        let w3 = w2.with_bits(48, 16, src as u64);
        proof {
            lemma_fields_facts(34, w3.0, 8, 16, arr as u64);
            lemma_fields_facts(34, w3.0, 24, 16, idx as u64);
            lemma_fields_facts(34, w3.0, 48, 16, src as u64);
            lemma_fields_facts(34, w3.0, 8, 8, 0);
            lemma_field_round_trip(w0.0, 8, 16, arr as u64);
            lemma_field_keep(w1.0, 24, 16, idx as u64, 8, 16);
            lemma_field_keep(w2.0, 48, 16, src as u64, 8, 16);
            lemma_field_keep(w0.0, 8, 16, arr as u64, 24, 16);
            lemma_field_round_trip(w1.0, 24, 16, idx as u64);
            lemma_field_keep(w2.0, 48, 16, src as u64, 24, 16);
            lemma_field_keep(w0.0, 8, 16, arr as u64, 48, 16);
            lemma_field_keep(w1.0, 24, 16, idx as u64, 48, 16);
            lemma_field_round_trip(w2.0, 48, 16, src as u64);
            lemma_field_keep(w0.0, 8, 16, arr as u64, 0, 8);
            lemma_field_keep(w1.0, 24, 16, idx as u64, 0, 8);
            lemma_field_keep(w2.0, 48, 16, src as u64, 0, 8);
        }
        w3
    }

    /// Encode a `dict_new` instruction
    pub fn dict_new(dst: u16) -> (r: Insn)
        ensures
            r.has_valid_opcode(),
            r.spec_opcode() == Opcode::dict_new,
            dict_new::spec_decode(r) == (dict_new { dst }),
    {
        let w0 = Insn(35);
        let w1 = w0.with_bits(48, 16, dst as u64);
        proof {
            lemma_fields_facts(35, w1.0, 48, 16, dst as u64);
            lemma_fields_facts(35, w1.0, 8, 8, 0);
            lemma_field_round_trip(w0.0, 48, 16, dst as u64);
            lemma_field_keep(w0.0, 48, 16, dst as u64, 0, 8);
        }
        w1
    }

    /// Encode a `arr_new` instruction
    pub fn arr_new(dst: u16, capacity: u32) -> (r: Insn)
        ensures
            r.has_valid_opcode(),
            r.spec_opcode() == Opcode::arr_new,
            arr_new::spec_decode(r) == (arr_new { dst, capacity }),
    {
        let w0 = Insn(36);
        let w1 = w0.with_bits(8, 16, dst as u64);
        let w2 = w1.with_bits(32, 32, capacity as u64);
        proof {
            lemma_fields_facts(36, w2.0, 8, 16, dst as u64);
            lemma_fields_facts(36, w2.0, 32, 32, capacity as u64);
            lemma_fields_facts(36, w2.0, 8, 8, 0);
            lemma_field_round_trip(w0.0, 8, 16, dst as u64);
            lemma_field_keep(w1.0, 32, 32, capacity as u64, 8, 16);
            lemma_field_keep(w0.0, 8, 16, dst as u64, 32, 32);
            lemma_field_round_trip(w1.0, 32, 32, capacity as u64);
            lemma_field_keep(w0.0, 8, 16, dst as u64, 0, 8);
            lemma_field_keep(w1.0, 32, 32, capacity as u64, 0, 8);
        }
        w2
    }

    /// Encode a `arr_push` instruction
    pub fn arr_push(arr: u16, val: u16) -> (r: Insn)
        ensures
            r.has_valid_opcode(),
            r.spec_opcode() == Opcode::arr_push,
            arr_push::spec_decode(r) == (arr_push { arr, val }),
    {
        let w0 = Insn(37);
        let w1 = w0.with_bits(8, 16, arr as u64);
        let w2 = w1.with_bits(48, 16, val as u64);
        proof {
            lemma_fields_facts(37, w2.0, 8, 16, arr as u64);
            lemma_fields_facts(37, w2.0, 48, 16, val as u64);
            lemma_fields_facts(37, w2.0, 8, 8, 0);
            lemma_field_round_trip(w0.0, 8, 16, arr as u64);
            lemma_field_keep(w1.0, 48, 16, val as u64, 8, 16);
            lemma_field_keep(w0.0, 8, 16, arr as u64, 48, 16);
            lemma_field_round_trip(w1.0, 48, 16, val as u64);
            lemma_field_keep(w0.0, 8, 16, arr as u64, 0, 8);
            lemma_field_keep(w1.0, 48, 16, val as u64, 0, 8);
        }
        w2
    }

    /// Encode a `ba_clone` instruction
    pub fn ba_clone(dst: u16, src: u16) -> (r: Insn)
        ensures
            r.has_valid_opcode(),
            r.spec_opcode() == Opcode::ba_clone,
            ba_clone::spec_decode(r) == (ba_clone { dst, src }),
    {
        let w0 = Insn(38);
        let w1 = w0.with_bits(8, 16, dst as u64);
        let w2 = w1.with_bits(48, 16, src as u64);
        proof {
            lemma_fields_facts(38, w2.0, 8, 16, dst as u64);
            lemma_fields_facts(38, w2.0, 48, 16, src as u64);
            lemma_fields_facts(38, w2.0, 8, 8, 0);
            lemma_field_round_trip(w0.0, 8, 16, dst as u64);
            lemma_field_keep(w1.0, 48, 16, src as u64, 8, 16);
            lemma_field_keep(w0.0, 8, 16, dst as u64, 48, 16);
            lemma_field_round_trip(w1.0, 48, 16, src as u64);
            lemma_field_keep(w0.0, 8, 16, dst as u64, 0, 8);
            lemma_field_keep(w1.0, 48, 16, src as u64, 0, 8);
        }
        w2
    }

    /// Encode a `if_true` instruction
    pub fn if_true(val: u16, disp: i32) -> (r: Insn)
        ensures
            r.has_valid_opcode(),
            r.spec_opcode() == Opcode::if_true,
            if_true::spec_decode(r) == (if_true { val, disp }),
    {
        let w0 = Insn(39);
        let w1 = w0.with_bits(8, 16, val as u64);
        let w2 = w1.with_bits(32, 32, disp as i64 as u64);
        proof {
            lemma_fields_facts(39, w2.0, 8, 16, val as u64);
            lemma_fields_facts(39, w2.0, 32, 32, disp as i64 as u64);
            lemma_fields_facts(39, w2.0, 8, 8, 0);
            lemma_field_round_trip(w0.0, 8, 16, val as u64);
            lemma_field_keep(w1.0, 32, 32, disp as i64 as u64, 8, 16);
            lemma_field_keep(w0.0, 8, 16, val as u64, 32, 32);
            lemma_field_round_trip(w1.0, 32, 32, disp as i64 as u64);
            lemma_top_signed(w2.0, 32, disp as i64);
            lemma_field_keep(w0.0, 8, 16, val as u64, 0, 8);
            lemma_field_keep(w1.0, 32, 32, disp as i64 as u64, 0, 8);
        }
        w2
    }

    /// Encode a `if_false` instruction
    pub fn if_false(val: u16, disp: i32) -> (r: Insn)
        ensures
            r.has_valid_opcode(),
            r.spec_opcode() == Opcode::if_false,
            if_false::spec_decode(r) == (if_false { val, disp }),
    {
        let w0 = Insn(40);
        let w1 = w0.with_bits(8, 16, val as u64);
        let w2 = w1.with_bits(32, 32, disp as i64 as u64);
        proof {
            lemma_fields_facts(40, w2.0, 8, 16, val as u64);
            lemma_fields_facts(40, w2.0, 32, 32, disp as i64 as u64);
            lemma_fields_facts(40, w2.0, 8, 8, 0);
            lemma_field_round_trip(w0.0, 8, 16, val as u64);
            lemma_field_keep(w1.0, 32, 32, disp as i64 as u64, 8, 16);
            lemma_field_keep(w0.0, 8, 16, val as u64, 32, 32);
            lemma_field_round_trip(w1.0, 32, 32, disp as i64 as u64);
            lemma_top_signed(w2.0, 32, disp as i64);
            lemma_field_keep(w0.0, 8, 16, val as u64, 0, 8);
            lemma_field_keep(w1.0, 32, 32, disp as i64 as u64, 0, 8);
        }
        w2
    }

    /// Encode a `jeq` instruction
    pub fn jeq(a: u16, b: u16, disp: i32) -> (r: Insn)
        requires
            -0x800000 <= disp < 0x800000,
        ensures
            r.has_valid_opcode(),
            r.spec_opcode() == Opcode::jeq,
            jeq::spec_decode(r) == (jeq { a, b, disp }),
    {
        let w0 = Insn(41);
        let w1 = w0.with_bits(8, 16, a as u64);
        let w2 = w1.with_bits(24, 16, b as u64);
        let w3 = w2.with_bits(40, 24, disp as i64 as u64);
        proof {
            lemma_fields_facts(41, w3.0, 8, 16, a as u64);
            lemma_fields_facts(41, w3.0, 24, 16, b as u64);
            lemma_fields_facts(41, w3.0, 40, 24, disp as i64 as u64);
            lemma_fields_facts(41, w3.0, 8, 8, 0);
            lemma_field_round_trip(w0.0, 8, 16, a as u64);
            lemma_field_keep(w1.0, 24, 16, b as u64, 8, 16);
            lemma_field_keep(w2.0, 40, 24, disp as i64 as u64, 8, 16);
            lemma_field_keep(w0.0, 8, 16, a as u64, 24, 16);
            lemma_field_round_trip(w1.0, 24, 16, b as u64);
            lemma_field_keep(w2.0, 40, 24, disp as i64 as u64, 24, 16);
            lemma_field_keep(w0.0, 8, 16, a as u64, 40, 24);
            lemma_field_keep(w1.0, 24, 16, b as u64, 40, 24);
            lemma_field_round_trip(w2.0, 40, 24, disp as i64 as u64);
            lemma_top_signed(w3.0, 24, disp as i64);
            lemma_field_keep(w0.0, 8, 16, a as u64, 0, 8);
            lemma_field_keep(w1.0, 24, 16, b as u64, 0, 8);
            lemma_field_keep(w2.0, 40, 24, disp as i64 as u64, 0, 8);
        }
        w3
    }

    /// Encode a `jne` instruction
    pub fn jne(a: u16, b: u16, disp: i32) -> (r: Insn)
        requires
            -0x800000 <= disp < 0x800000,
        ensures
            r.has_valid_opcode(),
            r.spec_opcode() == Opcode::jne,
            jne::spec_decode(r) == (jne { a, b, disp }),
    {
        let w0 = Insn(42);
        let w1 = w0.with_bits(8, 16, a as u64);
        let w2 = w1.with_bits(24, 16, b as u64);
        let w3 = w2.with_bits(40, 24, disp as i64 as u64);
        proof {
            lemma_fields_facts(42, w3.0, 8, 16, a as u64);
            lemma_fields_facts(42, w3.0, 24, 16, b as u64);
            lemma_fields_facts(42, w3.0, 40, 24, disp as i64 as u64);
            lemma_fields_facts(42, w3.0, 8, 8, 0);
            lemma_field_round_trip(w0.0, 8, 16, a as u64);
            lemma_field_keep(w1.0, 24, 16, b as u64, 8, 16);
            lemma_field_keep(w2.0, 40, 24, disp as i64 as u64, 8, 16);
            lemma_field_keep(w0.0, 8, 16, a as u64, 24, 16);
            lemma_field_round_trip(w1.0, 24, 16, b as u64);
            lemma_field_keep(w2.0, 40, 24, disp as i64 as u64, 24, 16);
            lemma_field_keep(w0.0, 8, 16, a as u64, 40, 24);
            lemma_field_keep(w1.0, 24, 16, b as u64, 40, 24);
            lemma_field_round_trip(w2.0, 40, 24, disp as i64 as u64);
            lemma_top_signed(w3.0, 24, disp as i64);
            lemma_field_keep(w0.0, 8, 16, a as u64, 0, 8);
            lemma_field_keep(w1.0, 24, 16, b as u64, 0, 8);
            lemma_field_keep(w2.0, 40, 24, disp as i64 as u64, 0, 8);
        }
        w3
    }

    /// Encode a `jlt` instruction
    pub fn jlt(a: u16, b: u16, disp: i32) -> (r: Insn)
        requires
            -0x800000 <= disp < 0x800000,
        ensures
            r.has_valid_opcode(),
            r.spec_opcode() == Opcode::jlt,
            jlt::spec_decode(r) == (jlt { a, b, disp }),
    {
        let w0 = Insn(43);
        let w1 = w0.with_bits(8, 16, a as u64);
        let w2 = w1.with_bits(24, 16, b as u64);
        let w3 = w2.with_bits(40, 24, disp as i64 as u64);
        proof {
            lemma_fields_facts(43, w3.0, 8, 16, a as u64);
            lemma_fields_facts(43, w3.0, 24, 16, b as u64);
            lemma_fields_facts(43, w3.0, 40, 24, disp as i64 as u64);
            lemma_fields_facts(43, w3.0, 8, 8, 0);
            lemma_field_round_trip(w0.0, 8, 16, a as u64);
            lemma_field_keep(w1.0, 24, 16, b as u64, 8, 16);
            lemma_field_keep(w2.0, 40, 24, disp as i64 as u64, 8, 16);
            lemma_field_keep(w0.0, 8, 16, a as u64, 24, 16);
            lemma_field_round_trip(w1.0, 24, 16, b as u64);
            lemma_field_keep(w2.0, 40, 24, disp as i64 as u64, 24, 16);
            lemma_field_keep(w0.0, 8, 16, a as u64, 40, 24);
            lemma_field_keep(w1.0, 24, 16, b as u64, 40, 24);
            lemma_field_round_trip(w2.0, 40, 24, disp as i64 as u64);
            lemma_top_signed(w3.0, 24, disp as i64);
            lemma_field_keep(w0.0, 8, 16, a as u64, 0, 8);
            lemma_field_keep(w1.0, 24, 16, b as u64, 0, 8);
            lemma_field_keep(w2.0, 40, 24, disp as i64 as u64, 0, 8);
        }
        w3
    }

    /// Encode a `jle` instruction
    pub fn jle(a: u16, b: u16, disp: i32) -> (r: Insn)
        requires
            -0x800000 <= disp < 0x800000,
        ensures
            r.has_valid_opcode(),
            r.spec_opcode() == Opcode::jle,
            jle::spec_decode(r) == (jle { a, b, disp }),
    {
        let w0 = Insn(44);
        let w1 = w0.with_bits(8, 16, a as u64);
        let w2 = w1.with_bits(24, 16, b as u64);
        let w3 = w2.with_bits(40, 24, disp as i64 as u64);
        proof {
            lemma_fields_facts(44, w3.0, 8, 16, a as u64);
            lemma_fields_facts(44, w3.0, 24, 16, b as u64);
            lemma_fields_facts(44, w3.0, 40, 24, disp as i64 as u64);
            lemma_fields_facts(44, w3.0, 8, 8, 0);
            lemma_field_round_trip(w0.0, 8, 16, a as u64);
            lemma_field_keep(w1.0, 24, 16, b as u64, 8, 16);
            lemma_field_keep(w2.0, 40, 24, disp as i64 as u64, 8, 16);
            lemma_field_keep(w0.0, 8, 16, a as u64, 24, 16);
            lemma_field_round_trip(w1.0, 24, 16, b as u64);
            lemma_field_keep(w2.0, 40, 24, disp as i64 as u64, 24, 16);
            lemma_field_keep(w0.0, 8, 16, a as u64, 40, 24);
            lemma_field_keep(w1.0, 24, 16, b as u64, 40, 24);
            lemma_field_round_trip(w2.0, 40, 24, disp as i64 as u64);
            lemma_top_signed(w3.0, 24, disp as i64);
            lemma_field_keep(w0.0, 8, 16, a as u64, 0, 8);
            lemma_field_keep(w1.0, 24, 16, b as u64, 0, 8);
            lemma_field_keep(w2.0, 40, 24, disp as i64 as u64, 0, 8);
        }
        w3
    }

    /// Encode a `jgt` instruction
    pub fn jgt(a: u16, b: u16, disp: i32) -> (r: Insn)
        requires
            -0x800000 <= disp < 0x800000,
        ensures
            r.has_valid_opcode(),
            r.spec_opcode() == Opcode::jgt,
            jgt::spec_decode(r) == (jgt { a, b, disp }),
    {
        let w0 = Insn(45);
        let w1 = w0.with_bits(8, 16, a as u64);
        let w2 = w1.with_bits(24, 16, b as u64);
        let w3 = w2.with_bits(40, 24, disp as i64 as u64);
        proof {
            lemma_fields_facts(45, w3.0, 8, 16, a as u64);
            lemma_fields_facts(45, w3.0, 24, 16, b as u64);
            lemma_fields_facts(45, w3.0, 40, 24, disp as i64 as u64);
            lemma_fields_facts(45, w3.0, 8, 8, 0);
            lemma_field_round_trip(w0.0, 8, 16, a as u64);
            lemma_field_keep(w1.0, 24, 16, b as u64, 8, 16);
            lemma_field_keep(w2.0, 40, 24, disp as i64 as u64, 8, 16);
            lemma_field_keep(w0.0, 8, 16, a as u64, 24, 16);
            lemma_field_round_trip(w1.0, 24, 16, b as u64);
            lemma_field_keep(w2.0, 40, 24, disp as i64 as u64, 24, 16);
            lemma_field_keep(w0.0, 8, 16, a as u64, 40, 24);
            lemma_field_keep(w1.0, 24, 16, b as u64, 40, 24);
            lemma_field_round_trip(w2.0, 40, 24, disp as i64 as u64);
            lemma_top_signed(w3.0, 24, disp as i64);
            lemma_field_keep(w0.0, 8, 16, a as u64, 0, 8);
            lemma_field_keep(w1.0, 24, 16, b as u64, 0, 8);
            lemma_field_keep(w2.0, 40, 24, disp as i64 as u64, 0, 8);
        }
        w3
    }

    /// Encode a `jge` instruction
    pub fn jge(a: u16, b: u16, disp: i32) -> (r: Insn)
        requires
            -0x800000 <= disp < 0x800000,
        ensures
            r.has_valid_opcode(),
            r.spec_opcode() == Opcode::jge,
            jge::spec_decode(r) == (jge { a, b, disp }),
    {
        let w0 = Insn(46);
        let w1 = w0.with_bits(8, 16, a as u64);
        let w2 = w1.with_bits(24, 16, b as u64);
        let w3 = w2.with_bits(40, 24, disp as i64 as u64);
        proof {
            lemma_fields_facts(46, w3.0, 8, 16, a as u64);
            lemma_fields_facts(46, w3.0, 24, 16, b as u64);
            lemma_fields_facts(46, w3.0, 40, 24, disp as i64 as u64);
            lemma_fields_facts(46, w3.0, 8, 8, 0);
            lemma_field_round_trip(w0.0, 8, 16, a as u64);
            lemma_field_keep(w1.0, 24, 16, b as u64, 8, 16);
            lemma_field_keep(w2.0, 40, 24, disp as i64 as u64, 8, 16);
            lemma_field_keep(w0.0, 8, 16, a as u64, 24, 16);
            lemma_field_round_trip(w1.0, 24, 16, b as u64);
            lemma_field_keep(w2.0, 40, 24, disp as i64 as u64, 24, 16);
            lemma_field_keep(w0.0, 8, 16, a as u64, 40, 24);
            lemma_field_keep(w1.0, 24, 16, b as u64, 40, 24);
            lemma_field_round_trip(w2.0, 40, 24, disp as i64 as u64);
            lemma_top_signed(w3.0, 24, disp as i64);
            lemma_field_keep(w0.0, 8, 16, a as u64, 0, 8);
            lemma_field_keep(w1.0, 24, 16, b as u64, 0, 8);
            lemma_field_keep(w2.0, 40, 24, disp as i64 as u64, 0, 8);
        }
        w3
    }

    /// Encode a `jmp` instruction
    pub fn jmp(disp: i32) -> (r: Insn)
        ensures
            r.has_valid_opcode(),
            r.spec_opcode() == Opcode::jmp,
            jmp::spec_decode(r) == (jmp { disp }),
    {
        let w0 = Insn(47);
        let w1 = w0.with_bits(32, 32, disp as i64 as u64);
        proof {
            lemma_fields_facts(47, w1.0, 32, 32, disp as i64 as u64);
            lemma_fields_facts(47, w1.0, 8, 8, 0);
            lemma_field_round_trip(w0.0, 32, 32, disp as i64 as u64);
            lemma_top_signed(w1.0, 32, disp as i64);
            lemma_field_keep(w0.0, 32, 32, disp as i64 as u64, 0, 8);
        }
        w1
    }

    /// Encode a `call_opnd` instruction
    pub fn call_opnd(start_reg: u16, argc: u8, cache: u32) -> (r: Insn)
        requires
            cache <= 0xFFFFFF,
        ensures
            r.has_valid_opcode(),
            r.spec_opcode() == Opcode::call_opnd,
            call_opnd::spec_decode(r) == (call_opnd { start_reg, argc, cache }),
    {
        let w0 = Insn(48);
        let w1 = w0.with_bits(8, 16, start_reg as u64);
        let w2 = w1.with_bits(24, 8, argc as u64);
        let w3 = w2.with_bits(40, 24, cache as u64);
        proof {
            lemma_fields_facts(48, w3.0, 8, 16, start_reg as u64);
            lemma_fields_facts(48, w3.0, 24, 8, argc as u64);
            lemma_fields_facts(48, w3.0, 40, 24, cache as u64);
            lemma_fields_facts(48, w3.0, 8, 8, 0);
            lemma_field_round_trip(w0.0, 8, 16, start_reg as u64);
            lemma_field_keep(w1.0, 24, 8, argc as u64, 8, 16);
            lemma_field_keep(w2.0, 40, 24, cache as u64, 8, 16);
            lemma_field_keep(w0.0, 8, 16, start_reg as u64, 24, 8);
            lemma_field_round_trip(w1.0, 24, 8, argc as u64);
            lemma_field_keep(w2.0, 40, 24, cache as u64, 24, 8);
            lemma_field_keep(w0.0, 8, 16, start_reg as u64, 40, 24);
            lemma_field_keep(w1.0, 24, 8, argc as u64, 40, 24);
            lemma_field_round_trip(w2.0, 40, 24, cache as u64);
            lemma_field_keep(w0.0, 8, 16, start_reg as u64, 0, 8);
            lemma_field_keep(w1.0, 24, 8, argc as u64, 0, 8);
            lemma_field_keep(w2.0, 40, 24, cache as u64, 0, 8);
        }
        w3
    }

    /// Encode a `call_host` instruction
    pub fn call_host(host_fn: u16, start_reg: u16, argc: u8) -> (r: Insn)
        ensures
            r.has_valid_opcode(),
            r.spec_opcode() == Opcode::call_host,
            call_host::spec_decode(r) == (call_host { host_fn, start_reg, argc }),
    {
        let w0 = Insn(49);
        let w1 = w0.with_bits(8, 16, host_fn as u64);
        let w2 = w1.with_bits(24, 16, start_reg as u64);
        let w3 = w2.with_bits(56, 8, argc as u64);
        proof {
            lemma_fields_facts(49, w3.0, 8, 16, host_fn as u64);
            lemma_fields_facts(49, w3.0, 24, 16, start_reg as u64);
            lemma_fields_facts(49, w3.0, 56, 8, argc as u64);
            lemma_fields_facts(49, w3.0, 8, 8, 0);
            lemma_field_round_trip(w0.0, 8, 16, host_fn as u64);
            lemma_field_keep(w1.0, 24, 16, start_reg as u64, 8, 16);
            lemma_field_keep(w2.0, 56, 8, argc as u64, 8, 16);
            lemma_field_keep(w0.0, 8, 16, host_fn as u64, 24, 16);
            lemma_field_round_trip(w1.0, 24, 16, start_reg as u64);
            lemma_field_keep(w2.0, 56, 8, argc as u64, 24, 16);
            lemma_field_keep(w0.0, 8, 16, host_fn as u64, 56, 8);
            lemma_field_keep(w1.0, 24, 16, start_reg as u64, 56, 8);
            lemma_field_round_trip(w2.0, 56, 8, argc as u64);
            lemma_field_keep(w0.0, 8, 16, host_fn as u64, 0, 8);
            lemma_field_keep(w1.0, 24, 16, start_reg as u64, 0, 8);
            lemma_field_keep(w2.0, 56, 8, argc as u64, 0, 8);
        }
        w3
    }

    /// Encode a `call_direct` instruction
    pub fn call_direct(fun: u32, start_reg: u16, argc: u8) -> (r: Insn)
        requires
            fun <= 0xFFFFFF,
        ensures
            r.has_valid_opcode(),
            r.spec_opcode() == Opcode::call_direct,
            call_direct::spec_decode(r) == (call_direct { fun, start_reg, argc }),
    {
        let w0 = Insn(50);
        let w1 = w0.with_bits(8, 24, fun as u64);
        let w2 = w1.with_bits(32, 16, start_reg as u64);
        let w3 = w2.with_bits(56, 8, argc as u64);
        proof {
            lemma_fields_facts(50, w3.0, 8, 24, fun as u64);
            lemma_fields_facts(50, w3.0, 32, 16, start_reg as u64);
            lemma_fields_facts(50, w3.0, 56, 8, argc as u64);
            lemma_fields_facts(50, w3.0, 8, 8, 0);
            lemma_field_round_trip(w0.0, 8, 24, fun as u64);
            lemma_field_keep(w1.0, 32, 16, start_reg as u64, 8, 24);
            lemma_field_keep(w2.0, 56, 8, argc as u64, 8, 24);
            lemma_field_keep(w0.0, 8, 24, fun as u64, 32, 16);
            lemma_field_round_trip(w1.0, 32, 16, start_reg as u64);
            lemma_field_keep(w2.0, 56, 8, argc as u64, 32, 16);
            lemma_field_keep(w0.0, 8, 24, fun as u64, 56, 8);
            lemma_field_keep(w1.0, 32, 16, start_reg as u64, 56, 8);
            lemma_field_round_trip(w2.0, 56, 8, argc as u64);
            lemma_field_keep(w0.0, 8, 24, fun as u64, 0, 8);
            lemma_field_keep(w1.0, 32, 16, start_reg as u64, 0, 8);
            lemma_field_keep(w2.0, 56, 8, argc as u64, 0, 8);
        }
        w3
    }

    /// Encode a `call_pc` instruction
    pub fn call_pc(start_reg: u16, argc: u8, cache: u32) -> (r: Insn)
        requires
            cache <= 0xFFFFFF,
        ensures
            r.has_valid_opcode(),
            r.spec_opcode() == Opcode::call_pc,
            call_pc::spec_decode(r) == (call_pc { start_reg, argc, cache }),
    {
        let w0 = Insn(51);
        let w1 = w0.with_bits(8, 16, start_reg as u64);
        let w2 = w1.with_bits(24, 8, argc as u64);
        let w3 = w2.with_bits(40, 24, cache as u64);
        proof {
            lemma_fields_facts(51, w3.0, 8, 16, start_reg as u64);
            lemma_fields_facts(51, w3.0, 24, 8, argc as u64);
            lemma_fields_facts(51, w3.0, 40, 24, cache as u64);
            lemma_fields_facts(51, w3.0, 8, 8, 0);
            lemma_field_round_trip(w0.0, 8, 16, start_reg as u64);
            lemma_field_keep(w1.0, 24, 8, argc as u64, 8, 16);
            lemma_field_keep(w2.0, 40, 24, cache as u64, 8, 16);
            lemma_field_keep(w0.0, 8, 16, start_reg as u64, 24, 8);
            lemma_field_round_trip(w1.0, 24, 8, argc as u64);
            lemma_field_keep(w2.0, 40, 24, cache as u64, 24, 8);
            lemma_field_keep(w0.0, 8, 16, start_reg as u64, 40, 24);
            lemma_field_keep(w1.0, 24, 8, argc as u64, 40, 24);
            lemma_field_round_trip(w2.0, 40, 24, cache as u64);
            lemma_field_keep(w0.0, 8, 16, start_reg as u64, 0, 8);
            lemma_field_keep(w1.0, 24, 8, argc as u64, 0, 8);
            lemma_field_keep(w2.0, 40, 24, cache as u64, 0, 8);
        }
        w3
    }

    /// Encode a `call_method` instruction
    pub fn call_method(start_reg: u16, argc: u8, cache: u32) -> (r: Insn)
        requires
            cache <= 0xFFFFFF,
        ensures
            r.has_valid_opcode(),
            r.spec_opcode() == Opcode::call_method,
            call_method::spec_decode(r) == (call_method { start_reg, argc, cache }),
    {
        let w0 = Insn(52);
        let w1 = w0.with_bits(8, 16, start_reg as u64);
        let w2 = w1.with_bits(24, 8, argc as u64);
        let w3 = w2.with_bits(40, 24, cache as u64);
        proof {
            lemma_fields_facts(52, w3.0, 8, 16, start_reg as u64);
            lemma_fields_facts(52, w3.0, 24, 8, argc as u64);
            lemma_fields_facts(52, w3.0, 40, 24, cache as u64);
            lemma_fields_facts(52, w3.0, 8, 8, 0);
            lemma_field_round_trip(w0.0, 8, 16, start_reg as u64);
            lemma_field_keep(w1.0, 24, 8, argc as u64, 8, 16);
            lemma_field_keep(w2.0, 40, 24, cache as u64, 8, 16);
            lemma_field_keep(w0.0, 8, 16, start_reg as u64, 24, 8);
            lemma_field_round_trip(w1.0, 24, 8, argc as u64);
            lemma_field_keep(w2.0, 40, 24, cache as u64, 24, 8);
            lemma_field_keep(w0.0, 8, 16, start_reg as u64, 40, 24);
            lemma_field_keep(w1.0, 24, 8, argc as u64, 40, 24);
            lemma_field_round_trip(w2.0, 40, 24, cache as u64);
            lemma_field_keep(w0.0, 8, 16, start_reg as u64, 0, 8);
            lemma_field_keep(w1.0, 24, 8, argc as u64, 0, 8);
            lemma_field_keep(w2.0, 40, 24, cache as u64, 0, 8);
        }
        w3
    }

    /// Encode a `call_method_host` instruction
    pub fn call_method_host(start_reg: u16, argc: u8, type_tag: u8, cache: u32) -> (r: Insn)
        requires
            cache <= 0xFFFFFF,
        ensures
            r.has_valid_opcode(),
            r.spec_opcode() == Opcode::call_method_host,
            call_method_host::spec_decode(r) == (call_method_host { start_reg, argc, type_tag, cache }),
    {
        let w0 = Insn(53);
        let w1 = w0.with_bits(8, 16, start_reg as u64);
        let w2 = w1.with_bits(24, 8, argc as u64);
        let w3 = w2.with_bits(32, 8, type_tag as u64);
        let w4 = w3.with_bits(40, 24, cache as u64);
        proof {
            lemma_fields_facts(53, w4.0, 8, 16, start_reg as u64);
            lemma_fields_facts(53, w4.0, 24, 8, argc as u64);
            lemma_fields_facts(53, w4.0, 32, 8, type_tag as u64);
            lemma_fields_facts(53, w4.0, 40, 24, cache as u64);
            lemma_fields_facts(53, w4.0, 8, 8, 0);
            lemma_field_round_trip(w0.0, 8, 16, start_reg as u64);
            lemma_field_keep(w1.0, 24, 8, argc as u64, 8, 16);
            lemma_field_keep(w2.0, 32, 8, type_tag as u64, 8, 16);
            lemma_field_keep(w3.0, 40, 24, cache as u64, 8, 16);
            lemma_field_keep(w0.0, 8, 16, start_reg as u64, 24, 8);
            lemma_field_round_trip(w1.0, 24, 8, argc as u64);
            lemma_field_keep(w2.0, 32, 8, type_tag as u64, 24, 8);
            lemma_field_keep(w3.0, 40, 24, cache as u64, 24, 8);
            lemma_field_keep(w0.0, 8, 16, start_reg as u64, 32, 8);
            lemma_field_keep(w1.0, 24, 8, argc as u64, 32, 8);
            lemma_field_round_trip(w2.0, 32, 8, type_tag as u64);
            lemma_field_keep(w3.0, 40, 24, cache as u64, 32, 8);
            lemma_field_keep(w0.0, 8, 16, start_reg as u64, 40, 24);
            lemma_field_keep(w1.0, 24, 8, argc as u64, 40, 24);
            lemma_field_keep(w2.0, 32, 8, type_tag as u64, 40, 24);
            lemma_field_round_trip(w3.0, 40, 24, cache as u64);
            lemma_field_keep(w0.0, 8, 16, start_reg as u64, 0, 8);
            lemma_field_keep(w1.0, 24, 8, argc as u64, 0, 8);
            lemma_field_keep(w2.0, 32, 8, type_tag as u64, 0, 8);
            lemma_field_keep(w3.0, 40, 24, cache as u64, 0, 8);
        }
        w4
    }

    /// Encode a `new` instruction
    pub fn new(class_id: u32, start_reg: u16, argc: u8) -> (r: Insn)
        requires
            class_id <= 0xFFFFFF,
        ensures
            r.has_valid_opcode(),
            r.spec_opcode() == Opcode::new,
            new::spec_decode(r) == (new { class_id, start_reg, argc }),
    {
        let w0 = Insn(54);
        let w1 = w0.with_bits(8, 24, class_id as u64);
        let w2 = w1.with_bits(32, 16, start_reg as u64);
        let w3 = w2.with_bits(56, 8, argc as u64);
        proof {
            lemma_fields_facts(54, w3.0, 8, 24, class_id as u64);
            lemma_fields_facts(54, w3.0, 32, 16, start_reg as u64);
            lemma_fields_facts(54, w3.0, 56, 8, argc as u64);
            lemma_fields_facts(54, w3.0, 8, 8, 0);
            lemma_field_round_trip(w0.0, 8, 24, class_id as u64);
            lemma_field_keep(w1.0, 32, 16, start_reg as u64, 8, 24);
            lemma_field_keep(w2.0, 56, 8, argc as u64, 8, 24);
            lemma_field_keep(w0.0, 8, 24, class_id as u64, 32, 16);
            lemma_field_round_trip(w1.0, 32, 16, start_reg as u64);
            lemma_field_keep(w2.0, 56, 8, argc as u64, 32, 16);
            lemma_field_keep(w0.0, 8, 24, class_id as u64, 56, 8);
            lemma_field_keep(w1.0, 32, 16, start_reg as u64, 56, 8);
            lemma_field_round_trip(w2.0, 56, 8, argc as u64);
            lemma_field_keep(w0.0, 8, 24, class_id as u64, 0, 8);
            lemma_field_keep(w1.0, 32, 16, start_reg as u64, 0, 8);
            lemma_field_keep(w2.0, 56, 8, argc as u64, 0, 8);
        }
        w3
    }

    /// Encode a `new_known_ctor` instruction
    pub fn new_known_ctor(start_reg: u16, argc: u8, cache: u32) -> (r: Insn)
        requires
            cache <= 0xFFFFFF,
        ensures
            r.has_valid_opcode(),
            r.spec_opcode() == Opcode::new_known_ctor,
            new_known_ctor::spec_decode(r) == (new_known_ctor { start_reg, argc, cache }),
    {
        let w0 = Insn(55);
        let w1 = w0.with_bits(8, 16, start_reg as u64);
        let w2 = w1.with_bits(24, 8, argc as u64);
        let w3 = w2.with_bits(40, 24, cache as u64);
        proof {
            lemma_fields_facts(55, w3.0, 8, 16, start_reg as u64);
            lemma_fields_facts(55, w3.0, 24, 8, argc as u64);
            lemma_fields_facts(55, w3.0, 40, 24, cache as u64);
            lemma_fields_facts(55, w3.0, 8, 8, 0);
            lemma_field_round_trip(w0.0, 8, 16, start_reg as u64);
            lemma_field_keep(w1.0, 24, 8, argc as u64, 8, 16);
            lemma_field_keep(w2.0, 40, 24, cache as u64, 8, 16);
            lemma_field_keep(w0.0, 8, 16, start_reg as u64, 24, 8);
            lemma_field_round_trip(w1.0, 24, 8, argc as u64);
            lemma_field_keep(w2.0, 40, 24, cache as u64, 24, 8);
            lemma_field_keep(w0.0, 8, 16, start_reg as u64, 40, 24);
            lemma_field_keep(w1.0, 24, 8, argc as u64, 40, 24);
            lemma_field_round_trip(w2.0, 40, 24, cache as u64);
            lemma_field_keep(w0.0, 8, 16, start_reg as u64, 0, 8);
            lemma_field_keep(w1.0, 24, 8, argc as u64, 0, 8);
            lemma_field_keep(w2.0, 40, 24, cache as u64, 0, 8);
        }
        w3
    }

    /// Encode a `ret` instruction
    pub fn ret(src: u16) -> (r: Insn)
        ensures
            r.has_valid_opcode(),
            r.spec_opcode() == Opcode::ret,
            ret::spec_decode(r) == (ret { src }),
    {
        let w0 = Insn(56);
        let w1 = w0.with_bits(48, 16, src as u64);
        proof {
            lemma_fields_facts(56, w1.0, 48, 16, src as u64);
            lemma_fields_facts(56, w1.0, 8, 8, 0);
            lemma_field_round_trip(w0.0, 48, 16, src as u64);
            lemma_field_keep(w0.0, 48, 16, src as u64, 0, 8);
        }
        w1
    }

    /// Encode a `ret_nil` instruction
    pub fn ret_nil() -> (r: Insn)
        ensures
            r.has_valid_opcode(),
            r.spec_opcode() == Opcode::ret_nil,
            ret_nil::spec_decode(r) == (ret_nil {  }),
    {
        let w0 = Insn(57);
        proof {
            lemma_fields_facts(57, w0.0, 8, 8, 0);
        }
        w0
    }

    /// Encode a `ret_imm32` instruction
    pub fn ret_imm32(imm: i32) -> (r: Insn)
        ensures
            r.has_valid_opcode(),
            r.spec_opcode() == Opcode::ret_imm32,
            ret_imm32::spec_decode(r) == (ret_imm32 { imm }),
    {
        let w0 = Insn(58);
        let w1 = w0.with_bits(32, 32, imm as i64 as u64);
        proof {
            lemma_fields_facts(58, w1.0, 32, 32, imm as i64 as u64);
            lemma_fields_facts(58, w1.0, 8, 8, 0);
            lemma_field_round_trip(w0.0, 32, 32, imm as i64 as u64);
            lemma_top_signed(w1.0, 32, imm as i64);
            lemma_field_keep(w0.0, 32, 32, imm as i64 as u64, 0, 8);
        }
        w1
    }

}

// The opcode byte lies inside the low part of a word, so two words that
// agree there agree on it
proof fn lemma_low_byte_of_low_part(a: u64, b: u64, n: u64)
    requires
        32 <= n <= 48,
        spec_bits_u(a, 0, n) == spec_bits_u(b, 0, n),
    ensures
        spec_bits_u(a, 0, 8) == spec_bits_u(b, 0, 8),
{
    assert(spec_bits_u(a, 0, 8) == spec_bits_u(b, 0, 8)) by (bit_vector)
        requires
            32 <= n <= 48,
            spec_bits_u(a, 0, n) == spec_bits_u(b, 0, n);
}

/// Decoded operands of a `panic` instruction
#[derive(PartialEq, Eq, Copy, Clone, Debug, Structural)]
pub struct panic {
    pub file_id: u16,
    pub line_no: u32,
    pub col_no: u32,
}

impl panic {
    pub open spec fn spec_decode(insn: Insn) -> panic {
        panic { file_id: spec_bits_u(insn.0, 8, 12) as u16, line_no: spec_bits_u(insn.0, 20, 24) as u32, col_no: spec_bits_u(insn.0, 44, 20) as u32 }
    }

    pub fn decode(insn: Insn) -> (r: panic)
        ensures
            r == panic::spec_decode(insn),
    {
        proof {
            lemma_fields_facts(0, insn.0, 8, 12, 0);
            lemma_fields_facts(0, insn.0, 20, 24, 0);
            lemma_fields_facts(0, insn.0, 44, 20, 0);
        }
        panic { file_id: insn.bits_u(8, 12) as u16, line_no: insn.bits_u(20, 24) as u32, col_no: insn.bits_u(44, 20) as u32 }
    }
}

/// Decoded operands of a `breakpoint` instruction
#[derive(PartialEq, Eq, Copy, Clone, Debug, Structural)]
pub struct breakpoint {
}

impl breakpoint {
    pub open spec fn spec_decode(insn: Insn) -> breakpoint {
        breakpoint {  }
    }

    pub fn decode(insn: Insn) -> (r: breakpoint)
        ensures
            r == breakpoint::spec_decode(insn),
    {
        breakpoint {  }
    }
}

/// Decoded operands of a `nop` instruction
#[derive(PartialEq, Eq, Copy, Clone, Debug, Structural)]
pub struct nop {
}

impl nop {
    pub open spec fn spec_decode(insn: Insn) -> nop {
        nop {  }
    }

    pub fn decode(insn: Insn) -> (r: nop)
        ensures
            r == nop::spec_decode(insn),
    {
        nop {  }
    }
}

/// Decoded operands of a `load_imm32` instruction
#[derive(PartialEq, Eq, Copy, Clone, Debug, Structural)]
pub struct load_imm32 {
    pub dst: u16,
    pub imm: i32,
}

impl load_imm32 {
    pub open spec fn spec_decode(insn: Insn) -> load_imm32 {
        load_imm32 { dst: spec_bits_u(insn.0, 8, 16) as u16, imm: spec_top_i(insn.0, 32) as i32 }
    }

    pub fn decode(insn: Insn) -> (r: load_imm32)
        ensures
            r == load_imm32::spec_decode(insn),
    {
        proof {
            lemma_fields_facts(0, insn.0, 8, 16, 0);
            lemma_fields_facts(0, insn.0, 32, 32, 0);
        }
        load_imm32 { dst: insn.bits_u(8, 16) as u16, imm: insn.top_i(32) as i32 }
    }
}

/// Decoded operands of a `mov` instruction
#[derive(PartialEq, Eq, Copy, Clone, Debug, Structural)]
pub struct mov {
    pub dst: u16,
    pub src: u16,
}

impl mov {
    pub open spec fn spec_decode(insn: Insn) -> mov {
        mov { dst: spec_bits_u(insn.0, 8, 16) as u16, src: spec_bits_u(insn.0, 48, 16) as u16 }
    }

    pub fn decode(insn: Insn) -> (r: mov)
        ensures
            r == mov::spec_decode(insn),
    {
        proof {
            lemma_fields_facts(0, insn.0, 8, 16, 0);
            lemma_fields_facts(0, insn.0, 48, 16, 0);
        }
        mov { dst: insn.bits_u(8, 16) as u16, src: insn.bits_u(48, 16) as u16 }
    }
}

/// Decoded operands of a `load_const` instruction
#[derive(PartialEq, Eq, Copy, Clone, Debug, Structural)]
pub struct load_const {
    pub dst: u16,
    pub slot: u32,
}

impl load_const {
    pub open spec fn spec_decode(insn: Insn) -> load_const {
        load_const { dst: spec_bits_u(insn.0, 8, 16) as u16, slot: spec_bits_u(insn.0, 32, 32) as u32 }
    }

    pub fn decode(insn: Insn) -> (r: load_const)
        ensures
            r == load_const::spec_decode(insn),
    {
        proof {
            lemma_fields_facts(0, insn.0, 8, 16, 0);
            lemma_fields_facts(0, insn.0, 32, 32, 0);
        }
        load_const { dst: insn.bits_u(8, 16) as u16, slot: insn.bits_u(32, 32) as u32 }
    }
}

/// Decoded operands of a `get_global` instruction
#[derive(PartialEq, Eq, Copy, Clone, Debug, Structural)]
pub struct get_global {
    pub dst: u16,
    pub idx: u32,
}

impl get_global {
    pub open spec fn spec_decode(insn: Insn) -> get_global {
        get_global { dst: spec_bits_u(insn.0, 8, 16) as u16, idx: spec_bits_u(insn.0, 32, 32) as u32 }
    }

    pub fn decode(insn: Insn) -> (r: get_global)
        ensures
            r == get_global::spec_decode(insn),
    {
        proof {
            lemma_fields_facts(0, insn.0, 8, 16, 0);
            lemma_fields_facts(0, insn.0, 32, 32, 0);
        }
        get_global { dst: insn.bits_u(8, 16) as u16, idx: insn.bits_u(32, 32) as u32 }
    }
}

/// Decoded operands of a `set_global` instruction
#[derive(PartialEq, Eq, Copy, Clone, Debug, Structural)]
pub struct set_global {
    pub src: u16,
    pub idx: u32,
}

impl set_global {
    pub open spec fn spec_decode(insn: Insn) -> set_global {
        set_global { src: spec_bits_u(insn.0, 8, 16) as u16, idx: spec_bits_u(insn.0, 32, 32) as u32 }
    }

    pub fn decode(insn: Insn) -> (r: set_global)
        ensures
            r == set_global::spec_decode(insn),
    {
        proof {
            lemma_fields_facts(0, insn.0, 8, 16, 0);
            lemma_fields_facts(0, insn.0, 32, 32, 0);
        }
        set_global { src: insn.bits_u(8, 16) as u16, idx: insn.bits_u(32, 32) as u32 }
    }
}

/// Decoded operands of a `lshift` instruction
#[derive(PartialEq, Eq, Copy, Clone, Debug, Structural)]
pub struct lshift {
    pub dst: u16,
    pub a: u16,
    pub b: u16,
}

impl lshift {
    pub open spec fn spec_decode(insn: Insn) -> lshift {
        lshift { dst: spec_bits_u(insn.0, 8, 16) as u16, a: spec_bits_u(insn.0, 24, 16) as u16, b: spec_bits_u(insn.0, 48, 16) as u16 }
    }

    pub fn decode(insn: Insn) -> (r: lshift)
        ensures
            r == lshift::spec_decode(insn),
    {
        proof {
            lemma_fields_facts(0, insn.0, 8, 16, 0);
            lemma_fields_facts(0, insn.0, 24, 16, 0);
            lemma_fields_facts(0, insn.0, 48, 16, 0);
        }
        lshift { dst: insn.bits_u(8, 16) as u16, a: insn.bits_u(24, 16) as u16, b: insn.bits_u(48, 16) as u16 }
    }
}

/// Decoded operands of a `rshift` instruction
#[derive(PartialEq, Eq, Copy, Clone, Debug, Structural)]
pub struct rshift {
    pub dst: u16,
    pub a: u16,
    pub b: u16,
}

impl rshift {
    pub open spec fn spec_decode(insn: Insn) -> rshift {
        rshift { dst: spec_bits_u(insn.0, 8, 16) as u16, a: spec_bits_u(insn.0, 24, 16) as u16, b: spec_bits_u(insn.0, 48, 16) as u16 }
    }

    pub fn decode(insn: Insn) -> (r: rshift)
        ensures
            r == rshift::spec_decode(insn),
    {
        proof {
            lemma_fields_facts(0, insn.0, 8, 16, 0);
            lemma_fields_facts(0, insn.0, 24, 16, 0);
            lemma_fields_facts(0, insn.0, 48, 16, 0);
        }
        rshift { dst: insn.bits_u(8, 16) as u16, a: insn.bits_u(24, 16) as u16, b: insn.bits_u(48, 16) as u16 }
    }
}

/// Decoded operands of a `bit_and` instruction
#[derive(PartialEq, Eq, Copy, Clone, Debug, Structural)]
pub struct bit_and {
    pub dst: u16,
    pub a: u16,
    pub b: u16,
}

impl bit_and {
    pub open spec fn spec_decode(insn: Insn) -> bit_and {
        bit_and { dst: spec_bits_u(insn.0, 8, 16) as u16, a: spec_bits_u(insn.0, 24, 16) as u16, b: spec_bits_u(insn.0, 48, 16) as u16 }
    }

    pub fn decode(insn: Insn) -> (r: bit_and)
        ensures
            r == bit_and::spec_decode(insn),
    {
        proof {
            lemma_fields_facts(0, insn.0, 8, 16, 0);
            lemma_fields_facts(0, insn.0, 24, 16, 0);
            lemma_fields_facts(0, insn.0, 48, 16, 0);
        }
        bit_and { dst: insn.bits_u(8, 16) as u16, a: insn.bits_u(24, 16) as u16, b: insn.bits_u(48, 16) as u16 }
    }
}

/// Decoded operands of a `bit_or` instruction
#[derive(PartialEq, Eq, Copy, Clone, Debug, Structural)]
pub struct bit_or {
    pub dst: u16,
    pub a: u16,
    pub b: u16,
}

impl bit_or {
    pub open spec fn spec_decode(insn: Insn) -> bit_or {
        bit_or { dst: spec_bits_u(insn.0, 8, 16) as u16, a: spec_bits_u(insn.0, 24, 16) as u16, b: spec_bits_u(insn.0, 48, 16) as u16 }
    }

    pub fn decode(insn: Insn) -> (r: bit_or)
        ensures
            r == bit_or::spec_decode(insn),
    {
        proof {
            lemma_fields_facts(0, insn.0, 8, 16, 0);
            lemma_fields_facts(0, insn.0, 24, 16, 0);
            lemma_fields_facts(0, insn.0, 48, 16, 0);
        }
        bit_or { dst: insn.bits_u(8, 16) as u16, a: insn.bits_u(24, 16) as u16, b: insn.bits_u(48, 16) as u16 }
    }
}

/// Decoded operands of a `bit_xor` instruction
#[derive(PartialEq, Eq, Copy, Clone, Debug, Structural)]
pub struct bit_xor {
    pub dst: u16,
    pub a: u16,
    pub b: u16,
}

impl bit_xor {
    pub open spec fn spec_decode(insn: Insn) -> bit_xor {
        bit_xor { dst: spec_bits_u(insn.0, 8, 16) as u16, a: spec_bits_u(insn.0, 24, 16) as u16, b: spec_bits_u(insn.0, 48, 16) as u16 }
    }

    pub fn decode(insn: Insn) -> (r: bit_xor)
        ensures
            r == bit_xor::spec_decode(insn),
    {
        proof {
            lemma_fields_facts(0, insn.0, 8, 16, 0);
            lemma_fields_facts(0, insn.0, 24, 16, 0);
            lemma_fields_facts(0, insn.0, 48, 16, 0);
        }
        bit_xor { dst: insn.bits_u(8, 16) as u16, a: insn.bits_u(24, 16) as u16, b: insn.bits_u(48, 16) as u16 }
    }
}

/// Decoded operands of a `bit_not` instruction
#[derive(PartialEq, Eq, Copy, Clone, Debug, Structural)]
pub struct bit_not {
    pub dst: u16,
    pub src: u16,
}

impl bit_not {
    pub open spec fn spec_decode(insn: Insn) -> bit_not {
        bit_not { dst: spec_bits_u(insn.0, 8, 16) as u16, src: spec_bits_u(insn.0, 48, 16) as u16 }
    }

    pub fn decode(insn: Insn) -> (r: bit_not)
        ensures
            r == bit_not::spec_decode(insn),
    {
        proof {
            lemma_fields_facts(0, insn.0, 8, 16, 0);
            lemma_fields_facts(0, insn.0, 48, 16, 0);
        }
        bit_not { dst: insn.bits_u(8, 16) as u16, src: insn.bits_u(48, 16) as u16 }
    }
}

/// Decoded operands of a `add` instruction
#[derive(PartialEq, Eq, Copy, Clone, Debug, Structural)]
pub struct add {
    pub dst: u16,
    pub a: u16,
    pub b: u16,
}

impl add {
    pub open spec fn spec_decode(insn: Insn) -> add {
        add { dst: spec_bits_u(insn.0, 8, 16) as u16, a: spec_bits_u(insn.0, 24, 16) as u16, b: spec_bits_u(insn.0, 48, 16) as u16 }
    }

    pub fn decode(insn: Insn) -> (r: add)
        ensures
            r == add::spec_decode(insn),
    {
        proof {
            lemma_fields_facts(0, insn.0, 8, 16, 0);
            lemma_fields_facts(0, insn.0, 24, 16, 0);
            lemma_fields_facts(0, insn.0, 48, 16, 0);
        }
        add { dst: insn.bits_u(8, 16) as u16, a: insn.bits_u(24, 16) as u16, b: insn.bits_u(48, 16) as u16 }
    }
}

/// Decoded operands of a `sub` instruction
#[derive(PartialEq, Eq, Copy, Clone, Debug, Structural)]
pub struct sub {
    pub dst: u16,
    pub a: u16,
    pub b: u16,
}

impl sub {
    pub open spec fn spec_decode(insn: Insn) -> sub {
        sub { dst: spec_bits_u(insn.0, 8, 16) as u16, a: spec_bits_u(insn.0, 24, 16) as u16, b: spec_bits_u(insn.0, 48, 16) as u16 }
    }

    pub fn decode(insn: Insn) -> (r: sub)
        ensures
            r == sub::spec_decode(insn),
    {
        proof {
            lemma_fields_facts(0, insn.0, 8, 16, 0);
            lemma_fields_facts(0, insn.0, 24, 16, 0);
            lemma_fields_facts(0, insn.0, 48, 16, 0);
        }
        sub { dst: insn.bits_u(8, 16) as u16, a: insn.bits_u(24, 16) as u16, b: insn.bits_u(48, 16) as u16 }
    }
}

/// Decoded operands of a `mul` instruction
#[derive(PartialEq, Eq, Copy, Clone, Debug, Structural)]
pub struct mul {
    pub dst: u16,
    pub a: u16,
    pub b: u16,
}

impl mul {
    pub open spec fn spec_decode(insn: Insn) -> mul {
        mul { dst: spec_bits_u(insn.0, 8, 16) as u16, a: spec_bits_u(insn.0, 24, 16) as u16, b: spec_bits_u(insn.0, 48, 16) as u16 }
    }

    pub fn decode(insn: Insn) -> (r: mul)
        ensures
            r == mul::spec_decode(insn),
    {
        proof {
            lemma_fields_facts(0, insn.0, 8, 16, 0);
            lemma_fields_facts(0, insn.0, 24, 16, 0);
            lemma_fields_facts(0, insn.0, 48, 16, 0);
        }
        mul { dst: insn.bits_u(8, 16) as u16, a: insn.bits_u(24, 16) as u16, b: insn.bits_u(48, 16) as u16 }
    }
}

/// Decoded operands of a `div` instruction
#[derive(PartialEq, Eq, Copy, Clone, Debug, Structural)]
pub struct div {
    pub dst: u16,
    pub a: u16,
    pub b: u16,
}

impl div {
    pub open spec fn spec_decode(insn: Insn) -> div {
        div { dst: spec_bits_u(insn.0, 8, 16) as u16, a: spec_bits_u(insn.0, 24, 16) as u16, b: spec_bits_u(insn.0, 48, 16) as u16 }
    }

    pub fn decode(insn: Insn) -> (r: div)
        ensures
            r == div::spec_decode(insn),
    {
        proof {
            lemma_fields_facts(0, insn.0, 8, 16, 0);
            lemma_fields_facts(0, insn.0, 24, 16, 0);
            lemma_fields_facts(0, insn.0, 48, 16, 0);
        }
        div { dst: insn.bits_u(8, 16) as u16, a: insn.bits_u(24, 16) as u16, b: insn.bits_u(48, 16) as u16 }
    }
}

/// Decoded operands of a `div_int` instruction
#[derive(PartialEq, Eq, Copy, Clone, Debug, Structural)]
pub struct div_int {
    pub dst: u16,
    pub a: u16,
    pub b: u16,
}

impl div_int {
    pub open spec fn spec_decode(insn: Insn) -> div_int {
        div_int { dst: spec_bits_u(insn.0, 8, 16) as u16, a: spec_bits_u(insn.0, 24, 16) as u16, b: spec_bits_u(insn.0, 48, 16) as u16 }
    }

    pub fn decode(insn: Insn) -> (r: div_int)
        ensures
            r == div_int::spec_decode(insn),
    {
        proof {
            lemma_fields_facts(0, insn.0, 8, 16, 0);
            lemma_fields_facts(0, insn.0, 24, 16, 0);
            lemma_fields_facts(0, insn.0, 48, 16, 0);
        }
        div_int { dst: insn.bits_u(8, 16) as u16, a: insn.bits_u(24, 16) as u16, b: insn.bits_u(48, 16) as u16 }
    }
}

/// Decoded operands of a `modulo` instruction
#[derive(PartialEq, Eq, Copy, Clone, Debug, Structural)]
pub struct modulo {
    pub dst: u16,
    pub a: u16,
    pub b: u16,
}

impl modulo {
    pub open spec fn spec_decode(insn: Insn) -> modulo {
        modulo { dst: spec_bits_u(insn.0, 8, 16) as u16, a: spec_bits_u(insn.0, 24, 16) as u16, b: spec_bits_u(insn.0, 48, 16) as u16 }
    }

    pub fn decode(insn: Insn) -> (r: modulo)
        ensures
            r == modulo::spec_decode(insn),
    {
        proof {
            lemma_fields_facts(0, insn.0, 8, 16, 0);
            lemma_fields_facts(0, insn.0, 24, 16, 0);
            lemma_fields_facts(0, insn.0, 48, 16, 0);
        }
        modulo { dst: insn.bits_u(8, 16) as u16, a: insn.bits_u(24, 16) as u16, b: insn.bits_u(48, 16) as u16 }
    }
}

/// Decoded operands of a `add_imm16` instruction
#[derive(PartialEq, Eq, Copy, Clone, Debug, Structural)]
pub struct add_imm16 {
    pub dst: u16,
    pub a: u16,
    pub imm: i16,
}

impl add_imm16 {
    pub open spec fn spec_decode(insn: Insn) -> add_imm16 {
        add_imm16 { dst: spec_bits_u(insn.0, 8, 16) as u16, a: spec_bits_u(insn.0, 24, 16) as u16, imm: spec_top_i(insn.0, 16) as i16 }
    }

    pub fn decode(insn: Insn) -> (r: add_imm16)
        ensures
            r == add_imm16::spec_decode(insn),
    {
        proof {
            lemma_fields_facts(0, insn.0, 8, 16, 0);
            lemma_fields_facts(0, insn.0, 24, 16, 0);
            lemma_fields_facts(0, insn.0, 48, 16, 0);
        }
        add_imm16 { dst: insn.bits_u(8, 16) as u16, a: insn.bits_u(24, 16) as u16, imm: insn.top_i(16) as i16 }
    }
}

/// Decoded operands of a `sub_imm16` instruction
#[derive(PartialEq, Eq, Copy, Clone, Debug, Structural)]
pub struct sub_imm16 {
    pub dst: u16,
    pub a: u16,
    pub imm: i16,
}

impl sub_imm16 {
    pub open spec fn spec_decode(insn: Insn) -> sub_imm16 {
        sub_imm16 { dst: spec_bits_u(insn.0, 8, 16) as u16, a: spec_bits_u(insn.0, 24, 16) as u16, imm: spec_top_i(insn.0, 16) as i16 }
    }

    pub fn decode(insn: Insn) -> (r: sub_imm16)
        ensures
            r == sub_imm16::spec_decode(insn),
    {
        proof {
            lemma_fields_facts(0, insn.0, 8, 16, 0);
            lemma_fields_facts(0, insn.0, 24, 16, 0);
            lemma_fields_facts(0, insn.0, 48, 16, 0);
        }
        sub_imm16 { dst: insn.bits_u(8, 16) as u16, a: insn.bits_u(24, 16) as u16, imm: insn.top_i(16) as i16 }
    }
}

/// Decoded operands of a `mul_imm16` instruction
#[derive(PartialEq, Eq, Copy, Clone, Debug, Structural)]
pub struct mul_imm16 {
    pub dst: u16,
    pub a: u16,
    pub imm: i16,
}

impl mul_imm16 {
    pub open spec fn spec_decode(insn: Insn) -> mul_imm16 {
        mul_imm16 { dst: spec_bits_u(insn.0, 8, 16) as u16, a: spec_bits_u(insn.0, 24, 16) as u16, imm: spec_top_i(insn.0, 16) as i16 }
    }

    pub fn decode(insn: Insn) -> (r: mul_imm16)
        ensures
            r == mul_imm16::spec_decode(insn),
    {
        proof {
            lemma_fields_facts(0, insn.0, 8, 16, 0);
            lemma_fields_facts(0, insn.0, 24, 16, 0);
            lemma_fields_facts(0, insn.0, 48, 16, 0);
        }
        mul_imm16 { dst: insn.bits_u(8, 16) as u16, a: insn.bits_u(24, 16) as u16, imm: insn.top_i(16) as i16 }
    }
}

/// Decoded operands of a `not` instruction
#[derive(PartialEq, Eq, Copy, Clone, Debug, Structural)]
pub struct not {
    pub dst: u16,
    pub src: u16,
}

impl not {
    pub open spec fn spec_decode(insn: Insn) -> not {
        not { dst: spec_bits_u(insn.0, 8, 16) as u16, src: spec_bits_u(insn.0, 48, 16) as u16 }
    }

    pub fn decode(insn: Insn) -> (r: not)
        ensures
            r == not::spec_decode(insn),
    {
        proof {
            lemma_fields_facts(0, insn.0, 8, 16, 0);
            lemma_fields_facts(0, insn.0, 48, 16, 0);
        }
        not { dst: insn.bits_u(8, 16) as u16, src: insn.bits_u(48, 16) as u16 }
    }
}

/// Decoded operands of a `clos_new` instruction
#[derive(PartialEq, Eq, Copy, Clone, Debug, Structural)]
pub struct clos_new {
    pub dst: u16,
    pub fun_id: u32,
    pub num_slots: u16,
}

impl clos_new {
    pub open spec fn spec_decode(insn: Insn) -> clos_new {
        clos_new { dst: spec_bits_u(insn.0, 8, 16) as u16, fun_id: spec_bits_u(insn.0, 24, 24) as u32, num_slots: spec_bits_u(insn.0, 52, 12) as u16 }
    }

    pub fn decode(insn: Insn) -> (r: clos_new)
        ensures
            r == clos_new::spec_decode(insn),
    {
        proof {
            lemma_fields_facts(0, insn.0, 8, 16, 0);
            lemma_fields_facts(0, insn.0, 24, 24, 0);
            lemma_fields_facts(0, insn.0, 52, 12, 0);
        }
        clos_new { dst: insn.bits_u(8, 16) as u16, fun_id: insn.bits_u(24, 24) as u32, num_slots: insn.bits_u(52, 12) as u16 }
    }
}

/// Decoded operands of a `clos_set` instruction
#[derive(PartialEq, Eq, Copy, Clone, Debug, Structural)]
pub struct clos_set {
    pub clos: u16,
    pub src: u16,
    pub idx: u16,
}

impl clos_set {
    pub open spec fn spec_decode(insn: Insn) -> clos_set {
        clos_set { clos: spec_bits_u(insn.0, 8, 16) as u16, src: spec_bits_u(insn.0, 24, 16) as u16, idx: spec_bits_u(insn.0, 52, 12) as u16 }
    }

    pub fn decode(insn: Insn) -> (r: clos_set)
        ensures
            r == clos_set::spec_decode(insn),
    {
        proof {
            lemma_fields_facts(0, insn.0, 8, 16, 0);
            lemma_fields_facts(0, insn.0, 24, 16, 0);
            lemma_fields_facts(0, insn.0, 52, 12, 0);
        }
        clos_set { clos: insn.bits_u(8, 16) as u16, src: insn.bits_u(24, 16) as u16, idx: insn.bits_u(52, 12) as u16 }
    }
}

/// Decoded operands of a `clos_get` instruction
#[derive(PartialEq, Eq, Copy, Clone, Debug, Structural)]
pub struct clos_get {
    pub dst: u16,
    pub idx: u16,
}

impl clos_get {
    pub open spec fn spec_decode(insn: Insn) -> clos_get {
        clos_get { dst: spec_bits_u(insn.0, 8, 16) as u16, idx: spec_bits_u(insn.0, 52, 12) as u16 }
    }

    pub fn decode(insn: Insn) -> (r: clos_get)
        ensures
            r == clos_get::spec_decode(insn),
    {
        proof {
            lemma_fields_facts(0, insn.0, 8, 16, 0);
            lemma_fields_facts(0, insn.0, 52, 12, 0);
        }
        clos_get { dst: insn.bits_u(8, 16) as u16, idx: insn.bits_u(52, 12) as u16 }
    }
}

/// Decoded operands of a `cell_new` instruction
#[derive(PartialEq, Eq, Copy, Clone, Debug, Structural)]
pub struct cell_new {
    pub dst: u16,
}

impl cell_new {
    pub open spec fn spec_decode(insn: Insn) -> cell_new {
        cell_new { dst: spec_bits_u(insn.0, 48, 16) as u16 }
    }

    pub fn decode(insn: Insn) -> (r: cell_new)
        ensures
            r == cell_new::spec_decode(insn),
    {
        proof {
            lemma_fields_facts(0, insn.0, 48, 16, 0);
        }
        cell_new { dst: insn.bits_u(48, 16) as u16 }
    }
}

/// Decoded operands of a `cell_set` instruction
#[derive(PartialEq, Eq, Copy, Clone, Debug, Structural)]
pub struct cell_set {
    pub cell: u16,
    pub src: u16,
}

impl cell_set {
    pub open spec fn spec_decode(insn: Insn) -> cell_set {
        cell_set { cell: spec_bits_u(insn.0, 8, 16) as u16, src: spec_bits_u(insn.0, 48, 16) as u16 }
    }

    pub fn decode(insn: Insn) -> (r: cell_set)
        ensures
            r == cell_set::spec_decode(insn),
    {
        proof {
            lemma_fields_facts(0, insn.0, 8, 16, 0);
            lemma_fields_facts(0, insn.0, 48, 16, 0);
        }
        cell_set { cell: insn.bits_u(8, 16) as u16, src: insn.bits_u(48, 16) as u16 }
    }
}

/// Decoded operands of a `cell_get` instruction
#[derive(PartialEq, Eq, Copy, Clone, Debug, Structural)]
pub struct cell_get {
    pub dst: u16,
    pub cell: u16,
}

impl cell_get {
    pub open spec fn spec_decode(insn: Insn) -> cell_get {
        cell_get { dst: spec_bits_u(insn.0, 8, 16) as u16, cell: spec_bits_u(insn.0, 48, 16) as u16 }
    }

    pub fn decode(insn: Insn) -> (r: cell_get)
        ensures
            r == cell_get::spec_decode(insn),
    {
        proof {
            lemma_fields_facts(0, insn.0, 8, 16, 0);
            lemma_fields_facts(0, insn.0, 48, 16, 0);
        }
        cell_get { dst: insn.bits_u(8, 16) as u16, cell: insn.bits_u(48, 16) as u16 }
    }
}

/// Decoded operands of a `instanceof` instruction
#[derive(PartialEq, Eq, Copy, Clone, Debug, Structural)]
pub struct instanceof {
    pub dst: u16,
    pub val: u16,
    pub class_id: u32,
}

impl instanceof {
    pub open spec fn spec_decode(insn: Insn) -> instanceof {
        instanceof { dst: spec_bits_u(insn.0, 8, 16) as u16, val: spec_bits_u(insn.0, 24, 16) as u16, class_id: spec_bits_u(insn.0, 40, 24) as u32 }
    }

    pub fn decode(insn: Insn) -> (r: instanceof)
        ensures
            r == instanceof::spec_decode(insn),
    {
        proof {
            lemma_fields_facts(0, insn.0, 8, 16, 0);
            lemma_fields_facts(0, insn.0, 24, 16, 0);
            lemma_fields_facts(0, insn.0, 40, 24, 0);
        }
        instanceof { dst: insn.bits_u(8, 16) as u16, val: insn.bits_u(24, 16) as u16, class_id: insn.bits_u(40, 24) as u32 }
    }
}

/// Decoded operands of a `get_field` instruction
#[derive(PartialEq, Eq, Copy, Clone, Debug, Structural)]
pub struct get_field {
    pub dst: u16,
    pub obj: u16,
    pub cache: u32,
}

impl get_field {
    pub open spec fn spec_decode(insn: Insn) -> get_field {
        get_field { dst: spec_bits_u(insn.0, 8, 16) as u16, obj: spec_bits_u(insn.0, 24, 16) as u16, cache: spec_bits_u(insn.0, 40, 24) as u32 }
    }

    pub fn decode(insn: Insn) -> (r: get_field)
        ensures
            r == get_field::spec_decode(insn),
    {
        proof {
            lemma_fields_facts(0, insn.0, 8, 16, 0);
            lemma_fields_facts(0, insn.0, 24, 16, 0);
            lemma_fields_facts(0, insn.0, 40, 24, 0);
        }
        get_field { dst: insn.bits_u(8, 16) as u16, obj: insn.bits_u(24, 16) as u16, cache: insn.bits_u(40, 24) as u32 }
    }
}

/// Decoded operands of a `set_field` instruction
#[derive(PartialEq, Eq, Copy, Clone, Debug, Structural)]
pub struct set_field {
    pub obj: u16,
    pub src: u16,
    pub cache: u32,
}

impl set_field {
    pub open spec fn spec_decode(insn: Insn) -> set_field {
        set_field { obj: spec_bits_u(insn.0, 8, 16) as u16, src: spec_bits_u(insn.0, 24, 16) as u16, cache: spec_bits_u(insn.0, 40, 24) as u32 }
    }

    pub fn decode(insn: Insn) -> (r: set_field)
        ensures
            r == set_field::spec_decode(insn),
    {
        proof {
            lemma_fields_facts(0, insn.0, 8, 16, 0);
            lemma_fields_facts(0, insn.0, 24, 16, 0);
            lemma_fields_facts(0, insn.0, 40, 24, 0);
        }
        set_field { obj: insn.bits_u(8, 16) as u16, src: insn.bits_u(24, 16) as u16, cache: insn.bits_u(40, 24) as u32 }
    }
}

/// Decoded operands of a `get_index` instruction
#[derive(PartialEq, Eq, Copy, Clone, Debug, Structural)]
pub struct get_index {
    pub dst: u16,
    pub arr: u16,
    pub idx: u16,
}

impl get_index {
    pub open spec fn spec_decode(insn: Insn) -> get_index {
        get_index { dst: spec_bits_u(insn.0, 8, 16) as u16, arr: spec_bits_u(insn.0, 24, 16) as u16, idx: spec_bits_u(insn.0, 48, 16) as u16 }
    }

    pub fn decode(insn: Insn) -> (r: get_index)
        ensures
            r == get_index::spec_decode(insn),
    {
        proof {
            lemma_fields_facts(0, insn.0, 8, 16, 0);
            lemma_fields_facts(0, insn.0, 24, 16, 0);
            lemma_fields_facts(0, insn.0, 48, 16, 0);
        }
        get_index { dst: insn.bits_u(8, 16) as u16, arr: insn.bits_u(24, 16) as u16, idx: insn.bits_u(48, 16) as u16 }
    }
}

/// Decoded operands of a `set_index` instruction
#[derive(PartialEq, Eq, Copy, Clone, Debug, Structural)]
pub struct set_index {
    pub arr: u16,
    pub idx: u16,
    pub src: u16,
}

impl set_index {
    pub open spec fn spec_decode(insn: Insn) -> set_index {
        set_index { arr: spec_bits_u(insn.0, 8, 16) as u16, idx: spec_bits_u(insn.0, 24, 16) as u16, src: spec_bits_u(insn.0, 48, 16) as u16 }
    }

    pub fn decode(insn: Insn) -> (r: set_index)
        ensures
            r == set_index::spec_decode(insn),
    {
        proof {
            lemma_fields_facts(0, insn.0, 8, 16, 0);
            lemma_fields_facts(0, insn.0, 24, 16, 0);
            lemma_fields_facts(0, insn.0, 48, 16, 0);
        }
        set_index { arr: insn.bits_u(8, 16) as u16, idx: insn.bits_u(24, 16) as u16, src: insn.bits_u(48, 16) as u16 }
    }
}

/// Decoded operands of a `dict_new` instruction
#[derive(PartialEq, Eq, Copy, Clone, Debug, Structural)]
pub struct dict_new {
    pub dst: u16,
}

impl dict_new {
    pub open spec fn spec_decode(insn: Insn) -> dict_new {
        dict_new { dst: spec_bits_u(insn.0, 48, 16) as u16 }
    }

    pub fn decode(insn: Insn) -> (r: dict_new)
        ensures
            r == dict_new::spec_decode(insn),
    {
        proof {
            lemma_fields_facts(0, insn.0, 48, 16, 0);
        }
        dict_new { dst: insn.bits_u(48, 16) as u16 }
    }
}

/// Decoded operands of a `arr_new` instruction
#[derive(PartialEq, Eq, Copy, Clone, Debug, Structural)]
pub struct arr_new {
    pub dst: u16,
    pub capacity: u32,
}

impl arr_new {
    pub open spec fn spec_decode(insn: Insn) -> arr_new {
        arr_new { dst: spec_bits_u(insn.0, 8, 16) as u16, capacity: spec_bits_u(insn.0, 32, 32) as u32 }
    }

    pub fn decode(insn: Insn) -> (r: arr_new)
        ensures
            r == arr_new::spec_decode(insn),
    {
        proof {
            lemma_fields_facts(0, insn.0, 8, 16, 0);
            lemma_fields_facts(0, insn.0, 32, 32, 0);
        }
        arr_new { dst: insn.bits_u(8, 16) as u16, capacity: insn.bits_u(32, 32) as u32 }
    }
}

/// Decoded operands of a `arr_push` instruction
#[derive(PartialEq, Eq, Copy, Clone, Debug, Structural)]
pub struct arr_push {
    pub arr: u16,
    pub val: u16,
}

impl arr_push {
    pub open spec fn spec_decode(insn: Insn) -> arr_push {
        arr_push { arr: spec_bits_u(insn.0, 8, 16) as u16, val: spec_bits_u(insn.0, 48, 16) as u16 }
    }

    pub fn decode(insn: Insn) -> (r: arr_push)
        ensures
            r == arr_push::spec_decode(insn),
    {
        proof {
            lemma_fields_facts(0, insn.0, 8, 16, 0);
            lemma_fields_facts(0, insn.0, 48, 16, 0);
        }
        arr_push { arr: insn.bits_u(8, 16) as u16, val: insn.bits_u(48, 16) as u16 }
    }
}

/// Decoded operands of a `ba_clone` instruction
#[derive(PartialEq, Eq, Copy, Clone, Debug, Structural)]
pub struct ba_clone {
    pub dst: u16,
    pub src: u16,
}

impl ba_clone {
    pub open spec fn spec_decode(insn: Insn) -> ba_clone {
        ba_clone { dst: spec_bits_u(insn.0, 8, 16) as u16, src: spec_bits_u(insn.0, 48, 16) as u16 }
    }

    pub fn decode(insn: Insn) -> (r: ba_clone)
        ensures
            r == ba_clone::spec_decode(insn),
    {
        proof {
            lemma_fields_facts(0, insn.0, 8, 16, 0);
            lemma_fields_facts(0, insn.0, 48, 16, 0);
        }
        ba_clone { dst: insn.bits_u(8, 16) as u16, src: insn.bits_u(48, 16) as u16 }
    }
}

/// Decoded operands of a `if_true` instruction
#[derive(PartialEq, Eq, Copy, Clone, Debug, Structural)]
pub struct if_true {
    pub val: u16,
    pub disp: i32,
}

impl if_true {
    pub open spec fn spec_decode(insn: Insn) -> if_true {
        if_true { val: spec_bits_u(insn.0, 8, 16) as u16, disp: spec_top_i(insn.0, 32) as i32 }
    }

    pub fn decode(insn: Insn) -> (r: if_true)
        ensures
            r == if_true::spec_decode(insn),
    {
        proof {
            lemma_fields_facts(0, insn.0, 8, 16, 0);
            lemma_fields_facts(0, insn.0, 32, 32, 0);
        }
        if_true { val: insn.bits_u(8, 16) as u16, disp: insn.top_i(32) as i32 }
    }
}

/// Decoded operands of a `if_false` instruction
#[derive(PartialEq, Eq, Copy, Clone, Debug, Structural)]
pub struct if_false {
    pub val: u16,
    pub disp: i32,
}

impl if_false {
    pub open spec fn spec_decode(insn: Insn) -> if_false {
        if_false { val: spec_bits_u(insn.0, 8, 16) as u16, disp: spec_top_i(insn.0, 32) as i32 }
    }

    pub fn decode(insn: Insn) -> (r: if_false)
        ensures
            r == if_false::spec_decode(insn),
    {
        proof {
            lemma_fields_facts(0, insn.0, 8, 16, 0);
            lemma_fields_facts(0, insn.0, 32, 32, 0);
        }
        if_false { val: insn.bits_u(8, 16) as u16, disp: insn.top_i(32) as i32 }
    }
}

/// Decoded operands of a `jeq` instruction
#[derive(PartialEq, Eq, Copy, Clone, Debug, Structural)]
pub struct jeq {
    pub a: u16,
    pub b: u16,
    pub disp: i32,
}

impl jeq {
    pub open spec fn spec_decode(insn: Insn) -> jeq {
        jeq { a: spec_bits_u(insn.0, 8, 16) as u16, b: spec_bits_u(insn.0, 24, 16) as u16, disp: spec_top_i(insn.0, 24) as i32 }
    }

    pub fn decode(insn: Insn) -> (r: jeq)
        ensures
            r == jeq::spec_decode(insn),
    {
        proof {
            lemma_fields_facts(0, insn.0, 8, 16, 0);
            lemma_fields_facts(0, insn.0, 24, 16, 0);
            lemma_fields_facts(0, insn.0, 40, 24, 0);
        }
        jeq { a: insn.bits_u(8, 16) as u16, b: insn.bits_u(24, 16) as u16, disp: insn.top_i(24) as i32 }
    }
}

/// Decoded operands of a `jne` instruction
#[derive(PartialEq, Eq, Copy, Clone, Debug, Structural)]
pub struct jne {
    pub a: u16,
    pub b: u16,
    pub disp: i32,
}

impl jne {
    pub open spec fn spec_decode(insn: Insn) -> jne {
        jne { a: spec_bits_u(insn.0, 8, 16) as u16, b: spec_bits_u(insn.0, 24, 16) as u16, disp: spec_top_i(insn.0, 24) as i32 }
    }

    pub fn decode(insn: Insn) -> (r: jne)
        ensures
            r == jne::spec_decode(insn),
    {
        proof {
            lemma_fields_facts(0, insn.0, 8, 16, 0);
            lemma_fields_facts(0, insn.0, 24, 16, 0);
            lemma_fields_facts(0, insn.0, 40, 24, 0);
        }
        jne { a: insn.bits_u(8, 16) as u16, b: insn.bits_u(24, 16) as u16, disp: insn.top_i(24) as i32 }
    }
}

/// Decoded operands of a `jlt` instruction
#[derive(PartialEq, Eq, Copy, Clone, Debug, Structural)]
pub struct jlt {
    pub a: u16,
    pub b: u16,
    pub disp: i32,
}

impl jlt {
    pub open spec fn spec_decode(insn: Insn) -> jlt {
        jlt { a: spec_bits_u(insn.0, 8, 16) as u16, b: spec_bits_u(insn.0, 24, 16) as u16, disp: spec_top_i(insn.0, 24) as i32 }
    }

    pub fn decode(insn: Insn) -> (r: jlt)
        ensures
            r == jlt::spec_decode(insn),
    {
        proof {
            lemma_fields_facts(0, insn.0, 8, 16, 0);
            lemma_fields_facts(0, insn.0, 24, 16, 0);
            lemma_fields_facts(0, insn.0, 40, 24, 0);
        }
        jlt { a: insn.bits_u(8, 16) as u16, b: insn.bits_u(24, 16) as u16, disp: insn.top_i(24) as i32 }
    }
}

/// Decoded operands of a `jle` instruction
#[derive(PartialEq, Eq, Copy, Clone, Debug, Structural)]
pub struct jle {
    pub a: u16,
    pub b: u16,
    pub disp: i32,
}

impl jle {
    pub open spec fn spec_decode(insn: Insn) -> jle {
        jle { a: spec_bits_u(insn.0, 8, 16) as u16, b: spec_bits_u(insn.0, 24, 16) as u16, disp: spec_top_i(insn.0, 24) as i32 }
    }

    pub fn decode(insn: Insn) -> (r: jle)
        ensures
            r == jle::spec_decode(insn),
    {
        proof {
            lemma_fields_facts(0, insn.0, 8, 16, 0);
            lemma_fields_facts(0, insn.0, 24, 16, 0);
            lemma_fields_facts(0, insn.0, 40, 24, 0);
        }
        jle { a: insn.bits_u(8, 16) as u16, b: insn.bits_u(24, 16) as u16, disp: insn.top_i(24) as i32 }
    }
}

/// Decoded operands of a `jgt` instruction
#[derive(PartialEq, Eq, Copy, Clone, Debug, Structural)]
pub struct jgt {
    pub a: u16,
    pub b: u16,
    pub disp: i32,
}

impl jgt {
    pub open spec fn spec_decode(insn: Insn) -> jgt {
        jgt { a: spec_bits_u(insn.0, 8, 16) as u16, b: spec_bits_u(insn.0, 24, 16) as u16, disp: spec_top_i(insn.0, 24) as i32 }
    }

    pub fn decode(insn: Insn) -> (r: jgt)
        ensures
            r == jgt::spec_decode(insn),
    {
        proof {
            lemma_fields_facts(0, insn.0, 8, 16, 0);
            lemma_fields_facts(0, insn.0, 24, 16, 0);
            lemma_fields_facts(0, insn.0, 40, 24, 0);
        }
        jgt { a: insn.bits_u(8, 16) as u16, b: insn.bits_u(24, 16) as u16, disp: insn.top_i(24) as i32 }
    }
}

/// Decoded operands of a `jge` instruction
#[derive(PartialEq, Eq, Copy, Clone, Debug, Structural)]
pub struct jge {
    pub a: u16,
    pub b: u16,
    pub disp: i32,
}

impl jge {
    pub open spec fn spec_decode(insn: Insn) -> jge {
        jge { a: spec_bits_u(insn.0, 8, 16) as u16, b: spec_bits_u(insn.0, 24, 16) as u16, disp: spec_top_i(insn.0, 24) as i32 }
    }

    pub fn decode(insn: Insn) -> (r: jge)
        ensures
            r == jge::spec_decode(insn),
    {
        proof {
            lemma_fields_facts(0, insn.0, 8, 16, 0);
            lemma_fields_facts(0, insn.0, 24, 16, 0);
            lemma_fields_facts(0, insn.0, 40, 24, 0);
        }
        jge { a: insn.bits_u(8, 16) as u16, b: insn.bits_u(24, 16) as u16, disp: insn.top_i(24) as i32 }
    }
}

/// Decoded operands of a `jmp` instruction
#[derive(PartialEq, Eq, Copy, Clone, Debug, Structural)]
pub struct jmp {
    pub disp: i32,
}

impl jmp {
    pub open spec fn spec_decode(insn: Insn) -> jmp {
        jmp { disp: spec_top_i(insn.0, 32) as i32 }
    }

    pub fn decode(insn: Insn) -> (r: jmp)
        ensures
            r == jmp::spec_decode(insn),
    {
        proof {
            lemma_fields_facts(0, insn.0, 32, 32, 0);
        }
        jmp { disp: insn.top_i(32) as i32 }
    }
}

/// Decoded operands of a `call_opnd` instruction
#[derive(PartialEq, Eq, Copy, Clone, Debug, Structural)]
pub struct call_opnd {
    pub start_reg: u16,
    pub argc: u8,
    pub cache: u32,
}

impl call_opnd {
    pub open spec fn spec_decode(insn: Insn) -> call_opnd {
        call_opnd { start_reg: spec_bits_u(insn.0, 8, 16) as u16, argc: spec_bits_u(insn.0, 24, 8) as u8, cache: spec_bits_u(insn.0, 40, 24) as u32 }
    }

    pub fn decode(insn: Insn) -> (r: call_opnd)
        ensures
            r == call_opnd::spec_decode(insn),
    {
        proof {
            lemma_fields_facts(0, insn.0, 8, 16, 0);
            lemma_fields_facts(0, insn.0, 24, 8, 0);
            lemma_fields_facts(0, insn.0, 40, 24, 0);
        }
        call_opnd { start_reg: insn.bits_u(8, 16) as u16, argc: insn.bits_u(24, 8) as u8, cache: insn.bits_u(40, 24) as u32 }
    }
}

/// Decoded operands of a `call_host` instruction
#[derive(PartialEq, Eq, Copy, Clone, Debug, Structural)]
pub struct call_host {
    pub host_fn: u16,
    pub start_reg: u16,
    pub argc: u8,
}

impl call_host {
    pub open spec fn spec_decode(insn: Insn) -> call_host {
        call_host { host_fn: spec_bits_u(insn.0, 8, 16) as u16, start_reg: spec_bits_u(insn.0, 24, 16) as u16, argc: spec_bits_u(insn.0, 56, 8) as u8 }
    }

    pub fn decode(insn: Insn) -> (r: call_host)
        ensures
            r == call_host::spec_decode(insn),
    {
        proof {
            lemma_fields_facts(0, insn.0, 8, 16, 0);
            lemma_fields_facts(0, insn.0, 24, 16, 0);
            lemma_fields_facts(0, insn.0, 56, 8, 0);
        }
        call_host { host_fn: insn.bits_u(8, 16) as u16, start_reg: insn.bits_u(24, 16) as u16, argc: insn.bits_u(56, 8) as u8 }
    }
}

/// Decoded operands of a `call_direct` instruction
#[derive(PartialEq, Eq, Copy, Clone, Debug, Structural)]
pub struct call_direct {
    pub fun: u32,
    pub start_reg: u16,
    pub argc: u8,
}

impl call_direct {
    pub open spec fn spec_decode(insn: Insn) -> call_direct {
        call_direct { fun: spec_bits_u(insn.0, 8, 24) as u32, start_reg: spec_bits_u(insn.0, 32, 16) as u16, argc: spec_bits_u(insn.0, 56, 8) as u8 }
    }

    pub fn decode(insn: Insn) -> (r: call_direct)
        ensures
            r == call_direct::spec_decode(insn),
    {
        proof {
            lemma_fields_facts(0, insn.0, 8, 24, 0);
            lemma_fields_facts(0, insn.0, 32, 16, 0);
            lemma_fields_facts(0, insn.0, 56, 8, 0);
        }
        call_direct { fun: insn.bits_u(8, 24) as u32, start_reg: insn.bits_u(32, 16) as u16, argc: insn.bits_u(56, 8) as u8 }
    }
}

/// Decoded operands of a `call_pc` instruction
#[derive(PartialEq, Eq, Copy, Clone, Debug, Structural)]
pub struct call_pc {
    pub start_reg: u16,
    pub argc: u8,
    pub cache: u32,
}

impl call_pc {
    pub open spec fn spec_decode(insn: Insn) -> call_pc {
        call_pc { start_reg: spec_bits_u(insn.0, 8, 16) as u16, argc: spec_bits_u(insn.0, 24, 8) as u8, cache: spec_bits_u(insn.0, 40, 24) as u32 }
    }

    pub fn decode(insn: Insn) -> (r: call_pc)
        ensures
            r == call_pc::spec_decode(insn),
    {
        proof {
            lemma_fields_facts(0, insn.0, 8, 16, 0);
            lemma_fields_facts(0, insn.0, 24, 8, 0);
            lemma_fields_facts(0, insn.0, 40, 24, 0);
        }
        call_pc { start_reg: insn.bits_u(8, 16) as u16, argc: insn.bits_u(24, 8) as u8, cache: insn.bits_u(40, 24) as u32 }
    }
}

/// Decoded operands of a `call_method` instruction
#[derive(PartialEq, Eq, Copy, Clone, Debug, Structural)]
pub struct call_method {
    pub start_reg: u16,
    pub argc: u8,
    pub cache: u32,
}

impl call_method {
    pub open spec fn spec_decode(insn: Insn) -> call_method {
        call_method { start_reg: spec_bits_u(insn.0, 8, 16) as u16, argc: spec_bits_u(insn.0, 24, 8) as u8, cache: spec_bits_u(insn.0, 40, 24) as u32 }
    }

    pub fn decode(insn: Insn) -> (r: call_method)
        ensures
            r == call_method::spec_decode(insn),
    {
        proof {
            lemma_fields_facts(0, insn.0, 8, 16, 0);
            lemma_fields_facts(0, insn.0, 24, 8, 0);
            lemma_fields_facts(0, insn.0, 40, 24, 0);
        }
        call_method { start_reg: insn.bits_u(8, 16) as u16, argc: insn.bits_u(24, 8) as u8, cache: insn.bits_u(40, 24) as u32 }
    }
}

/// Decoded operands of a `call_method_host` instruction
#[derive(PartialEq, Eq, Copy, Clone, Debug, Structural)]
pub struct call_method_host {
    pub start_reg: u16,
    pub argc: u8,
    pub type_tag: u8,
    pub cache: u32,
}

impl call_method_host {
    pub open spec fn spec_decode(insn: Insn) -> call_method_host {
        call_method_host { start_reg: spec_bits_u(insn.0, 8, 16) as u16, argc: spec_bits_u(insn.0, 24, 8) as u8, type_tag: spec_bits_u(insn.0, 32, 8) as u8, cache: spec_bits_u(insn.0, 40, 24) as u32 }
    }

    pub fn decode(insn: Insn) -> (r: call_method_host)
        ensures
            r == call_method_host::spec_decode(insn),
    {
        proof {
            lemma_fields_facts(0, insn.0, 8, 16, 0);
            lemma_fields_facts(0, insn.0, 24, 8, 0);
            lemma_fields_facts(0, insn.0, 32, 8, 0);
            lemma_fields_facts(0, insn.0, 40, 24, 0);
        }
        call_method_host { start_reg: insn.bits_u(8, 16) as u16, argc: insn.bits_u(24, 8) as u8, type_tag: insn.bits_u(32, 8) as u8, cache: insn.bits_u(40, 24) as u32 }
    }
}

/// Decoded operands of a `new` instruction
#[derive(PartialEq, Eq, Copy, Clone, Debug, Structural)]
pub struct new {
    pub class_id: u32,
    pub start_reg: u16,
    pub argc: u8,
}

impl new {
    pub open spec fn spec_decode(insn: Insn) -> new {
        new { class_id: spec_bits_u(insn.0, 8, 24) as u32, start_reg: spec_bits_u(insn.0, 32, 16) as u16, argc: spec_bits_u(insn.0, 56, 8) as u8 }
    }

    pub fn decode(insn: Insn) -> (r: new)
        ensures
            r == new::spec_decode(insn),
    {
        proof {
            lemma_fields_facts(0, insn.0, 8, 24, 0);
            lemma_fields_facts(0, insn.0, 32, 16, 0);
            lemma_fields_facts(0, insn.0, 56, 8, 0);
        }
        new { class_id: insn.bits_u(8, 24) as u32, start_reg: insn.bits_u(32, 16) as u16, argc: insn.bits_u(56, 8) as u8 }
    }
}

/// Decoded operands of a `new_known_ctor` instruction
#[derive(PartialEq, Eq, Copy, Clone, Debug, Structural)]
pub struct new_known_ctor {
    pub start_reg: u16,
    pub argc: u8,
    pub cache: u32,
}

impl new_known_ctor {
    pub open spec fn spec_decode(insn: Insn) -> new_known_ctor {
        new_known_ctor { start_reg: spec_bits_u(insn.0, 8, 16) as u16, argc: spec_bits_u(insn.0, 24, 8) as u8, cache: spec_bits_u(insn.0, 40, 24) as u32 }
    }

    pub fn decode(insn: Insn) -> (r: new_known_ctor)
        ensures
            r == new_known_ctor::spec_decode(insn),
    {
        proof {
            lemma_fields_facts(0, insn.0, 8, 16, 0);
            lemma_fields_facts(0, insn.0, 24, 8, 0);
            lemma_fields_facts(0, insn.0, 40, 24, 0);
        }
        new_known_ctor { start_reg: insn.bits_u(8, 16) as u16, argc: insn.bits_u(24, 8) as u8, cache: insn.bits_u(40, 24) as u32 }
    }
}

/// Decoded operands of a `ret` instruction
#[derive(PartialEq, Eq, Copy, Clone, Debug, Structural)]
pub struct ret {
    pub src: u16,
}

impl ret {
    pub open spec fn spec_decode(insn: Insn) -> ret {
        ret { src: spec_bits_u(insn.0, 48, 16) as u16 }
    }

    pub fn decode(insn: Insn) -> (r: ret)
        ensures
            r == ret::spec_decode(insn),
    {
        proof {
            lemma_fields_facts(0, insn.0, 48, 16, 0);
        }
        ret { src: insn.bits_u(48, 16) as u16 }
    }
}

/// Decoded operands of a `ret_nil` instruction
#[derive(PartialEq, Eq, Copy, Clone, Debug, Structural)]
pub struct ret_nil {
}

impl ret_nil {
    pub open spec fn spec_decode(insn: Insn) -> ret_nil {
        ret_nil {  }
    }

    pub fn decode(insn: Insn) -> (r: ret_nil)
        ensures
            r == ret_nil::spec_decode(insn),
    {
        ret_nil {  }
    }
}

/// Decoded operands of a `ret_imm32` instruction
#[derive(PartialEq, Eq, Copy, Clone, Debug, Structural)]
pub struct ret_imm32 {
    pub imm: i32,
}

impl ret_imm32 {
    pub open spec fn spec_decode(insn: Insn) -> ret_imm32 {
        ret_imm32 { imm: spec_top_i(insn.0, 32) as i32 }
    }

    pub fn decode(insn: Insn) -> (r: ret_imm32)
        ensures
            r == ret_imm32::spec_decode(insn),
    {
        proof {
            lemma_fields_facts(0, insn.0, 32, 32, 0);
        }
        ret_imm32 { imm: insn.top_i(32) as i32 }
    }
}

/// Index into the program's interned name table, which holds field and
/// method names
pub type NameId = u32;

/// Index into a function's array of inline cache entries
pub type CacheIdx = u32;

/// Cache for a field access site
pub struct PropCache {
    pub name: NameId,
    // Class the field was last looked up on, and where it was found.
    // The slot index is only valid for objects of that class
    pub class_id: u32,
    pub slot_idx: u32,
}

/// Cache for a call site whose callee is not statically known
pub struct CallCache {
    pub name: NameId,
    pub class_id: u32,
    // Callee the site resolved to, with its entry point and frame size
    pub fun_id: u32,
    pub entry_pc: u32,
    pub num_locals: u16,
    // Host function a host method call site resolved to
    pub host_fn: crate::host::HostFnId,
}

} // verus!
