//! Methods of the built-in types, which the host provides.
use vstd::prelude::*;
use crate::allocator::Alloc;
use crate::host::HostFnId;
use crate::ids::{ARRAY_ID, BYTEARRAY_ID, STRING_ID};
use crate::insns::str_eq;
use crate::value::{Type, Value, IMM_TRUE};
use crate::ids::ClassId;
use crate::heap::{class_id_of, spec_class_id_of};

verus! {

/// Index in the host function table of a method that a value of a given
/// type has by name, for the types whose methods do not depend on the
/// value itself
pub open spec fn spec_type_method(t: Type, name: Seq<char>) -> Option<nat> {
    if t == Type::Int64 {
        if name == "abs"@ { Some(31nat) } else
        if name == "min"@ { Some(32nat) } else
        if name == "max"@ { Some(33nat) } else
        if name == "clip"@ { Some(34nat) } else
        if name == "idiv"@ { Some(35nat) } else
        if name == "to_f"@ { Some(36nat) } else
        if name == "to_s"@ { Some(37nat) } else
        if name == "comma_sep"@ { Some(38nat) } else
        if name == "to_hex"@ { Some(39nat) } else
        { None }
    } else if t == Type::Float64 {
        if name == "abs"@ { Some(40nat) } else
        if name == "ceil"@ { Some(41nat) } else
        if name == "floor"@ { Some(42nat) } else
        if name == "trunc"@ { Some(43nat) } else
        if name == "sin"@ { Some(44nat) } else
        if name == "cos"@ { Some(45nat) } else
        if name == "tan"@ { Some(46nat) } else
        if name == "atan"@ { Some(47nat) } else
        if name == "sqrt"@ { Some(48nat) } else
        if name == "min"@ { Some(49nat) } else
        if name == "max"@ { Some(50nat) } else
        if name == "clip"@ { Some(51nat) } else
        if name == "pow"@ { Some(52nat) } else
        if name == "exp"@ { Some(53nat) } else
        if name == "ln"@ { Some(54nat) } else
        if name == "to_f"@ { Some(55nat) } else
        if name == "to_s"@ { Some(56nat) } else
        if name == "format_decimals"@ { Some(57nat) } else
        { None }
    } else if t == Type::String {
        if name == "byte_at"@ { Some(59nat) } else
        if name == "char_at"@ { Some(60nat) } else
        if name == "parse_int"@ { Some(61nat) } else
        if name == "parse_float"@ { Some(62nat) } else
        if name == "trim"@ { Some(63nat) } else
        if name == "upper"@ { Some(64nat) } else
        if name == "lower"@ { Some(65nat) } else
        if name == "split"@ { Some(66nat) } else
        if name == "to_s"@ { Some(67nat) } else
        { None }
    } else if t == Type::Array {
        if name == "push"@ { Some(69nat) } else
        if name == "pop"@ { Some(70nat) } else
        if name == "remove"@ { Some(71nat) } else
        if name == "insert"@ { Some(72nat) } else
        if name == "append"@ { Some(73nat) } else
        if name == "resize"@ { Some(74nat) } else
        { None }
    } else if t == Type::ByteArray {
        if name == "load_u32"@ { Some(76nat) } else
        if name == "store_u32"@ { Some(77nat) } else
        if name == "load_u16"@ { Some(78nat) } else
        if name == "store_u16"@ { Some(79nat) } else
        if name == "load_f32"@ { Some(80nat) } else
        if name == "store_f32"@ { Some(81nat) } else
        if name == "get_u32"@ { Some(82nat) } else
        if name == "set_u32"@ { Some(83nat) } else
        if name == "get_f32"@ { Some(84nat) } else
        if name == "set_f32"@ { Some(85nat) } else
        if name == "dot_f32"@ { Some(86nat) } else
        if name == "num_u32"@ { Some(87nat) } else
        if name == "num_f32"@ { Some(87nat) } else
        if name == "memcpy"@ { Some(88nat) } else
        if name == "resize"@ { Some(89nat) } else
        if name == "zero_fill"@ { Some(90nat) } else
        if name == "fill_u32"@ { Some(91nat) } else
        if name == "read_u32"@ { Some(82nat) } else
        if name == "write_u32"@ { Some(83nat) } else
        if name == "blit_bgra32"@ { Some(94nat) } else
        { None }
    } else if t == Type::Dict {
        if name == "has"@ { Some(92nat) } else
        { None }
    } else if t == Type::Fun {
        if name == "dump_bytecode"@ { Some(93nat) } else
        { None }
    } else if t == Type::Closure {
        if name == "dump_bytecode"@ { Some(93nat) } else
        { None }
    } else {
        None
    }
}

/// Index in the host function table of the method a value has by a given
/// name: `to_s` of booleans and nil, the static constructors called on
/// the built-in classes, and the methods of each built-in type. None if
/// the value has no such method.
pub open spec fn spec_get_method(val: Value, heap: Alloc, name: Seq<char>) -> Option<nat> {
    let t = val.spec_type_of(heap)->0;
    if t == Type::Bool {
        if name == "to_s"@ { Some(if val.bits() == IMM_TRUE { 28nat } else { 29nat }) } else { None }
    } else if t == Type::Nil {
        if name == "to_s"@ { Some(30nat) } else { None }
    } else if t == Type::Class {
        let c = val.spec_payload();
        if c == STRING_ID && name == "from_codepoint"@ {
            Some(58nat)
        } else if c == ARRAY_ID && name == "with_size"@ {
            Some(68nat)
        } else if c == BYTEARRAY_ID && name == "with_size"@ {
            Some(75nat)
        } else {
            None
        }
    } else {
        spec_type_method(t, name)
    }
}

/// Find the host function implementing a method of a built-in type.
/// Dispatch is on the type first, so that a value with no methods at all
/// costs no string comparison.
pub fn get_method(val: Value, heap: &Alloc, method_name: &str) -> (r: Option<HostFnId>)
    requires
        val.points_into(*heap),
        val.spec_type_of(*heap) is Some,
    ensures
        match r {
            Some(f) => spec_get_method(val, *heap, method_name@) == Some(f.index()),
            None => spec_get_method(val, *heap, method_name@) is None,
        },
{
    let idx: u16 = match val.type_of(heap) {
        Type::Bool => {
            if str_eq(method_name, "to_s") {
                if val.raw_bits() == IMM_TRUE { 28 } else { 29 }
            } else {
                return None;
            }
        }
        Type::Nil => {
            if str_eq(method_name, "to_s") { 30 } else { return None; }
        }
        Type::Class => {
            let c = val.payload();
            if c == STRING_ID as u64 && str_eq(method_name, "from_codepoint") {
                58
            } else if c == ARRAY_ID as u64 && str_eq(method_name, "with_size") {
                68
            } else if c == BYTEARRAY_ID as u64 && str_eq(method_name, "with_size") {
                75
            } else {
                return None;
            }
        }
        Type::Int64 => {
            if str_eq(method_name, "abs") { 31 } else
            if str_eq(method_name, "min") { 32 } else
            if str_eq(method_name, "max") { 33 } else
            if str_eq(method_name, "clip") { 34 } else
            if str_eq(method_name, "idiv") { 35 } else
            if str_eq(method_name, "to_f") { 36 } else
            if str_eq(method_name, "to_s") { 37 } else
            if str_eq(method_name, "comma_sep") { 38 } else
            if str_eq(method_name, "to_hex") { 39 } else
            { return None; }
        }
        Type::Float64 => {
            if str_eq(method_name, "abs") { 40 } else
            if str_eq(method_name, "ceil") { 41 } else
            if str_eq(method_name, "floor") { 42 } else
            if str_eq(method_name, "trunc") { 43 } else
            if str_eq(method_name, "sin") { 44 } else
            if str_eq(method_name, "cos") { 45 } else
            if str_eq(method_name, "tan") { 46 } else
            if str_eq(method_name, "atan") { 47 } else
            if str_eq(method_name, "sqrt") { 48 } else
            if str_eq(method_name, "min") { 49 } else
            if str_eq(method_name, "max") { 50 } else
            if str_eq(method_name, "clip") { 51 } else
            if str_eq(method_name, "pow") { 52 } else
            if str_eq(method_name, "exp") { 53 } else
            if str_eq(method_name, "ln") { 54 } else
            if str_eq(method_name, "to_f") { 55 } else
            if str_eq(method_name, "to_s") { 56 } else
            if str_eq(method_name, "format_decimals") { 57 } else
            { return None; }
        }
        Type::String => {
            if str_eq(method_name, "byte_at") { 59 } else
            if str_eq(method_name, "char_at") { 60 } else
            if str_eq(method_name, "parse_int") { 61 } else
            if str_eq(method_name, "parse_float") { 62 } else
            if str_eq(method_name, "trim") { 63 } else
            if str_eq(method_name, "upper") { 64 } else
            if str_eq(method_name, "lower") { 65 } else
            if str_eq(method_name, "split") { 66 } else
            if str_eq(method_name, "to_s") { 67 } else
            { return None; }
        }
        Type::Array => {
            if str_eq(method_name, "push") { 69 } else
            if str_eq(method_name, "pop") { 70 } else
            if str_eq(method_name, "remove") { 71 } else
            if str_eq(method_name, "insert") { 72 } else
            if str_eq(method_name, "append") { 73 } else
            if str_eq(method_name, "resize") { 74 } else
            { return None; }
        }
        Type::ByteArray => {
            if str_eq(method_name, "load_u32") { 76 } else
            if str_eq(method_name, "store_u32") { 77 } else
            if str_eq(method_name, "load_u16") { 78 } else
            if str_eq(method_name, "store_u16") { 79 } else
            if str_eq(method_name, "load_f32") { 80 } else
            if str_eq(method_name, "store_f32") { 81 } else
            if str_eq(method_name, "get_u32") { 82 } else
            if str_eq(method_name, "set_u32") { 83 } else
            if str_eq(method_name, "get_f32") { 84 } else
            if str_eq(method_name, "set_f32") { 85 } else
            if str_eq(method_name, "dot_f32") { 86 } else
            if str_eq(method_name, "num_u32") { 87 } else
            if str_eq(method_name, "num_f32") { 87 } else
            if str_eq(method_name, "memcpy") { 88 } else
            if str_eq(method_name, "resize") { 89 } else
            if str_eq(method_name, "zero_fill") { 90 } else
            if str_eq(method_name, "fill_u32") { 91 } else
            if str_eq(method_name, "read_u32") { 82 } else
            if str_eq(method_name, "write_u32") { 83 } else
            if str_eq(method_name, "blit_bgra32") { 94 } else
            { return None; }
        }
        Type::Dict => {
            if str_eq(method_name, "has") { 92 } else
            { return None; }
        }
        Type::Fun => {
            if str_eq(method_name, "dump_bytecode") { 93 } else
            { return None; }
        }
        Type::Closure => {
            if str_eq(method_name, "dump_bytecode") { 93 } else
            { return None; }
        }
        _ => { return None; }
    };
    Some(HostFnId::from_index(idx))
}

/// Class of a value: the built-in class of a number, of nil, of a
/// boolean or of a built-in heap type, and for an object the class it was
/// made from. Only values that have a class can be asked
pub fn get_class_id(val: Value, heap: &Alloc) -> (r: ClassId)
    requires
        heap.wf(),
        spec_class_id_of(val, *heap) is Some,
    ensures
        spec_class_id_of(val, *heap) == Some(r.index() as int),
{
    match class_id_of(val, heap) {
        Some(c) => c,
        None => ClassId::new(0),
    }
}

} // verus!
