use plush::allocator::{Alloc, Tag, HEADER_SIZE};
use plush::closure::Closure;
use plush::codegen::fits_imm40;
use plush::ids::{ClassId, FunId, INT64_ID, NIL_ID, STRING_ID};
use plush::runtime::{get_class_id, get_method};
use plush::str::Str;
use plush::value::Value;

#[test]
fn closure_slots()
{
    let mut heap = Alloc::with_size(1024 * 1024, 4096);
    let c = Closure::new(FunId::new(7), 3, &mut heap).unwrap();
    assert_eq!(c.num_slots(&heap), 3);
    assert_eq!(c.fun_id(&heap), FunId::new(7));
    assert!(c.get(&heap, 1).is_undef());
    c.set(&mut heap, 1, Value::fixnum(42));
    assert_eq!(c.get(&heap, 1), Value::fixnum(42));
    assert!(c.get(&heap, 0).is_undef());
    assert_eq!(Closure::alloc_size(3), HEADER_SIZE + 24);
}

#[test]
fn string_blocks()
{
    let mut heap = Alloc::with_size(1024 * 1024, 4096);
    let v = Str::new("hello", &mut heap).unwrap();
    let s = Str { addr: v.raw_bits() & !7 };
    assert_eq!(s.len(&heap), 5);
    assert_eq!(Str::alloc_size(5), HEADER_SIZE + 8);
    assert_eq!(Str::alloc_size(16), HEADER_SIZE + 16);
    assert_eq!(Str::alloc_size(0), HEADER_SIZE);
}

#[test]
fn class_ids_of_values()
{
    let mut heap = Alloc::with_size(1024 * 1024, 4096);
    assert_eq!(get_class_id(Value::fixnum(3), &heap), ClassId::new(INT64_ID));
    assert_eq!(get_class_id(Value::NIL(), &heap), ClassId::new(NIL_ID));
    let v = Str::new("x", &mut heap).unwrap();
    assert_eq!(get_class_id(v, &heap), ClassId::new(STRING_ID));
}

#[test]
fn forty_bit_immediates()
{
    assert!(fits_imm40(Value::fixnum(0)));
    assert!(fits_imm40(Value::fixnum(-1)));
    assert!(fits_imm40(Value::from_raw_bits(0x7F_FFFF_FFFF)));
    assert!(!fits_imm40(Value::from_raw_bits(0x80_0000_0000)));
    assert!(fits_imm40(Value::from_raw_bits(0xFFFF_FF80_0000_0000)));
    assert!(!fits_imm40(Value::from_raw_bits(0xFFFF_FF7F_FFFF_FFFC)));
}

#[test]
fn documented_bytearray_methods()
{
    let mut heap = Alloc::with_size(1024 * 1024, 4096);
    let p = heap.alloc_fixed(Tag::ByteArray, 0);
    let ba = Value::bytearray(p);
    assert!(get_method(ba, &heap, "read_u32").is_some());
    assert!(get_method(ba, &heap, "write_u32").is_some());
    assert!(get_method(ba, &heap, "blit_bgra32").is_some());
    assert_eq!(get_method(ba, &heap, "read_u32"), get_method(ba, &heap, "get_u32"));
    assert_eq!(get_method(ba, &heap, "write_u32"), get_method(ba, &heap, "set_u32"));
    assert_eq!(get_method(ba, &heap, "fill_u32").unwrap().to_index(), 91);
    assert_eq!(get_method(ba, &heap, "zero_fill").unwrap().to_index(), 90);
    assert_eq!(get_method(ba, &heap, "memcpy").unwrap().to_index(), 88);
    assert!(get_method(ba, &heap, "nope").is_none());
}
