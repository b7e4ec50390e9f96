use plush::allocator::{Alloc, Tag};
use plush::ids::{ClassId, FunId};
use plush::value::{Type, Value, FIXNUM_MAX, FIXNUM_MIN, TAG_IMM};

fn heap() -> Alloc
{
    Alloc::new(4096)
}

#[test]
fn immediates()
{
    assert!(Value::NIL().is_nil());
    assert!(Value::TRUE().is_true() && Value::TRUE().is_bool());
    assert!(Value::FALSE().is_false() && Value::FALSE().is_bool());
    assert!(Value::UNDEF().is_undef());
    assert!(!Value::NIL().is_bool() && !Value::UNDEF().is_bool());
    assert!(Value::bool_val(true).as_bool());
    assert!(!Value::bool_val(false).as_bool());

    for v in [Value::NIL(), Value::TRUE(), Value::FALSE(), Value::UNDEF()] {
        assert!(!v.is_fixnum() && !v.is_flonum() && !v.is_heap());
        assert_eq!(v.tag(), TAG_IMM);
    }
}

#[test]
fn fixnums()
{
    let heap = heap();
    for v in [0, 1, -1, 7, -7, 1 << 40, FIXNUM_MAX, FIXNUM_MIN] {
        let val = Value::fixnum(v);
        assert!(val.is_fixnum() && val.is_int64(&heap) && val.is_num(&heap));
        assert_eq!(val.as_fixnum(), v);
        assert_eq!(val.to_i64(&heap), Some(v));
        assert_eq!(val.type_of(&heap), Type::Int64);
    }

    assert!(Value::try_fixnum(FIXNUM_MAX + 1).is_none());
    assert!(Value::try_fixnum(FIXNUM_MIN - 1).is_none());
    assert!(Value::try_fixnum(i64::MAX).is_none());

    let a = Value::fixnum(7);
    let b = Value::fixnum(-3);
    assert_eq!(Value::from_raw_bits(a.raw_bits().wrapping_add(b.raw_bits())).as_fixnum(), 4);
    assert!((a.raw_bits() as i64) > (b.raw_bits() as i64));
}

#[test]
fn ids()
{
    let heap = heap();
    let fun = Value::fun(FunId::new(1234));
    assert!(fun.is_fun() && !fun.is_class() && !fun.is_heap());
    assert_eq!(fun.as_fun(), FunId::new(1234));
    assert_eq!(fun.type_of(&heap), Type::Fun);

    let class = Value::class(ClassId::new(7));
    assert!(class.is_class() && !class.is_fun());
    assert_eq!(class.as_class(), ClassId::new(7));
    assert_eq!(class.type_of(&heap), Type::Class);

    assert_eq!(Value::fun(FunId::new(9)), Value::fun(FunId::new(9)));
    assert_ne!(Value::fun(FunId::new(9)), Value::class(ClassId::new(9)));
}

#[test]
fn boxed_values_name_their_block()
{
    let mut heap = heap();
    let p = heap.alloc_boxed(1337, Tag::Int64);
    let v = Value::int64_box(p);
    assert!(v.is_heap() && v.is_int64_box(&heap) && v.is_int64(&heap));
    assert!(!v.is_fixnum() && !v.is_string(&heap));
    assert_eq!(v.heap_ptr(), p);
    assert_eq!(v.heap_tag(&heap), Tag::Int64);
    assert_eq!(v.to_i64(&heap), Some(1337));
    assert_eq!(v.type_of(&heap), Type::Int64);
}

#[test]
fn narrowing_conversions()
{
    let heap = heap();
    assert_eq!(Value::fixnum(255).to_u8(&heap), Some(255));
    assert_eq!(Value::fixnum(256).to_u8(&heap), None);
    assert_eq!(Value::fixnum(-1).to_u32(&heap), None);
    assert_eq!(Value::fixnum(-5).to_i32(&heap), Some(-5));
    assert_eq!(Value::NIL().to_i64(&heap), None);
    assert_eq!(Value::TRUE().to_bool(), Some(true));
    assert_eq!(Value::fixnum(0).to_bool(), None);
}
