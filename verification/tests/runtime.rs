use plush::allocator::Alloc;
use plush::ids::{ClassId, ARRAY_ID, STRING_ID};
use plush::runtime::get_method;
use plush::value::Value;

#[test]
fn methods_of_builtin_types()
{
    let heap = Alloc::new(4096);
    let int = Value::fixnum(5);
    assert_eq!(get_method(int, &heap, "abs").unwrap().to_index(), 31);
    assert_eq!(get_method(int, &heap, "to_s").unwrap().to_index(), 37);
    assert!(get_method(int, &heap, "nope").is_none());
    assert!(get_method(int, &heap, "trim").is_none());

    assert_eq!(get_method(Value::TRUE(), &heap, "to_s").unwrap().to_index(), 28);
    assert_eq!(get_method(Value::FALSE(), &heap, "to_s").unwrap().to_index(), 29);
    assert_eq!(get_method(Value::NIL(), &heap, "to_s").unwrap().to_index(), 30);
    assert!(get_method(Value::NIL(), &heap, "abs").is_none());
}

#[test]
fn static_methods_of_builtin_classes()
{
    let heap = Alloc::new(4096);
    let string = Value::class(ClassId::new(STRING_ID));
    let array = Value::class(ClassId::new(ARRAY_ID));
    assert_eq!(get_method(string, &heap, "from_codepoint").unwrap().to_index(), 58);
    assert_eq!(get_method(array, &heap, "with_size").unwrap().to_index(), 68);
    assert!(get_method(string, &heap, "with_size").is_none());
}
