use plush::allocator::Alloc;
use plush::array::Array;
use plush::value::Value;

fn heap() -> Alloc
{
    Alloc::new(4096)
}

fn ints(heap: &Alloc, a: Array) -> Vec<i64>
{
    a.items(heap).iter().map(|v| v.as_fixnum()).collect()
}

#[test]
fn push_grows_the_table()
{
    let mut heap = heap();
    let a = Array::with_capacity(0, &mut heap).unwrap();
    assert_eq!(a.len(&heap), 0);
    assert_eq!(a.capacity(&heap), 0);
    for i in 0..10 {
        assert!(a.push(&mut heap, Value::fixnum(i)));
    }
    assert_eq!(a.len(&heap), 10);
    assert_eq!(a.capacity(&heap), 16);
    assert_eq!(ints(&heap, a), (0..10).collect::<Vec<i64>>());
}

#[test]
fn pop_and_remove()
{
    let mut heap = heap();
    let a = Array::with_size(3, Value::NIL(), &mut heap).unwrap();
    a.set(&mut heap, 0, Value::fixnum(11));
    a.set(&mut heap, 1, Value::fixnum(22));
    a.set(&mut heap, 2, Value::fixnum(33));
    assert_eq!(a.remove(&mut heap, 0).as_fixnum(), 11);
    assert_eq!(ints(&heap, a), vec![22, 33]);
    assert_eq!(a.pop(&mut heap).as_fixnum(), 33);
    assert_eq!(a.pop(&mut heap).as_fixnum(), 22);
    assert!(a.pop(&mut heap).is_nil());
    assert!(a.remove(&mut heap, 5).is_nil());
}

#[test]
fn insert_moves_the_rest_up()
{
    let mut heap = heap();
    let a = Array::with_capacity(1, &mut heap).unwrap();
    a.push(&mut heap, Value::fixnum(1));
    a.push(&mut heap, Value::fixnum(3));
    assert!(a.insert(&mut heap, 1, Value::fixnum(2)));
    assert!(a.insert(&mut heap, 0, Value::fixnum(0)));
    assert!(a.insert(&mut heap, 4, Value::fixnum(4)));
    assert_eq!(ints(&heap, a), vec![0, 1, 2, 3, 4]);
}

#[test]
fn slice_append_resize()
{
    let mut heap = heap();
    let a = Array::with_capacity(4, &mut heap).unwrap();
    for i in 0..5 {
        a.push(&mut heap, Value::fixnum(i));
    }
    let b = a.slice(&mut heap, 1, 4).unwrap();
    assert_eq!(ints(&heap, b), vec![1, 2, 3]);
    assert!(a.append(&mut heap, b));
    assert_eq!(ints(&heap, a), vec![0, 1, 2, 3, 4, 1, 2, 3]);
    assert_eq!(ints(&heap, b), vec![1, 2, 3]);

    assert!(b.resize(&mut heap, 5, Value::fixnum(9)));
    assert_eq!(ints(&heap, b), vec![1, 2, 3, 9, 9]);
    assert!(b.resize(&mut heap, 2, Value::NIL()));
    assert_eq!(ints(&heap, b), vec![1, 2]);
    // The slots past the new length are cleared
    assert!(b.get(&heap, 3).is_undef());
}

#[test]
fn with_size_fills()
{
    let mut heap = heap();
    let a = Array::with_size(5, Value::NIL(), &mut heap).unwrap();
    assert_eq!(a.len(&heap), 5);
    assert!(a.items(&heap).iter().all(|v| v.is_nil()));
    assert_eq!(Array::alloc_size(5), 8 + 8 + 8 + 40);
}

#[test]
fn allocation_fails_without_room()
{
    let mut heap = Alloc::with_size(4096, 4096);
    assert!(Array::with_capacity(1000, &mut heap).is_none());
    let a = Array::with_capacity(500, &mut heap).unwrap();
    assert!(a.resize(&mut heap, 500, Value::NIL()));
    // No room for a doubled table
    assert!(!a.push(&mut heap, Value::NIL()));
    assert_eq!(a.len(&heap), 500);
}
