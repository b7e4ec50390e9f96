use plush::allocator::Alloc;
use plush::dict::{key_hash, Dict};
use plush::heap::alloc_str;
use plush::value::Value;

fn heap() -> Alloc
{
    Alloc::new(4096)
}

fn key(heap: &mut Alloc, s: &str) -> Value
{
    alloc_str(heap, s.as_bytes()).unwrap()
}

#[test]
fn empty_dict()
{
    let mut heap = heap();
    let d = Dict::with_capacity(0, &mut heap).unwrap();
    assert_eq!(d.len(&heap), 0);
    assert_eq!(d.capacity(&heap), 2);
    assert_eq!(d.get(&heap, b"x"), None);
    assert!(!d.has(&heap, b"x"));
}

#[test]
fn set_then_get()
{
    let mut heap = heap();
    let d = Dict::with_capacity(4, &mut heap).unwrap();
    let x = key(&mut heap, "x");
    let y = key(&mut heap, "y");
    assert!(d.set(&mut heap, x, Value::fixnum(1)));
    assert!(d.set(&mut heap, y, Value::fixnum(2)));
    assert_eq!(d.get(&heap, b"x").unwrap().as_fixnum(), 1);
    assert_eq!(d.get(&heap, b"y").unwrap().as_fixnum(), 2);
    assert_eq!(d.get(&heap, b"z"), None);
    assert!(d.has(&heap, b"x"));
    assert!(!d.has(&heap, b"z"));
    assert_eq!(d.len(&heap), 2);
}

#[test]
fn overwrite_keeps_the_count()
{
    let mut heap = heap();
    let d = Dict::with_capacity(4, &mut heap).unwrap();
    let x1 = key(&mut heap, "x");
    let x2 = key(&mut heap, "x");
    assert!(d.set(&mut heap, x1, Value::fixnum(5)));
    assert!(d.set(&mut heap, x2, Value::fixnum(3)));
    assert_eq!(d.get(&heap, b"x").unwrap().as_fixnum(), 3);
    assert_eq!(d.len(&heap), 1);
}

#[test]
fn keys_with_spaces()
{
    let mut heap = heap();
    let d = Dict::with_capacity(0, &mut heap).unwrap();
    let k = key(&mut heap, "foo bar");
    assert!(d.set(&mut heap, k, Value::fixnum(5)));
    assert_eq!(d.get(&heap, b"foo bar").unwrap().as_fixnum(), 5);
    assert_eq!(d.get(&heap, b"foo"), None);
}

#[test]
fn growing_keeps_every_entry()
{
    let mut heap = Alloc::with_size(1 << 20, 4096);
    let d = Dict::with_capacity(0, &mut heap).unwrap();
    for i in 0..100 {
        let name = format!("key{}", i);
        let k = key(&mut heap, &name);
        assert!(d.set(&mut heap, k, Value::fixnum(i)));
    }
    assert_eq!(d.len(&heap), 100);
    assert!(d.capacity(&heap) > 100);
    for i in 0..100 {
        let name = format!("key{}", i);
        assert_eq!(d.get(&heap, name.as_bytes()).unwrap().as_fixnum(), i);
    }
    assert_eq!(d.get(&heap, b"key100"), None);
}

#[test]
fn will_allocate_before_the_last_free_slot()
{
    let mut heap = heap();
    let d = Dict::with_capacity(2, &mut heap).unwrap();
    assert_eq!(d.will_allocate(&heap), 0);
    let a = key(&mut heap, "a");
    assert!(d.set(&mut heap, a, Value::fixnum(1)));
    assert_eq!(d.capacity(&heap), 2);
    assert_eq!(d.will_allocate(&heap), 8 + 6 * 16);
    let b = key(&mut heap, "b");
    assert!(d.set(&mut heap, b, Value::fixnum(2)));
    assert_eq!(d.capacity(&heap), 6);
    assert_eq!(d.len(&heap), 2);
    assert_eq!(d.get(&heap, b"a").unwrap().as_fixnum(), 1);
    assert_eq!(d.get(&heap, b"b").unwrap().as_fixnum(), 2);
}

#[test]
fn alloc_size_counts_both_blocks()
{
    assert_eq!(Dict::alloc_size(0), 8 + 8 + 8 + 2 * 16);
    assert_eq!(Dict::alloc_size(10), 8 + 8 + 8 + 10 * 16);
    assert_eq!(Dict::size_of_slot(), 16);
}

#[test]
fn key_hash_values()
{
    assert_eq!(key_hash(b""), 0);
    assert_eq!(key_hash(b"a"), 97);
    assert_eq!(key_hash(b"ab"), 97 * 31 + 98);
}

#[test]
fn no_room_leaves_the_heap_alone()
{
    let mut heap = Alloc::with_size(64, 8);
    let used = heap.bytes_used();
    assert!(Dict::with_capacity(100, &mut heap).is_none());
    assert_eq!(heap.bytes_used(), used);
}
