use plush::allocator::{Alloc, Tag};
use plush::gc::{undo_forwarding, verify_heap, UndoEntry};
use plush::heap::{alloc_slots_filled, alloc_str, str_bytes};
use plush::value::Value;

#[test]
fn empty_heap_is_sound()
{
    let heap = Alloc::new(4096);
    assert!(verify_heap(&heap).is_ok());
}

#[test]
fn strings_and_objects_are_sound()
{
    let mut heap = Alloc::new(4096);
    let s = alloc_str(&mut heap, b"hello").unwrap();
    let p = alloc_slots_filled(&mut heap, Tag::Object, 12, 3, s).unwrap();
    heap.write_word(p + 8, Value::fixnum(7).raw_bits());
    assert!(verify_heap(&heap).is_ok());
    assert_eq!(str_bytes(s, &heap).unwrap(), b"hello".to_vec());
}

#[test]
fn dangling_reference_is_found()
{
    let mut heap = Alloc::new(4096);
    let p = alloc_slots_filled(&mut heap, Tag::Object, 12, 2, Value::NIL()).unwrap();
    // A pointer past the allocation point
    heap.write_word(p, Value::string(4096 * 16).raw_bits());
    assert!(verify_heap(&heap).is_err());
}

#[test]
fn pointer_tag_must_agree_with_block()
{
    let mut heap = Alloc::new(4096);
    let s = alloc_str(&mut heap, b"abc").unwrap();
    let p = alloc_slots_filled(&mut heap, Tag::Object, 12, 1, Value::NIL()).unwrap();
    // An identity pointer to a string block
    heap.write_word(p, Value::object(s.heap_ptr()).raw_bits());
    assert!(verify_heap(&heap).is_err());
}

#[test]
fn forwarded_block_is_found()
{
    let mut heap = Alloc::new(4096);
    let p = heap.alloc_slots(Tag::Object, 3, 1);
    heap.set_forwarded(p, 4096);
    assert!(verify_heap(&heap).is_err());
}

#[test]
fn container_references_are_checked()
{
    let mut heap = Alloc::new(4096);
    let table = heap.alloc_table(4, 8, Tag::ValueTable);
    let arr = heap.alloc_fixed(Tag::Array, 0);
    heap.write_word(arr, table);
    assert!(verify_heap(&heap).is_ok());

    // An array whose table is a string block
    let s = alloc_str(&mut heap, b"x").unwrap();
    heap.write_word(arr, s.heap_ptr());
    assert!(verify_heap(&heap).is_err());
}

#[test]
fn undo_puts_headers_back()
{
    let mut heap = Alloc::new(4096);
    let p = heap.alloc_slots(Tag::Object, 3, 1);
    let q = heap.alloc_slots(Tag::Closure, 4, 2);
    let hp = heap.header_of(p);
    let hq = heap.header_of(q);

    heap.set_forwarded(p, 4096);
    heap.set_forwarded(q, 8192);
    assert!(verify_heap(&heap).is_err());

    let mut undo = vec![UndoEntry { block: p, header: hp }, UndoEntry { block: q, header: hq }];
    undo_forwarding(&mut heap, &mut undo);
    assert!(undo.is_empty());
    assert_eq!(heap.header_of(p), hp);
    assert_eq!(heap.header_of(q), hq);
    assert!(verify_heap(&heap).is_ok());
}
