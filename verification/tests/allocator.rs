use plush::allocator::{
    align_up, page_round_up, Alloc, Header, Tag, FIXED_SIZE, HEADER_SIZE, INIT_SIZE, MAX_FIXED_LEN,
};

use plush::value::Value;

const PAGE: u64 = 4096;

fn all_zero(alloc: &Alloc, p: u64, num_words: u64) -> bool
{
    (0..num_words).all(|i| alloc.read_word(p + 8 * i) == 0)
}

fn fill(alloc: &mut Alloc, p: u64, num_words: u64, val: u64)
{
    for i in 0..num_words {
        alloc.write_word(p + 8 * i, val);
    }
}

#[test]
fn grow_keeps_addresses_and_zeroes()
{
    let mut alloc = Alloc::with_size(1024 * 1024, PAGE);
    let p = alloc.alloc_boxed(1337, Tag::Int64);

    let reserve_size = alloc.reserve_size();
    assert!(reserve_size >= 2 * 1024 * 1024);
    alloc.grow(reserve_size);

    assert!(alloc.read_word(p) == 1337);
    assert!(alloc.mem_size() == reserve_size);

    let table = alloc.alloc_table(4096, 8, Tag::Bytes);
    assert!(all_zero(&alloc, table, 4096));
}

#[test]
fn grow_reserve_on_empty_allocator()
{
    let mut alloc = Alloc::with_size(1024 * 1024, PAGE);
    assert!(alloc.reserve_size() < 64 * 1024 * 1024);

    alloc.grow_reserve(64 * 1024 * 1024);
    assert!(alloc.reserve_size() >= 64 * 1024 * 1024);

    alloc.grow(64 * 1024 * 1024);
    let table = alloc.alloc_table(4 * 1024 * 1024, 8, Tag::Bytes);
    assert!(all_zero(&alloc, table, 4 * 1024 * 1024));
}

#[test]
fn grow_is_monotonic()
{
    let mut alloc = Alloc::with_size(1024 * 1024, PAGE);
    let mem_size = alloc.mem_size();
    alloc.grow(1024);
    assert!(alloc.mem_size() == mem_size);
}

#[test]
fn shrink_then_grow_is_zeroed()
{
    let mut alloc = Alloc::with_size(8 * 1024 * 1024, PAGE);

    let table = alloc.alloc_table(256 * 1024, 8, Tag::Bytes);
    fill(&mut alloc, table, 256 * 1024, 0xABAB_ABAB_ABAB_ABAB);
    alloc.reset();

    alloc.shrink_to(0);
    assert!(alloc.mem_size() == 0);

    alloc.grow(8 * 1024 * 1024);
    let table = alloc.alloc_table(256 * 1024, 8, Tag::Bytes);
    assert!(all_zero(&alloc, table, 256 * 1024));
}

#[test]
fn zero_up_to_clears_what_was_not_overwritten()
{
    let mut alloc = Alloc::with_size(1024 * 1024, PAGE);

    let table = alloc.alloc_table(1024, 8, Tag::Bytes);
    fill(&mut alloc, table, 1024, 0xABAB_ABAB_ABAB_ABAB);
    let dirty_bytes = alloc.bytes_used();
    alloc.reset();

    let kept = alloc.alloc_table(512, 8, Tag::Bytes);
    fill(&mut alloc, kept, 512, 1337);

    alloc.zero_up_to(dirty_bytes);

    assert!((0..512).all(|i| alloc.read_word(kept + 8 * i) == 1337));
    let rest = alloc.alloc_table(510, 8, Tag::Bytes);
    assert!(all_zero(&alloc, rest, 510));
}

#[test]
fn zero_up_to_is_clamped_to_the_heap()
{
    let mut alloc = Alloc::with_size(1024 * 1024, PAGE);
    let mem_size = alloc.mem_size();

    alloc.alloc_table(8, 8, Tag::Bytes);
    alloc.zero_up_to(u64::MAX);

    assert!(alloc.mem_size() == mem_size);
}

#[test]
fn copy_cannot_grow_the_heap()
{
    let sizes: Vec<u64> = (0..20000).map(|i| match i % 4 {
        0 => 3, 1 => 8, 2 => 24, _ => 17
    }).collect();

    let mut src = Alloc::with_size(INIT_SIZE as u64, PAGE);
    for &s in &sizes {
        src.alloc_raw(Tag::Bytes, s);
    }

    let mut dst = Alloc::with_size(INIT_SIZE as u64, PAGE);
    dst.grow_reserve(2 * src.bytes_used());
    dst.grow(2 * src.bytes_used());

    let mut reordered = sizes.clone();
    reordered.sort();
    for &s in &reordered {
        dst.alloc_raw(Tag::Bytes, s);
    }

    assert!(dst.bytes_used() == src.bytes_used());
}

fn sample_blocks() -> Vec<(Tag, u64)>
{
    vec![
        (Tag::Bytes, 8),
        (Tag::Str, 24),
        (Tag::ValueTable, 8),
        (Tag::Object, 24),
        (Tag::Closure, 8),
        (Tag::Array, 8),
        (Tag::Dict, 8),
        (Tag::Int64, 8),
    ]
}

fn alloc_sample(alloc: &mut Alloc, tag: Tag)
{
    match tag {
        Tag::Bytes => { alloc.alloc_raw(tag, 3); }
        Tag::Str => { alloc.alloc_raw(tag, 17); }
        Tag::ValueTable => { alloc.alloc_raw(tag, 8); }
        Tag::Object => { alloc.alloc_slots(tag, 1337, 3); }
        Tag::Closure => { alloc.alloc_slots(tag, 42, 1); }
        _ => { alloc.alloc_fixed(tag, 7); }
    }
}

#[test]
fn heap_walk_visits_every_block()
{
    let sample = sample_blocks();
    let blocks: Vec<(Tag, u64)> =
        (0..1000).map(|i| sample[i % sample.len()]).collect();

    let mut alloc = Alloc::with_size(INIT_SIZE as u64, PAGE);
    for &(tag, _) in &blocks {
        alloc_sample(&mut alloc, tag);
    }

    let mut offset = 0;
    let mut visited = 0;

    while offset < alloc.bytes_used() {
        let p = alloc.block_at(offset);
        let hdr = alloc.header_of(p);
        let (tag, size) = blocks[visited];

        assert!(alloc.contains(p));
        assert!(!hdr.is_forwarded());
        assert!(hdr.tag() == tag);
        assert!(hdr.size() == size, "{:?} walked {} bytes", tag, hdr.size());

        offset += HEADER_SIZE + hdr.size();
        visited += 1;
    }

    assert!(visited == blocks.len());
}

#[test]
fn header_fields_round_trip()
{
    let mut alloc = Alloc::with_size(INIT_SIZE as u64, PAGE);

    let p = alloc.alloc_raw(Tag::Str, 17);
    let hdr = alloc.header_of(p);
    assert!(hdr.num_bytes() == 17 && hdr.size() == 24);

    let p = alloc.alloc_slots(Tag::Object, 1337, 3);
    let hdr = alloc.header_of(p);
    assert!(hdr.aux24() == 1337 && hdr.num_slots() == 3);
    assert!(hdr.guard_key() == Header::object_key(1337));
    assert!(hdr.guard_key() != Header::object_key(1338));

    let p = alloc.alloc_fixed(Tag::Array, 5);
    assert!(alloc.header_of(p).fixed_len() == 5 && alloc.header_of(p).size() == FIXED_SIZE);
    alloc.set_fixed_len(p, MAX_FIXED_LEN);
    assert!(alloc.header_of(p).fixed_len() == MAX_FIXED_LEN);
    assert!(alloc.header_of(p).tag() == Tag::Array && alloc.header_of(p).size() == FIXED_SIZE);
}

#[test]
fn forwarding_round_trips()
{
    let mut alloc = Alloc::with_size(INIT_SIZE as u64, PAGE);
    let p = alloc.alloc_slots(Tag::Object, 7, 3);
    let q = alloc.alloc_slots(Tag::Object, 7, 3);

    let hdr = alloc.header_of(p);
    assert!(!hdr.is_forwarded());

    alloc.set_forwarded(p, q);
    assert!(alloc.header_of(p).is_forwarded());
    assert!(alloc.header_of(p).forward_addr() == q);

    alloc.restore_header(p, hdr);
    assert!(!alloc.header_of(p).is_forwarded());
    assert!(alloc.header_of(p).tag() == Tag::Object);
    assert!(alloc.header_of(p).size() == 24);
    assert!(alloc.header_of(p).aux24() == 7);
}

#[test]
fn zeroed_memory_holds_no_reference()
{
    let mut alloc = Alloc::with_size(INIT_SIZE as u64, PAGE);
    let table = alloc.alloc_table(64, 8, Tag::ValueTable);
    assert!(alloc.table_len(table, 8) == 64);

    for i in 0..64 {
        let val = Value::from_raw_bits(alloc.read_word(table + 8 * i));
        assert!(!val.is_heap());
        assert!(val == Value::fixnum(0));
    }
}

#[test]
fn tag_codes_round_trip()
{
    for c in 1..=12u8 {
        assert_eq!(Tag::from_u8(c).code(), c);
    }
}

#[test]
fn headers_of_each_layout()
{
    let raw = Header::new_raw(Tag::Str, 17);
    assert_eq!(raw.tag(), Tag::Str);
    assert_eq!(raw.num_bytes(), 17);
    assert_eq!(raw.size(), 24);

    let slots = Header::new_slots(Tag::Closure, 5, 2);
    assert_eq!(slots.aux24(), 5);
    assert_eq!(slots.num_slots(), 2);
    assert_eq!(slots.size(), 16);

    let fixed = Header::new_fixed(Tag::Dict, 9);
    assert_eq!(fixed.fixed_len(), 9);
    assert_eq!(fixed.with_fixed_len(3).fixed_len(), 3);
    assert_eq!(fixed.size(), FIXED_SIZE);

    let fwd = Header::forwarding(4096);
    assert!(fwd.is_forwarded());
    assert_eq!(fwd.forward_addr(), 4096);
    assert_eq!(Header::from_word(raw.to_word()), raw);
}

#[test]
fn alignment_and_page_rounding()
{
    assert_eq!(align_up(0), 0);
    assert_eq!(align_up(1), 8);
    assert_eq!(align_up(8), 8);
    assert_eq!(align_up(17), 24);
    assert_eq!(page_round_up(1, 4096), 4096);
    assert_eq!(page_round_up(4096, 4096), 4096);
    assert_eq!(page_round_up(0, 4096), 0);
}
