use vstd::prelude::*;
use crate::allocator::{
    Alloc, Header, Tag, HEADER_SIZE, FIXED_SIZE, MAX_AUX24, MAX_NUM_SLOTS, MAX_RAW_BYTES, align_up,
    spec_align_up, tag_code, raw_word, slots_word,
};
use crate::ids::{
    ClassId, FunId, MAX_ID, NIL_ID, BOOL_ID, INT64_ID, FLOAT64_ID, STRING_ID, ARRAY_ID, BYTEARRAY_ID, DICT_ID,
};
use crate::value::{Value, Type, IMM_NIL};

verus! {

/// Whether a value can be used with a heap: an immediate always can, a
/// heap value when it points at a live block lying wholly in the
/// allocated memory
pub fn check_value(v: Value, heap: &Alloc) -> (r: bool)
    requires
        heap.wf(),
    ensures
        r == v.points_into(*heap),
        !v.spec_is_heap() ==> r,
{
    proof { heap.lemma_wf_bounds(); }
    if !v.is_heap() {
        return true;
    }
    let p = v.heap_ptr();
    if !heap.contains(p) {
        return false;
    }
    let h = heap.header_of(p);
    let w = h.to_word();
    // A live header is odd, and its tag code names a tag
    if w % 2 == 0 {
        return false;
    }
    let code = ((w / 2) % 128) as u8;
    if code < 1 || code > crate::allocator::LAST_TAG {
        return false;
    }
    let size = h.size();
    if size > u64::MAX - p {
        return false;
    }
    p + size <= heap.bytes_used()
}

/// Whether a block with a given payload size fits in the committed
/// memory after the blocks already allocated
pub open spec fn room_for(heap: Alloc, size: int) -> bool {
    heap.spec_bytes_used() + HEADER_SIZE + size <= heap.spec_mem_size()
}

/// Byte `k` of a word, the lowest byte first
pub open spec fn word_byte(w: u64, k: u64) -> u8 {
    ((w >> ((k * 8) as u64)) & 0xFF) as u8
}

/// The bytes held by the string block a value points at: its header
/// gives their count, and they are packed into the payload words, the
/// first byte lowest
pub open spec fn spec_str_bytes(v: Value, heap: Alloc) -> Seq<u8> {
    let p = v.spec_heap_addr() as int;
    Seq::new(
        heap.spec_header_of(p).spec_num_bytes(),
        |i: int| word_byte(heap.word_at(p + (i / 8) * 8), (i % 8) as u64),
    )
}

// A byte OR-ed into a word above the bytes it already holds reads back,
// and leaves those bytes as they were
proof fn lemma_put_byte(word: u64, b: u64, s: u64)
    requires
        s < 64,
        s % 8 == 0,
        b < 256,
        word >> s == 0,
    ensures
        forall|t: u64| t < s && t % 8 == 0 ==>
            #[trigger] (((word | (b << s)) >> t) & 0xFF) == (word >> t) & 0xFF,
        ((word | (b << s)) >> s) & 0xFF == b,
        s + 8 < 64 ==> (word | (b << s)) >> ((s + 8) as u64) == 0,
{
    assert(forall|t: u64| t < s && t % 8 == 0 ==>
        #[trigger] (((word | (b << s)) >> t) & 0xFF) == (word >> t) & 0xFF) by (bit_vector)
        requires
            s < 64,
            s % 8 == 0,
            b < 256,
            word >> s == 0;
    assert(((word | (b << s)) >> s) & 0xFF == b) by (bit_vector)
        requires
            s < 64,
            s % 8 == 0,
            b < 256,
            word >> s == 0;
    assert(s + 8 < 64 ==> (word | (b << s)) >> ((s + 8) as u64) == 0) by (bit_vector)
        requires
            s < 64,
            s % 8 == 0,
            b < 256,
            word >> s == 0;
}

/// Whether a heap has room for a block with a given payload size
/// without growing
pub fn has_room(heap: &Alloc, size: u64) -> (r: bool)
    requires
        heap.wf(),
    ensures
        r == room_for(*heap, size as int),
        r ==> heap.can_bump(size as int),
{
    proof { heap.lemma_wf_bounds(); }
    let used = heap.bytes_used();
    let mem = heap.mem_size();
    size <= mem && used + HEADER_SIZE <= mem - size
}

/// Whether a value points at a live block of slots of a given tag
pub open spec fn is_slots_value(v: Value, heap: Alloc, tag: Tag) -> bool {
    v.points_into(heap) && v.spec_is_heap() && v.spec_heap_tag(heap) == tag
}

/// The value in slot `i` of the block of slots at `p`
pub open spec fn slot_at(heap: Alloc, p: int, i: int) -> Value {
    Value(heap.word_at(p + 8 * i))
}

/// The address and slot count of a block of slots of a given tag that a
/// value points at
pub fn slots_of(v: Value, heap: &Alloc, tag: Tag) -> (r: Option<(u64, usize)>)
    requires
        heap.wf(),
        tag == Tag::Object || tag == Tag::Closure,
    ensures
        r matches Some((p, n)) ==> {
            &&& p % 8 == 0
            &&& p >= 8
            &&& p + n * 8 <= heap.spec_bytes_used()
            &&& heap.spec_bytes_used() <= heap.words().len() * 8
            &&& heap.has_block_of(p as int, tag)
            &&& n == heap.spec_header_of(p as int).spec_num_slots()
            &&& v.spec_heap_addr() == p
        },
        r is Some <==> is_slots_value(v, *heap, tag),
{
    if !check_value(v, heap) || !v.is_heap() {
        return None;
    }
    if v.heap_tag(heap) != tag {
        return None;
    }
    let p = v.heap_ptr();
    let h = heap.header_of(p);
    proof { heap.lemma_wf_bounds(); }
    Some((p, h.num_slots()))
}

/// Allocate a block of slots, every one of them holding `init`
pub fn alloc_slots_filled(heap: &mut Alloc, tag: Tag, aux24: usize, num_slots: usize, init: Value) -> (r: Option<u64>)
    requires
        old(heap).wf(),
        tag == Tag::Object || tag == Tag::Closure,
        aux24 <= MAX_AUX24,
        num_slots <= MAX_NUM_SLOTS,
    ensures
        final(heap).wf(),
        r matches Some(p) ==> {
            &&& p % 8 == 0
            &&& p >= 8
            &&& final(heap).has_block_of(p as int, tag)
            &&& final(heap).spec_header_of(p as int).spec_aux24() == aux24
            &&& final(heap).spec_header_of(p as int).spec_num_slots() == num_slots
            &&& forall|i: int| 0 <= i < num_slots ==> #[trigger] slot_at(*final(heap), p as int, i) == init
            &&& old(heap).bumped_then_written(*final(heap), num_slots * 8,
                Header(slots_word(tag_code(tag), aux24 as nat, num_slots as nat) as u64), p, num_slots as int)
        },
        r is None <==> !room_for(*old(heap), num_slots * 8),
        r is None ==> *final(heap) == *old(heap),
{
    if !has_room(heap, (num_slots as u64) * 8) {
        return None;
    }
    let ghost h0 = *heap;
    let p = heap.alloc_slots(tag, aux24, num_slots);
    let ghost h1 = *heap;
    let ghost hdr_idx = (p - HEADER_SIZE) / 8;
    let ghost hdr = heap.words()[hdr_idx as int];
    proof { heap.lemma_wf_bounds(); }
    let mut i: usize = 0;
    while i < num_slots
        invariant
            heap.wf(),
            p % 8 == 0,
            p >= 8,
            p + num_slots * 8 <= heap.spec_bytes_used(),
            heap.spec_bytes_used() <= heap.words().len() * 8,
            hdr_idx == (p - HEADER_SIZE) / 8,
            heap.words()[hdr_idx as int] == hdr,
            heap.has_block_of(p as int, tag),
            heap.spec_header_of(p as int).spec_aux24() == aux24,
            heap.spec_header_of(p as int).spec_num_slots() == num_slots,
            heap.spec_bytes_used() <= crate::allocator::MAX_RESERVE,
            i <= num_slots,
            heap.spec_bytes_used() == h1.spec_bytes_used(),
            heap.words().len() == h1.words().len(),
            heap.spec_reserve_size() == h1.spec_reserve_size(),
            heap.spec_page_size() == h1.spec_page_size(),
            heap.spec_growable() == h1.spec_growable(),
            h0.bumped(h1, num_slots * 8, Header(slots_word(tag_code(tag), aux24 as nat, num_slots as nat) as u64), p),
            forall|k: int| 0 <= k < heap.words().len() && !(p / 8 <= k < p / 8 + i)
                ==> #[trigger] heap.words()[k] == h1.words()[k],
            forall|k: int| 0 <= k < i ==> #[trigger] slot_at(*heap, p as int, k) == init,
        decreases num_slots - i,
    {
        let ghost hb = *heap;
        heap.write_word(p + (i as u64) * 8, init.raw_bits());
        proof {
            assert forall|k: int| 0 <= k < i + 1 implies #[trigger] slot_at(*heap, p as int, k) == init by {
                if k < i {
                    assert((p + 8 * k) / 8 != (p + 8 * i) / 8);
                    assert(slot_at(hb, p as int, k) == init);
                }
            }
        }
        proof { heap.lemma_wf_bounds(); }
        i = i + 1;
    }
    Some(p)
}

/// Allocate a string holding given bytes. Nothing is allocated when the
/// string is too long or the heap has no room for it.
pub fn alloc_str(heap: &mut Alloc, bytes: &[u8]) -> (r: Option<Value>)
    requires
        old(heap).wf(),
    ensures
        final(heap).wf(),
        r is None <==> (bytes@.len() > MAX_RAW_BYTES
            || !room_for(*old(heap), spec_align_up(bytes@.len() as int))),
        r is None ==> *final(heap) == *old(heap),
        r matches Some(v) ==> {
            &&& v.points_into(*final(heap))
            &&& v.spec_is_ptr_val(*final(heap), Tag::Str)
            &&& spec_str_bytes(v, *final(heap)) == bytes@
            &&& old(heap).bumped_then_written(*final(heap), spec_align_up(bytes@.len() as int),
                Header(raw_word(tag_code(Tag::Str), bytes@.len() as nat) as u64),
                v.spec_heap_addr(), spec_align_up(bytes@.len() as int) / 8)
        },
{
    let n = bytes.len() as u64;
    if n > MAX_RAW_BYTES {
        return None;
    }
    let size = align_up(n);
    if !has_room(heap, size) {
        return None;
    }
    let ghost h0 = *heap;
    let ghost hdr = Header(raw_word(tag_code(Tag::Str), n as nat) as u64);
    let p = heap.alloc_raw(Tag::Str, n);
    let ghost hdr_val = heap.spec_header_of(p as int);
    proof { heap.lemma_wf_bounds(); }

    // Pack the bytes into words, the first byte lowest
    let num_words = size / 8;
    let mut w: u64 = 0;
    while w < num_words
        invariant
            heap.wf(),
            p % 8 == 0,
            p >= 8,
            p + size <= heap.spec_bytes_used(),
            heap.spec_bytes_used() <= heap.words().len() * 8,
            size == num_words * 8,
            size == spec_align_up(n as int),
            size <= MAX_RAW_BYTES + 8,
            heap.spec_bytes_used() <= crate::allocator::MAX_RESERVE,
            n == bytes@.len(),
            n <= size,
            w <= num_words,
            h0.bumped_then_written(*heap, size as int, hdr, p, w as int),
            heap.spec_header_of(p as int) == hdr_val,
            hdr_val.word() == hdr.word(),
            heap.has_block_of(p as int, Tag::Str),
            hdr_val.spec_num_bytes() == n,
            forall|i: int| 0 <= i < w * 8 ==>
                #[trigger] word_byte(heap.word_at(p + (i / 8) * 8), (i % 8) as u64)
                    == if i < n { bytes@[i] } else { 0u8 },
        decreases num_words - w,
    {
        let mut word: u64 = 0;
        let mut k: u64 = 0;
        assert(0u64 >> 0u64 == 0) by (bit_vector);
        while k < 8
            invariant
                k <= 8,
                w < num_words,
                size == num_words * 8,
                size <= MAX_RAW_BYTES + 8,
                n == bytes@.len(),
                k < 8 ==> word >> ((k * 8) as u64) == 0,
                forall|j: u64| j < k ==>
                    #[trigger] word_byte(word, j)
                        == if w * 8 + j < n { bytes@[(w * 8 + j) as int] } else { 0u8 },
            decreases 8 - k,
        {
            let i = w * 8 + k;
            let b8: u8 = if i < n { bytes[i as usize] } else { 0 };
            let b = b8 as u64;
            let s = k * 8;
            proof {
                lemma_put_byte(word, b, s);
                let new_word = word | (b << s);
                assert forall|j: u64| j < k + 1 implies
                    #[trigger] word_byte(new_word, j)
                        == if w * 8 + j < n { bytes@[(w * 8 + j) as int] } else { 0u8 } by {
                    if j < k {
                        assert((((word | (b << s)) >> ((j * 8) as u64)) & 0xFF) == (word >> ((j * 8) as u64)) & 0xFF);
                        assert(word_byte(new_word, j) == word_byte(word, j));
                        assert(word_byte(word, j) == if w * 8 + j < n { bytes@[(w * 8 + j) as int] } else { 0u8 });
                    } else {
                        assert(j == k);
                        assert(((k * 8) as u64) == s);
                        assert(((new_word >> s) & 0xFF) == b);
                        assert(word_byte(new_word, j) == b as u8);
                        assert(b as u8 == b8);
                        assert(b8 == if w * 8 + j < n { bytes@[(w * 8 + j) as int] } else { 0u8 });
                    }
                }
            }
            word = word | (b << s);
            k = k + 1;
        }
        let ghost before = *heap;
        heap.write_word(p + w * 8, word);
        proof {
            heap.lemma_wf_bounds();
            assert forall|i: int| 0 <= i < (w + 1) * 8 implies
                #[trigger] word_byte(heap.word_at(p + (i / 8) * 8), (i % 8) as u64)
                    == if i < n { bytes@[i] } else { 0u8 } by {
                assert((p + (i / 8) * 8) / 8 == p / 8 + i / 8);
                if i < w * 8 {
                    assert(before.word_at(p + (i / 8) * 8) == heap.word_at(p + (i / 8) * 8));
                } else {
                    assert(i / 8 == w);
                    let j = (i % 8) as u64;
                    assert(word_byte(word, j) == if w * 8 + j < n { bytes@[(w * 8 + j) as int] } else { 0u8 });
                }
            }
        }
        w = w + 1;
    }
    let v = Value::string(p);
    proof {
        assert(spec_str_bytes(v, *heap) =~= bytes@) by {
            assert forall|i: int| 0 <= i < n implies
                spec_str_bytes(v, *heap)[i] == bytes@[i] by {
                assert(word_byte(heap.word_at(p + (i / 8) * 8), (i % 8) as u64)
                    == if i < n { bytes@[i] } else { 0u8 });
            }
        }
    }
    Some(v)
}

/// The bytes of a string a value points at, if it points at one
pub fn str_bytes(v: Value, heap: &Alloc) -> (r: Option<Vec<u8>>)
    requires
        heap.wf(),
    ensures
        r is Some <==> (v.points_into(*heap) && v.spec_is_ptr_val(*heap, Tag::Str)),
        r matches Some(b) ==> b@ == spec_str_bytes(v, *heap),
{
    if !check_value(v, heap) || !v.is_string(heap) {
        return None;
    }
    let p = v.heap_ptr();
    let h = heap.header_of(p);
    let n = h.num_bytes();
    proof { heap.lemma_wf_bounds(); }
    let mut out: Vec<u8> = Vec::new();
    let mut i: u64 = 0;
    while i < n
        invariant
            heap.wf(),
            p % 8 == 0,
            p == v.spec_heap_addr(),
            n == heap.spec_header_of(p as int).spec_num_bytes(),
            p + spec_align_up(n as int) <= heap.spec_bytes_used(),
            heap.spec_bytes_used() <= heap.words().len() * 8,
            n <= MAX_RAW_BYTES,
            heap.spec_bytes_used() <= crate::allocator::MAX_RESERVE,
            i <= n,
            out@.len() == i,
            forall|j: int| 0 <= j < i ==>
                out@[j] == word_byte(heap.word_at(p + (j / 8) * 8), (j % 8) as u64),
        decreases n - i,
    {
        let word = heap.read_word(p + (i / 8) * 8);
        let b = ((word >> ((i % 8) * 8)) & 0xFF) as u8;
        out.push(b);
        i = i + 1;
    }
    assert(out@ =~= spec_str_bytes(v, *heap));
    Some(out)
}

/// Class of a value, by the id the `instanceof` test compares: the
/// built-in class of a number, of nil, of a boolean or of a built-in heap
/// type, and for an object the class it was made from. None for a value
/// that has no class, or that does not point into the heap.
pub open spec fn spec_class_id_of(v: Value, heap: Alloc) -> Option<int> {
    if !v.points_into(heap) {
        None
    } else if v.spec_is_fixnum() {
        Some(INT64_ID as int)
    } else if v.spec_is_flonum() {
        Some(FLOAT64_ID as int)
    } else if v == Value(IMM_NIL) {
        Some(NIL_ID as int)
    } else if v.spec_is_bool() {
        Some(BOOL_ID as int)
    } else if !v.spec_is_heap() {
        None
    } else {
        let id: int = match v.spec_heap_tag(heap) {
            Tag::Object => heap.spec_header_of(v.spec_heap_addr() as int).spec_aux24() as int,
            Tag::Int64 => INT64_ID as int,
            Tag::Float64 => FLOAT64_ID as int,
            Tag::Str => STRING_ID as int,
            Tag::Array => ARRAY_ID as int,
            Tag::ByteArray => BYTEARRAY_ID as int,
            Tag::Dict => DICT_ID as int,
            _ => -1,
        };
        if 0 <= id <= MAX_ID { Some(id) } else { None }
    }
}

/// Class id of a value, for the instanceof test
pub fn class_id_of(v: Value, heap: &Alloc) -> (r: Option<ClassId>)
    requires
        heap.wf(),
    ensures
        match r {
            Some(c) => spec_class_id_of(v, *heap) == Some(c.index() as int),
            None => spec_class_id_of(v, *heap) is None,
        },
{
    if !check_value(v, heap) {
        return None;
    }
    if v.is_fixnum() || v.is_flonum() {
        return Some(ClassId::new(if v.is_fixnum() { INT64_ID } else { FLOAT64_ID }));
    }
    if v.is_nil() {
        return Some(ClassId::new(NIL_ID));
    }
    if v.is_bool() {
        return Some(ClassId::new(BOOL_ID));
    }
    if !v.is_heap() {
        return None;
    }
    let p = v.heap_ptr();
    let h = heap.header_of(p);
    let id = match v.heap_tag(heap) {
        Tag::Object => h.aux24(),
        Tag::Int64 => INT64_ID,
        Tag::Float64 => FLOAT64_ID,
        Tag::Str => STRING_ID,
        Tag::Array => ARRAY_ID,
        Tag::ByteArray => BYTEARRAY_ID,
        Tag::Dict => DICT_ID,
        _ => { return None; }
    };
    if id > MAX_ID {
        return None;
    }
    Some(ClassId::new(id))
}

} // verus!
