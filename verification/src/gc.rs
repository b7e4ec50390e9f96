//! Consistency check of a heap, as the collector leaves it.
use vstd::prelude::*;
use crate::allocator::{Alloc, Header, Tag, HEADER_SIZE};
use crate::bits::lemma_low_masks;
use crate::value::{
    Value, IMM_CLASS, IMM_FALSE, IMM_FUN, IMM_HOSTFN, IMM_NIL, IMM_TRUE, IMM_UNDEF, TAG_IMM,
    TAG_PTR_VAL,
};

verus! {

/// A reference held by a container block: the payload address of a live
/// block of a given kind
pub open spec fn ref_sound(heap: Alloc, p: u64, tag: Tag) -> bool {
    &&& heap.has_block(p as int)
    &&& heap.spec_header_of(p as int).is_valid()
    &&& heap.spec_header_of(p as int).spec_tag() == tag
}

/// Kinds of block a value compares by contents, and so points at with
/// the by-value pointer tag
pub open spec fn is_by_value_tag(t: Tag) -> bool {
    t == Tag::Str || t == Tag::Int64 || t == Tag::Float64
}

/// Kinds of block a value compares by identity
pub open spec fn is_by_identity_tag(t: Tag) -> bool {
    ||| t == Tag::Object
    ||| t == Tag::Closure
    ||| t == Tag::Cell
    ||| t == Tag::Array
    ||| t == Tag::ByteArray
    ||| t == Tag::Dict
}

/// A value stored in the heap is sound: a word that is not a pointer
/// names a type, and a pointer points at a live block whose kind agrees
/// with how the pointer compares
pub open spec fn value_sound(v: Value, heap: Alloc) -> bool {
    if !v.spec_is_heap() {
        v.spec_type_of(heap) is Some
    } else {
        let p = v.spec_heap_addr() as int;
        let h = heap.spec_header_of(p);
        &&& heap.has_block(p)
        &&& h.is_valid()
        &&& if v.spec_tag() == TAG_PTR_VAL { is_by_value_tag(h.spec_tag()) } else { is_by_identity_tag(h.spec_tag()) }
    }
}

/// The values of a run of words are all sound
pub open spec fn words_sound(heap: Alloc, p: int, n: int) -> bool {
    forall|i: int| 0 <= i < n ==> #[trigger] value_sound(Value(heap.word_at(p + 8 * i)), heap)
}

/// The entries of a dictionary's slot table are sound: each slot is a
/// key word and a value word, and a slot with a zero key is empty
pub open spec fn slots_sound(heap: Alloc, p: int, n: int) -> bool {
    forall|i: int| 0 <= i < n && #[trigger] heap.word_at(p + 16 * i) != 0 ==> {
        &&& ref_sound(heap, heap.word_at(p + 16 * i), Tag::Str)
        &&& value_sound(Value(heap.word_at(p + 16 * i + 8)), heap)
    }
}

/// What a block holds is sound, given its header
pub open spec fn block_sound(heap: Alloc, p: int, h: Header) -> bool {
    match h.spec_tag() {
        Tag::Object | Tag::Closure => words_sound(heap, p, h.spec_num_slots() as int),
        Tag::ValueTable => words_sound(heap, p, (h.spec_size() / 8) as int),
        Tag::SlotTable => slots_sound(heap, p, (h.spec_size() / 16) as int),
        Tag::Cell => value_sound(Value(heap.word_at(p)), heap),
        Tag::Array => ref_sound(heap, heap.word_at(p), Tag::ValueTable),
        Tag::ByteArray => ref_sound(heap, heap.word_at(p), Tag::Bytes),
        Tag::Dict => ref_sound(heap, heap.word_at(p), Tag::SlotTable),
        _ => true,
    }
}

/// The blocks of a heap from a given offset on sit back to back up to
/// the allocation point, each with a live header, and hold sound values
pub open spec fn blocks_sound_from(heap: Alloc, offset: int) -> bool
    decreases heap.spec_bytes_used() - offset,
{
    if offset >= heap.spec_bytes_used() {
        true
    } else {
        let p = offset + HEADER_SIZE;
        let h = heap.spec_header_of(p);
        if offset >= 0 && h.is_valid() && p + h.spec_size() <= heap.spec_bytes_used() && block_sound(heap, p, h) {
            blocks_sound_from(heap, p + h.spec_size())
        } else {
            false
        }
    }
}

/// Whether a word that is not a pointer names a type
fn names_a_type(v: Value, heap: &Alloc) -> (r: bool)
    requires
        !v.spec_is_heap(),
    ensures
        r == (v.spec_type_of(*heap) is Some),
{
    let t = v.tag();
    if t == 0 || t == 4 || t == 2 || t == 6 {
        return true;
    }
    if t != TAG_IMM {
        return false;
    }
    let lb = v.raw_bits() & 0xFF;
    proof { lemma_low_masks(v.0); }
    lb == IMM_NIL || lb == IMM_TRUE || lb == IMM_FALSE || lb == IMM_UNDEF || lb == IMM_FUN
        || lb == IMM_CLASS || lb == IMM_HOSTFN
}

/// Whether a block reference is sound
fn check_ref(heap: &Alloc, p: u64, tag: Tag) -> (r: bool)
    requires
        heap.wf(),
    ensures
        r == ref_sound(*heap, p, tag),
{
    if p % 8 != 0 || !heap.contains(p) {
        return false;
    }
    let h = heap.header_of(p);
    let w = h.to_word();
    if w % 2 == 0 {
        return false;
    }
    let code = ((w / 2) % 128) as u8;
    if code < 1 || code > crate::allocator::LAST_TAG {
        return false;
    }
    h.tag() == tag
}

/// Whether a value stored in the heap is sound
fn check_val(heap: &Alloc, v: Value) -> (r: bool)
    requires
        heap.wf(),
    ensures
        r == value_sound(v, *heap),
{
    if !v.is_heap() {
        return names_a_type(v, heap);
    }
    let p = v.heap_ptr();
    if !heap.contains(p) {
        return false;
    }
    let h = heap.header_of(p);
    let w = h.to_word();
    if w % 2 == 0 {
        return false;
    }
    let code = ((w / 2) % 128) as u8;
    if code < 1 || code > crate::allocator::LAST_TAG {
        return false;
    }
    let t = h.tag();
    if v.tag() == TAG_PTR_VAL {
        t == Tag::Str || t == Tag::Int64 || t == Tag::Float64
    } else {
        t == Tag::Object || t == Tag::Closure || t == Tag::Cell || t == Tag::Array || t == Tag::ByteArray
            || t == Tag::Dict
    }
}

/// Whether a run of `n` words from `p` holds sound values
fn check_words(heap: &Alloc, p: u64, n: u64) -> (r: bool)
    requires
        heap.wf(),
        p % 8 == 0,
        p + 8 * n <= heap.words().len() * 8,
    ensures
        r == words_sound(*heap, p as int, n as int),
{
    proof { heap.lemma_wf_bounds(); }
    let mut i: u64 = 0;
    while i < n
        invariant
            heap.wf(),
            p % 8 == 0,
            heap.words().len() * 8 <= crate::allocator::MAX_RESERVE,
            p + 8 * n <= heap.words().len() * 8,
            i <= n,
            words_sound(*heap, p as int, i as int),
        decreases n - i,
    {
        let v = Value(heap.read_word(p + 8 * i));
        if !check_val(heap, v) {
            return false;
        }
        assert(words_sound(*heap, p as int, (i + 1) as int)) by {
            assert forall|j: int| 0 <= j < i + 1 implies #[trigger] value_sound(Value(heap.word_at(p + 8 * j)), *heap) by {
                if j < i {
                    assert(value_sound(Value(heap.word_at(p + 8 * j)), *heap));
                }
            }
        }
        i = i + 1;
    }
    true
}

/// Whether the `n` slots of a dictionary table from `p` are sound
fn check_slots(heap: &Alloc, p: u64, n: u64) -> (r: bool)
    requires
        heap.wf(),
        p % 8 == 0,
        p + 16 * n <= heap.words().len() * 8,
    ensures
        r == slots_sound(*heap, p as int, n as int),
{
    proof { heap.lemma_wf_bounds(); }
    let mut i: u64 = 0;
    while i < n
        invariant
            heap.wf(),
            p % 8 == 0,
            heap.words().len() * 8 <= crate::allocator::MAX_RESERVE,
            p + 16 * n <= heap.words().len() * 8,
            i <= n,
            slots_sound(*heap, p as int, i as int),
        decreases n - i,
    {
        let key = heap.read_word(p + 16 * i);
        if key != 0 {
            if !check_ref(heap, key, Tag::Str) {
                return false;
            }
            let v = Value(heap.read_word(p + 16 * i + 8));
            if !check_val(heap, v) {
                return false;
            }
        }
        assert(slots_sound(*heap, p as int, (i + 1) as int)) by {
            assert forall|j: int| 0 <= j < i + 1 && #[trigger] heap.word_at(p + 16 * j) != 0 implies {
                &&& ref_sound(*heap, heap.word_at(p + 16 * j), Tag::Str)
                &&& value_sound(Value(heap.word_at(p + 16 * j + 8)), *heap)
            } by {
                if j < i {
                    assert(heap.word_at(p + 16 * j) != 0);
                }
            }
        }
        i = i + 1;
    }
    true
}

/// Whether the block at a given payload address holds sound values
fn check_block(heap: &Alloc, p: u64, h: Header, size: u64) -> (r: bool)
    requires
        heap.wf(),
        h == heap.spec_header_of(p as int),
        h.is_valid(),
        size == h.spec_size(),
        p % 8 == 0,
        p >= 8,
        p + size <= heap.spec_bytes_used(),
    ensures
        r == block_sound(*heap, p as int, h),
{
    proof { heap.lemma_wf_bounds(); }
    match h.tag() {
        Tag::Object | Tag::Closure => check_words(heap, p, h.num_slots() as u64),
        Tag::ValueTable => check_words(heap, p, size / 8),
        Tag::SlotTable => check_slots(heap, p, size / 16),
        Tag::Cell => check_val(heap, Value(heap.read_word(p))),
        Tag::Array => check_ref(heap, heap.read_word(p), Tag::ValueTable),
        Tag::ByteArray => check_ref(heap, heap.read_word(p), Tag::Bytes),
        Tag::Dict => check_ref(heap, heap.read_word(p), Tag::SlotTable),
        _ => true,
    }
}

/// Check that every block of a heap is live and holds sound values, and
/// that the blocks sit back to back up to the allocation point. The
/// error says what was found wrong.
#[verifier::rlimit(60)]
pub fn verify_heap(heap: &Alloc) -> (r: Result<(), String>)
    requires
        heap.wf(),
    ensures
        r is Ok <==> blocks_sound_from(*heap, 0),
{
    proof { heap.lemma_wf_bounds(); }
    let used = heap.bytes_used();
    let mut offset: u64 = 0;
    while offset < used
        invariant
            heap.wf(),
            used == heap.spec_bytes_used(),
            used <= heap.words().len() * 8,
            used <= crate::allocator::MAX_RESERVE,
            offset <= used,
            offset % 8 == 0,
            used % 8 == 0,
            blocks_sound_from(*heap, 0) == blocks_sound_from(*heap, offset as int),
        decreases used - offset,
    {
        let p = heap.block_at(offset);
        let h = heap.header_of(p);
        let w = h.to_word();
        if w % 2 == 0 {
            return Err("forwarded block left in the heap".to_owned());
        }
        let code = ((w / 2) % 128) as u8;
        if code < 1 || code > crate::allocator::LAST_TAG {
            return Err("block header with an unknown tag".to_owned());
        }
        let size = h.size();
        if size > used - p {
            return Err("block runs past the allocation point".to_owned());
        }
        let ok = check_block(heap, p, h, size);
        if !ok {
            return Err("block holds an unsound value".to_owned());
        }
        offset = p + size;
    }
    Ok(())
}

/// A header a copy overwrote with a forwarding address: the payload
/// address of the block, and the header it had
pub struct UndoEntry {
    pub block: u64,
    pub header: Header,
}

/// The words of a heap after putting back, from the first entry of a log
/// to the last, the headers it recorded
pub open spec fn undone(words: Seq<u64>, log: Seq<UndoEntry>) -> Seq<u64>
    decreases log.len(),
{
    if log.len() == 0 {
        words
    } else {
        let e = log.last();
        undone(words, log.drop_last()).update((e.block as int - 8) / 8, e.header.word())
    }
}

/// Index of the header word of a block
pub open spec fn header_index(block: u64) -> int {
    (block as int - 8) / 8
}

/// Putting back a log of headers for distinct blocks restores the header
/// of each block to the one recorded for it, bit for bit, and leaves every
/// other word as it was
pub proof fn law_undo_restores_each_block(words: Seq<u64>, log: Seq<UndoEntry>)
    requires
        forall|i: int| 0 <= i < log.len() ==> 0 <= #[trigger] header_index(log[i].block) < words.len(),
        forall|i: int| 0 <= i < log.len() ==> (#[trigger] log[i].block) % 8 == 0,
        forall|i: int, j: int| 0 <= i < log.len() && 0 <= j < log.len() && i != j
            ==> (#[trigger] log[i]).block != (#[trigger] log[j]).block,
    ensures
        undone(words, log).len() == words.len(),
        forall|i: int| 0 <= i < log.len()
            ==> undone(words, log)[header_index(#[trigger] log[i].block)] == log[i].header.word(),
        forall|k: int| 0 <= k < words.len()
            && (forall|i: int| 0 <= i < log.len() ==> header_index(#[trigger] log[i].block) != k)
            ==> undone(words, log)[k] == words[k],
    decreases log.len(),
{
    if log.len() > 0 {
        let init = log.drop_last();
        assert forall|i: int| 0 <= i < init.len() implies 0 <= #[trigger] header_index(init[i].block) < words.len() by {
            assert(init[i] == log[i]);
        }
        assert forall|i: int| 0 <= i < init.len() implies (#[trigger] init[i].block) % 8 == 0 by {
            assert(init[i] == log[i]);
        }
        assert forall|i: int, j: int| 0 <= i < init.len() && 0 <= j < init.len() && i != j
            implies (#[trigger] init[i]).block != (#[trigger] init[j]).block by {
            assert(init[i] == log[i]);
            assert(init[j] == log[j]);
        }
        law_undo_restores_each_block(words, init);
        let e = log.last();
        let n = log.len() - 1;
        assert forall|i: int| 0 <= i < log.len()
            implies undone(words, log)[header_index(#[trigger] log[i].block)] == log[i].header.word() by {
            if i < n {
                assert(init[i] == log[i]);
                assert(log[i].block != log[n].block);
                assert(header_index(log[i].block) != header_index(log[n].block));
            }
        }
        assert forall|k: int| 0 <= k < words.len()
            && (forall|i: int| 0 <= i < log.len() ==> header_index(#[trigger] log[i].block) != k)
            implies undone(words, log)[k] == words[k] by {
            assert(header_index(log[n].block) != k);
            assert forall|i: int| 0 <= i < init.len() implies header_index(#[trigger] init[i].block) != k by {
                assert(init[i] == log[i]);
                assert(header_index(log[i].block) != k);
            }
        }
    }
}

/// Put back the headers that a copy overwrote with forwarding addresses,
/// the oldest entry first, and empty the log. Needed when copying out of
/// a heap that has to survive the copy.
pub fn undo_forwarding(heap: &mut Alloc, undo: &mut Vec<UndoEntry>)
    requires
        old(heap).wf(),
        forall|i: int| 0 <= i < old(undo)@.len() ==> old(heap).has_block((#[trigger] old(undo)@[i]).block as int),
    ensures
        final(heap).wf(),
        final(heap).words() == undone(old(heap).words(), old(undo)@),
        final(heap).spec_bytes_used() == old(heap).spec_bytes_used(),
        final(undo)@.len() == 0,
{
    let n = undo.len();
    let mut i: usize = 0;
    while i < n
        invariant
            heap.wf(),
            n == undo@.len(),
            undo@ == old(undo)@,
            i <= n,
            heap.spec_bytes_used() == old(heap).spec_bytes_used(),
            heap.words() == undone(old(heap).words(), undo@.take(i as int)),
            forall|k: int| 0 <= k < undo@.len() ==> old(heap).has_block((#[trigger] undo@[k]).block as int),
        decreases n - i,
    {
        let block = undo[i].block;
        let header = undo[i].header;
        proof {
            assert(undo@.take(i as int + 1).drop_last() =~= undo@.take(i as int));
            assert(undo@.take(i as int + 1).last() == undo@[i as int]);
        }
        heap.restore_header(block, header);
        i = i + 1;
    }
    proof { assert(undo@.take(n as int) =~= undo@); }
    undo.clear();
}

} // verus!
