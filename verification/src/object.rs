use vstd::prelude::*;
use crate::allocator::{Alloc, Tag, HEADER_SIZE, MAX_NUM_SLOTS};
use crate::ids::ClassId;
use crate::value::Value;

verus! {

/// An object: a block of slots, one per field, whose header holds the
/// class id and the slot count. Nothing else is stored: the slots start
/// at the address of the object itself.
#[derive(Copy, Clone, Debug, PartialEq, Eq, Structural)]
pub struct Object {
    pub addr: u64,
}

impl Object {
    /// Whether this names an object block of the heap whose slots all lie
    /// in the allocated memory
    pub open spec fn valid_in(self, heap: Alloc) -> bool {
        &&& heap.wf()
        &&& heap.has_block_of(self.addr as int, Tag::Object)
        &&& self.addr + heap.spec_header_of(self.addr as int).spec_num_slots() * 8 <= heap.spec_bytes_used()
    }

    pub open spec fn spec_num_slots(self, heap: Alloc) -> nat {
        heap.spec_header_of(self.addr as int).spec_num_slots()
    }

    pub open spec fn spec_class_id(self, heap: Alloc) -> nat {
        heap.spec_header_of(self.addr as int).spec_aux24()
    }

    /// Value held in a given slot
    pub open spec fn spec_get(self, heap: Alloc, idx: int) -> Value {
        Value(heap.word_at(self.addr + idx * 8))
    }

    /// Bytes an object with a given slot count occupies, header included
    pub fn alloc_size(num_slots: u64) -> (r: u64)
        requires
            num_slots <= MAX_NUM_SLOTS,
        ensures
            r == HEADER_SIZE + num_slots * 8,
    {
        HEADER_SIZE + num_slots * 8
    }

    pub fn class_id(self, heap: &Alloc) -> (r: ClassId)
        requires
            self.valid_in(*heap),
        ensures
            r.index() == self.spec_class_id(*heap),
    {
        ClassId::new(heap.header_of(self.addr).aux24())
    }

    pub fn num_slots(self, heap: &Alloc) -> (r: usize)
        requires
            self.valid_in(*heap),
        ensures
            r == self.spec_num_slots(*heap),
    {
        heap.header_of(self.addr).num_slots()
    }

    /// Get the value associated with a given field
    pub fn get(self, heap: &Alloc, idx: usize) -> (r: Value)
        requires
            self.valid_in(*heap),
            idx < self.spec_num_slots(*heap),
        ensures
            r == self.spec_get(*heap, idx as int),
    {
        proof { heap.lemma_wf_bounds(); }
        Value(heap.read_word(self.addr + (idx as u64) * 8))
    }

    /// Set the value of a given field
    pub fn set(self, heap: &mut Alloc, idx: usize, val: Value)
        requires
            self.valid_in(*old(heap)),
            idx < self.spec_num_slots(*old(heap)),
        ensures
            self.valid_in(*final(heap)),
            final(heap).words() == old(heap).words().update((self.addr + idx * 8) / 8, val.bits()),
            final(heap).spec_bytes_used() == old(heap).spec_bytes_used(),
            final(heap).spec_reserve_size() == old(heap).spec_reserve_size(),
            final(heap).spec_page_size() == old(heap).spec_page_size(),
            final(heap).spec_growable() == old(heap).spec_growable(),
            self.spec_num_slots(*final(heap)) == self.spec_num_slots(*old(heap)),
            self.spec_class_id(*final(heap)) == self.spec_class_id(*old(heap)),
            self.spec_get(*final(heap), idx as int) == val,
            forall|j: int| 0 <= j < self.spec_num_slots(*old(heap)) && j != idx ==>
                #[trigger] self.spec_get(*final(heap), j) == self.spec_get(*old(heap), j),
    {
        proof { old(heap).lemma_wf_bounds(); }
        heap.write_word(self.addr + (idx as u64) * 8, val.0);
    }
}

} // verus!
