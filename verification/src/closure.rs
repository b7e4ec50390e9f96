use vstd::prelude::*;
use crate::allocator::{Alloc, Tag, HEADER_SIZE, MAX_NUM_SLOTS};
use crate::heap::{alloc_slots_filled, room_for, slot_at};
use crate::ids::{FunId, MAX_ID};
use crate::value::{Value, IMM_UNDEF};

verus! {

/// A closure: a block of slots, one per captured variable, whose header
/// holds the id of the function and the slot count. The slots start at
/// the address of the closure itself.
#[derive(Copy, Clone, Debug, PartialEq, Eq, Structural)]
pub struct Closure {
    pub addr: u64,
}

impl Closure {
    /// Whether this names a closure block of the heap whose slots all lie
    /// in the allocated memory
    pub open spec fn valid_in(self, heap: Alloc) -> bool {
        &&& heap.wf()
        &&& heap.has_block_of(self.addr as int, Tag::Closure)
        &&& self.addr + heap.spec_header_of(self.addr as int).spec_num_slots() * 8 <= heap.spec_bytes_used()
    }

    pub open spec fn spec_num_slots(self, heap: Alloc) -> nat {
        heap.spec_header_of(self.addr as int).spec_num_slots()
    }

    pub open spec fn spec_fun_id(self, heap: Alloc) -> nat {
        heap.spec_header_of(self.addr as int).spec_aux24()
    }

    /// Value held in a given slot
    pub open spec fn spec_get(self, heap: Alloc, idx: int) -> Value {
        Value(heap.word_at(self.addr + idx * 8))
    }

    /// Bytes a closure with a given slot count occupies, header included
    pub fn alloc_size(num_slots: u64) -> (r: u64)
        requires
            num_slots <= MAX_NUM_SLOTS,
        ensures
            r == HEADER_SIZE + num_slots * 8,
    {
        HEADER_SIZE + num_slots * 8
    }

    /// Allocate a closure of a function with a given number of slots, all
    /// of them not yet set; none where the heap has no room
    pub fn new(fun_id: FunId, num_slots: usize, heap: &mut Alloc) -> (r: Option<Closure>)
        requires
            old(heap).wf(),
            num_slots <= MAX_NUM_SLOTS,
        ensures
            final(heap).wf(),
            r is None <==> !room_for(*old(heap), num_slots * 8),
            r is None ==> *final(heap) == *old(heap),
            r matches Some(c) ==> {
                &&& final(heap).has_block_of(c.addr as int, Tag::Closure)
                &&& c.spec_fun_id(*final(heap)) == fun_id.index()
                &&& c.spec_num_slots(*final(heap)) == num_slots
                &&& forall|i: int| 0 <= i < num_slots ==> #[trigger] slot_at(*final(heap), c.addr as int, i) == Value(IMM_UNDEF)
            },
    {
        match alloc_slots_filled(heap, Tag::Closure, fun_id.to_usize(), num_slots, Value::UNDEF()) {
            Some(p) => Some(Closure { addr: p }),
            None => None,
        }
    }

    pub fn fun_id(self, heap: &Alloc) -> (r: FunId)
        requires
            self.valid_in(*heap),
            self.spec_fun_id(*heap) <= MAX_ID,
        ensures
            r.index() == self.spec_fun_id(*heap),
    {
        FunId::new(heap.header_of(self.addr).aux24())
    }

    pub fn num_slots(self, heap: &Alloc) -> (r: usize)
        requires
            self.valid_in(*heap),
        ensures
            r == self.spec_num_slots(*heap),
    {
        heap.header_of(self.addr).num_slots()
    }

    /// Get the value of a given closure slot
    pub fn get(self, heap: &Alloc, idx: usize) -> (r: Value)
        requires
            self.valid_in(*heap),
            idx < self.spec_num_slots(*heap),
        ensures
            r == self.spec_get(*heap, idx as int),
    {
        proof { heap.lemma_wf_bounds(); }
        Value(heap.read_word(self.addr + (idx as u64) * 8))
    }

    /// Set the value of a given closure slot
    pub fn set(self, heap: &mut Alloc, idx: usize, val: Value)
        requires
            self.valid_in(*old(heap)),
            idx < self.spec_num_slots(*old(heap)),
        ensures
            self.valid_in(*final(heap)),
            final(heap).words() == old(heap).words().update((self.addr + idx * 8) / 8, val.bits()),
            final(heap).spec_bytes_used() == old(heap).spec_bytes_used(),
            self.spec_num_slots(*final(heap)) == self.spec_num_slots(*old(heap)),
            self.spec_fun_id(*final(heap)) == self.spec_fun_id(*old(heap)),
            self.spec_get(*final(heap), idx as int) == val,
            forall|j: int| 0 <= j < self.spec_num_slots(*old(heap)) && j != idx ==>
                #[trigger] self.spec_get(*final(heap), j) == self.spec_get(*old(heap), j),
    {
        proof { old(heap).lemma_wf_bounds(); }
        heap.write_word(self.addr + (idx as u64) * 8, val.0);
    }
}

} // verus!
