//! Growable arrays of values.
use vstd::prelude::*;
use crate::allocator::{Alloc, Tag, FIXED_SIZE, HEADER_SIZE, MAX_FIXED_LEN, MAX_RAW_BYTES, spec_align_up};
use crate::heap::room_for;
use crate::value::{Value, IMM_UNDEF, IMM_NIL};

verus! {

/// Largest capacity of an element table
pub const MAX_CAPACITY: u64 = 0x7FF_FFFF_FFFF;

/// What a heap keeps of an earlier state of it: everything allocated
/// before is as it was, apart from the words listed, and the heap has
/// only grown
pub open spec fn keeps(old: Alloc, new: Alloc, changed: Set<int>) -> bool {
    &&& new.wf()
    &&& old.spec_bytes_used() <= new.spec_bytes_used()
    &&& old.words().len() <= new.words().len()
    &&& new.spec_reserve_size() == old.spec_reserve_size()
    &&& new.spec_page_size() == old.spec_page_size()
    &&& new.spec_growable() == old.spec_growable()
    &&& forall|i: int| 0 <= i < old.spec_bytes_used() / 8 && !changed.contains(i)
        ==> #[trigger] new.words()[i] == old.words()[i]
}

/// Capacity an element table grows to when it is full: double, but an
/// empty table has to end up with room for one
pub open spec fn spec_grown_capacity(capacity: int) -> int {
    if capacity * 2 > 1 { capacity * 2 } else { 1 }
}

/// An array: an eight-byte block whose word is the address of its
/// element table, and whose header holds the number of elements. The
/// capacity is the size of the table.
#[derive(Copy, Clone, Debug, PartialEq, Eq, Structural)]
pub struct Array {
    pub addr: u64,
}

impl Array {
    /// Address of the element table
    pub open spec fn spec_table(self, heap: Alloc) -> u64 {
        heap.word_at(self.addr as int)
    }

    pub open spec fn spec_len(self, heap: Alloc) -> nat {
        heap.spec_header_of(self.addr as int).spec_fixed_len()
    }

    pub open spec fn spec_capacity(self, heap: Alloc) -> nat {
        heap.spec_header_of(self.spec_table(heap) as int).spec_num_bytes() / 8
    }

    /// Value in a slot of the table, inside the length or past it
    pub open spec fn spec_slot(self, heap: Alloc, i: int) -> Value {
        Value(heap.word_at(self.spec_table(heap) + 8 * i))
    }

    /// The elements
    pub open spec fn spec_items(self, heap: Alloc) -> Seq<Value> {
        Seq::new(self.spec_len(heap), |i: int| self.spec_slot(heap, i))
    }

    /// Word indices of the array's block and of its table, headers
    /// included
    pub open spec fn footprint(self, heap: Alloc) -> Set<int> {
        let t = self.spec_table(heap) as int;
        Set::new(|i: int| i == (self.addr - 8) / 8 || i == self.addr / 8
            || ((t - 8) / 8 <= i < t / 8 + self.spec_capacity(heap)))
    }

    /// Whether this names a well-formed array of the heap: its block and
    /// its table lie in the allocated memory, apart from each other, and
    /// the length is within the capacity
    pub open spec fn valid_in(self, heap: Alloc) -> bool {
        let t = self.spec_table(heap) as int;
        let cap = self.spec_capacity(heap);
        &&& heap.wf()
        &&& heap.has_block_of(self.addr as int, Tag::Array)
        &&& self.addr + FIXED_SIZE <= heap.spec_bytes_used()
        &&& heap.has_block_of(t, Tag::ValueTable)
        &&& heap.spec_header_of(t).spec_num_bytes() % 8 == 0
        &&& cap <= MAX_CAPACITY
        &&& t + cap * 8 <= heap.spec_bytes_used()
        &&& self.spec_len(heap) <= cap
        &&& (t >= self.addr + FIXED_SIZE + HEADER_SIZE || t + cap * 8 + HEADER_SIZE <= self.addr)
    }

    /// Whether the array's block and its table both lie past a given
    /// allocation point
    pub open spec fn lies_past(self, heap: Alloc, used: int) -> bool {
        &&& used + HEADER_SIZE <= self.addr
        &&& used + HEADER_SIZE <= self.spec_table(heap)
    }

    /// The words of an array that lies past an allocation point are all
    /// past it
    pub proof fn lemma_footprint_past(self, heap: Alloc, used: int)
        requires
            self.valid_in(heap),
            self.lies_past(heap, used),
            used % 8 == 0,
        ensures
            forall|i: int| #[trigger] self.footprint(heap).contains(i) ==> i >= used / 8,
    {
    }

    /// Bytes an array with a given capacity occupies, counting the
    /// headers of both the array and its element table
    pub fn alloc_size(capacity: u64) -> (r: u64)
        requires
            capacity <= MAX_CAPACITY,
        ensures
            r == HEADER_SIZE + FIXED_SIZE + HEADER_SIZE + capacity * 8,
    {
        HEADER_SIZE + FIXED_SIZE + HEADER_SIZE + capacity * 8
    }

    pub fn len(self, heap: &Alloc) -> (r: u64)
        requires
            self.valid_in(*heap),
        ensures
            r == self.spec_len(*heap),
    {
        heap.header_of(self.addr).fixed_len()
    }

    fn table(self, heap: &Alloc) -> (r: u64)
        requires
            self.valid_in(*heap),
        ensures
            r == self.spec_table(*heap),
    {
        proof { heap.lemma_wf_bounds(); }
        heap.read_word(self.addr)
    }

    pub fn capacity(self, heap: &Alloc) -> (r: u64)
        requires
            self.valid_in(*heap),
        ensures
            r == self.spec_capacity(*heap),
    {
        let t = self.table(heap);
        heap.header_of(t).num_bytes() / 8
    }

    /// The value in a slot of the table, which may lie past the length
    pub fn get(self, heap: &Alloc, idx: u64) -> (r: Value)
        requires
            self.valid_in(*heap),
            idx < self.spec_capacity(*heap),
        ensures
            r == self.spec_slot(*heap, idx as int),
    {
        proof { heap.lemma_wf_bounds(); }
        let t = self.table(heap);
        Value(heap.read_word(t + 8 * idx))
    }

    /// Set the value in a slot of the table, which may lie past the length
    pub fn set(self, heap: &mut Alloc, idx: u64, val: Value)
        requires
            self.valid_in(*old(heap)),
            idx < self.spec_capacity(*old(heap)),
        ensures
            self.valid_in(*final(heap)),
            keeps(*old(heap), *final(heap), self.footprint(*old(heap))),
            final(heap).spec_bytes_used() == old(heap).spec_bytes_used(),
            self.spec_table(*final(heap)) == self.spec_table(*old(heap)),
            self.spec_len(*final(heap)) == self.spec_len(*old(heap)),
            self.spec_capacity(*final(heap)) == self.spec_capacity(*old(heap)),
            self.spec_slot(*final(heap), idx as int) == val,
            forall|j: int| 0 <= j < self.spec_capacity(*old(heap)) && j != idx ==>
                #[trigger] self.spec_slot(*final(heap), j) == self.spec_slot(*old(heap), j),
    {
        proof { heap.lemma_wf_bounds(); }
        let t = self.table(heap);
        heap.write_word(t + 8 * idx, val.0);
    }

    /// Allocate an empty array with room for a given number of elements.
    /// The array is allocated before its table, so that the two end up in
    /// the order the collector puts them in. Nothing is allocated if the
    /// heap has no room for both.
    pub fn with_capacity(capacity: u64, heap: &mut Alloc) -> (r: Option<Array>)
        requires
            old(heap).wf(),
        ensures
            final(heap).wf(),
            r is None <==> (capacity > MAX_CAPACITY
                || !room_for(*old(heap), FIXED_SIZE + HEADER_SIZE + capacity * 8)),
            r is None ==> *final(heap) == *old(heap),
            r matches Some(a) ==> {
                &&& a.valid_in(*final(heap))
                &&& a.spec_len(*final(heap)) == 0
                &&& a.spec_capacity(*final(heap)) == capacity
                &&& keeps(*old(heap), *final(heap), Set::empty())
                &&& a.lies_past(*final(heap), old(heap).spec_bytes_used() as int)
                &&& final(heap).spec_bytes_used() == old(heap).spec_bytes_used() + HEADER_SIZE + FIXED_SIZE + HEADER_SIZE + capacity * 8
            },
    {
        if capacity > MAX_CAPACITY {
            return None;
        }
        if !crate::heap::has_room(heap, FIXED_SIZE + HEADER_SIZE + capacity * 8) {
            return None;
        }
        let ghost h0 = *heap;
        proof { heap.lemma_wf_bounds(); }
        let p = heap.alloc_fixed(Tag::Array, 0);
        let ghost h1 = *heap;
        proof { heap.lemma_wf_bounds(); }
        let t = heap.alloc_table(capacity, 8, Tag::ValueTable);
        let ghost h2 = *heap;
        proof {
            heap.lemma_wf_bounds();
            assert(spec_align_up(capacity * 8) == capacity * 8);
        }
        heap.write_word(p, t);
        let a = Array { addr: p };
        proof {
            assert(heap.word_at(p - 8) == h1.word_at(p - 8));
            assert(heap.word_at(t - 8) == h2.word_at(t - 8));
            assert(a.spec_table(*heap) == t);
        }
        Some(a)
    }

    /// Set the number of elements, within the capacity
    fn set_len(self, heap: &mut Alloc, len: u64)
        requires
            self.valid_in(*old(heap)),
            len <= self.spec_capacity(*old(heap)),
        ensures
            self.valid_in(*final(heap)),
            keeps(*old(heap), *final(heap), set![(self.addr - 8) as int / 8]),
            final(heap).spec_bytes_used() == old(heap).spec_bytes_used(),
            self.spec_table(*final(heap)) == self.spec_table(*old(heap)),
            self.spec_len(*final(heap)) == len,
            self.spec_capacity(*final(heap)) == self.spec_capacity(*old(heap)),
            forall|j: int| 0 <= j < self.spec_capacity(*old(heap)) ==>
                #[trigger] self.spec_slot(*final(heap), j) == self.spec_slot(*old(heap), j),
    {
        proof { heap.lemma_wf_bounds(); }
        heap.set_fixed_len(self.addr, len);
    }

    /// Move the elements to a new table of a given capacity. Nothing
    /// changes if the heap has no room for the table.
    #[verifier::rlimit(40)]
    fn grow_to(self, heap: &mut Alloc, new_capacity: u64) -> (r: bool)
        requires
            self.valid_in(*old(heap)),
            self.spec_len(*old(heap)) <= new_capacity <= MAX_CAPACITY,
        ensures
            r == room_for(*old(heap), new_capacity * 8),
            !r ==> *final(heap) == *old(heap),
            r ==> {
                &&& self.valid_in(*final(heap))
                &&& keeps(*old(heap), *final(heap), set![self.addr as int / 8])
                &&& old(heap).spec_bytes_used() < self.spec_table(*final(heap))
                &&& self.spec_len(*final(heap)) == self.spec_len(*old(heap))
                &&& self.spec_capacity(*final(heap)) == new_capacity
                &&& forall|j: int| 0 <= j < self.spec_len(*old(heap)) ==>
                    #[trigger] self.spec_slot(*final(heap), j) == self.spec_slot(*old(heap), j)
            },
    {
        if !crate::heap::has_room(heap, new_capacity * 8) {
            return false;
        }
        let ghost h0 = *heap;
        proof { heap.lemma_wf_bounds(); }
        let len = self.len(heap);
        let old_t = self.table(heap);
        let t = heap.alloc_table(new_capacity, 8, Tag::ValueTable);
        let ghost h1 = *heap;
        proof {
            heap.lemma_wf_bounds();
            assert(spec_align_up(new_capacity * 8) == new_capacity * 8);
        }
        let mut i: u64 = 0;
        while i < len
            invariant
                heap.wf(),
                i <= len,
                len == self.spec_len(h0),
                len <= new_capacity,
                old_t == self.spec_table(h0),
                self.valid_in(h0),
                h0.spec_bytes_used() + HEADER_SIZE == t,
                t % 8 == 0,
                old_t % 8 == 0,
                old_t + len * 8 <= h0.spec_bytes_used(),
                t + new_capacity * 8 == heap.spec_bytes_used(),
                heap.spec_bytes_used() == h1.spec_bytes_used(),
                heap.spec_bytes_used() <= heap.words().len() * 8,
                heap.spec_bytes_used() <= crate::allocator::MAX_RESERVE,
                heap.words().len() == h1.words().len(),
                heap.spec_reserve_size() == h1.spec_reserve_size(),
                heap.spec_page_size() == h1.spec_page_size(),
                heap.spec_growable() == h1.spec_growable(),
                forall|k: int| 0 <= k < heap.words().len() && !(t / 8 <= k < t / 8 + i)
                    ==> #[trigger] heap.words()[k] == h1.words()[k],
                forall|j: int| 0 <= j < i ==> #[trigger] heap.word_at(t + 8 * j) == h0.word_at(old_t + 8 * j),
                forall|k: int| 0 <= k < h0.spec_bytes_used() / 8 ==> #[trigger] h1.words()[k] == h0.words()[k],
            decreases len - i,
        {
            let v = heap.read_word(old_t + 8 * i);
            proof {
                assert((old_t + 8 * i) / 8 < h0.spec_bytes_used() / 8);
                assert(v == h0.word_at(old_t + 8 * i));
            }
            let ghost before = *heap;
            heap.write_word(t + 8 * i, v);
            proof {
                assert forall|j: int| 0 <= j < i + 1 implies #[trigger] heap.word_at(t + 8 * j) == h0.word_at(old_t + 8 * j) by {
                    if j < i {
                        assert((t + 8 * j) / 8 != (t + 8 * i) / 8);
                        assert(heap.word_at(t + 8 * j) == before.word_at(t + 8 * j));
                    }
                }
            }
            i = i + 1;
        }
        let ghost h3 = *heap;
        heap.write_word(self.addr, t);
        proof {
            assert(heap.word_at(self.addr as int) == t);
            assert(heap.word_at(self.addr - 8) == h0.word_at(self.addr - 8));
            assert(heap.word_at(t - 8) == h1.word_at(t - 8));
            assert forall|j: int| 0 <= j < len implies
                #[trigger] self.spec_slot(*heap, j) == self.spec_slot(h0, j) by {
                assert((t + 8 * j) / 8 != self.addr / 8);
                assert(h3.word_at(t + 8 * j) == h0.word_at(old_t + 8 * j));
                assert(heap.word_at(t + 8 * j) == h3.word_at(t + 8 * j));
            }
        }
        true
    }

    /// Append an element, growing the table if it is full. Nothing
    /// changes if the heap has no room for a bigger table.
    #[verifier::rlimit(40)]
    pub fn push(self, heap: &mut Alloc, val: Value) -> (r: bool)
        requires
            self.valid_in(*old(heap)),
        ensures
            r == !(self.spec_len(*old(heap)) == self.spec_capacity(*old(heap))
                && (spec_grown_capacity(self.spec_capacity(*old(heap)) as int) > MAX_CAPACITY
                    || !room_for(*old(heap), spec_grown_capacity(self.spec_capacity(*old(heap)) as int) * 8))),
            !r ==> *final(heap) == *old(heap),
            r ==> {
                &&& self.valid_in(*final(heap))
                &&& keeps(*old(heap), *final(heap), self.footprint(*old(heap)))
                &&& self.spec_items(*final(heap)) == self.spec_items(*old(heap)).push(val)
            },
    {
        let ghost h0 = *heap;
        let len = self.len(heap);
        let cap = self.capacity(heap);
        if len == cap {
            let new_cap: u64 = if cap * 2 > 1 { cap * 2 } else { 1 };
            if new_cap > MAX_CAPACITY {
                return false;
            }
            if !self.grow_to(heap, new_cap) {
                return false;
            }
        }
        let ghost h1 = *heap;
        self.set(heap, len, val);
        let ghost h2 = *heap;
        self.set_len(heap, len + 1);
        proof {
            assert forall|j: int| 0 <= j < len implies
                #[trigger] self.spec_slot(*heap, j) == self.spec_slot(h0, j) by {
                assert(self.spec_slot(h2, j) == self.spec_slot(h1, j));
                assert(self.spec_slot(h1, j) == self.spec_slot(h0, j));
            }
            assert(self.spec_items(*heap) =~= self.spec_items(h0).push(val));
        }
        true
    }

    /// The elements, in order
    pub fn items(self, heap: &Alloc) -> (r: Vec<Value>)
        requires
            self.valid_in(*heap),
        ensures
            r@ == self.spec_items(*heap),
    {
        let len = self.len(heap);
        let mut out: Vec<Value> = Vec::new();
        let mut i: u64 = 0;
        while i < len
            invariant
                self.valid_in(*heap),
                len == self.spec_len(*heap),
                i <= len,
                out@ == self.spec_items(*heap).take(i as int),
            decreases len - i,
        {
            let v = self.get(heap, i);
            out.push(v);
            assert(out@ =~= self.spec_items(*heap).take(i as int + 1));
            i = i + 1;
        }
        assert(self.spec_items(*heap).take(len as int) =~= self.spec_items(*heap));
        out
    }

    /// Remove the last element and return it, or nil if there is none.
    /// The slot it leaves is cleared, so that the collector, which scans
    /// the whole table, does not keep what it held alive.
    pub fn pop(self, heap: &mut Alloc) -> (r: Value)
        requires
            self.valid_in(*old(heap)),
        ensures
            self.valid_in(*final(heap)),
            keeps(*old(heap), *final(heap), self.footprint(*old(heap))),
            final(heap).spec_bytes_used() == old(heap).spec_bytes_used(),
            self.spec_len(*old(heap)) == 0 ==> r == Value(IMM_NIL) && *final(heap) == *old(heap),
            self.spec_len(*old(heap)) > 0 ==> {
                &&& r == self.spec_items(*old(heap)).last()
                &&& self.spec_items(*final(heap)) == self.spec_items(*old(heap)).drop_last()
            },
    {
        let len = self.len(heap);
        if len == 0 {
            return Value::NIL();
        }
        let ghost h0 = *heap;
        let popped = self.get(heap, len - 1);
        self.set_len(heap, len - 1);
        let ghost h1 = *heap;
        self.set(heap, len - 1, Value::UNDEF());
        proof {
            assert forall|j: int| 0 <= j < len - 1 implies
                #[trigger] self.spec_slot(*heap, j) == self.spec_slot(h0, j) by {
                assert(self.spec_slot(h1, j) == self.spec_slot(h0, j));
            }
            assert(self.spec_items(*heap) =~= self.spec_items(h0).drop_last());
        }
        popped
    }

    /// Remove the element at an index and return it, moving the ones
    /// after it down; nil, with nothing changed, if there is no such
    /// element
    #[verifier::rlimit(40)]
    pub fn remove(self, heap: &mut Alloc, idx: u64) -> (r: Value)
        requires
            self.valid_in(*old(heap)),
        ensures
            self.valid_in(*final(heap)),
            keeps(*old(heap), *final(heap), self.footprint(*old(heap))),
            final(heap).spec_bytes_used() == old(heap).spec_bytes_used(),
            self.spec_capacity(*final(heap)) == self.spec_capacity(*old(heap)),
            idx >= self.spec_len(*old(heap)) ==> r == Value(IMM_NIL) && *final(heap) == *old(heap),
            idx < self.spec_len(*old(heap)) ==> {
                &&& r == self.spec_items(*old(heap))[idx as int]
                &&& self.spec_items(*final(heap)) == self.spec_items(*old(heap)).remove(idx as int)
            },
    {
        let len = self.len(heap);
        if idx >= len {
            return Value::NIL();
        }
        let ghost h0 = *heap;
        let removed = self.get(heap, idx);
        let mut k = idx;
        while k + 1 < len
            invariant
                self.valid_in(*heap),
                keeps(h0, *heap, self.footprint(h0)),
                heap.spec_bytes_used() == h0.spec_bytes_used(),
                self.spec_table(*heap) == self.spec_table(h0),
                self.spec_len(*heap) == len,
                self.spec_capacity(*heap) == self.spec_capacity(h0),
                len == self.spec_len(h0),
                idx <= k < len,
                forall|j: int| 0 <= j < self.spec_capacity(h0) ==> #[trigger] self.spec_slot(*heap, j)
                    == if idx <= j < k { self.spec_slot(h0, j + 1) } else { self.spec_slot(h0, j) },
            decreases len - k,
        {
            let v = self.get(heap, k + 1);
            self.set(heap, k, v);
            k = k + 1;
        }
        let ghost h1 = *heap;
        self.set_len(heap, len - 1);
        let ghost h2 = *heap;
        self.set(heap, len - 1, Value::UNDEF());
        proof {
            assert forall|j: int| 0 <= j < len - 1 implies #[trigger] self.spec_slot(*heap, j)
                == self.spec_items(h0).remove(idx as int)[j] by {
                assert(self.spec_slot(h2, j) == self.spec_slot(h1, j));
            }
            assert(self.spec_items(*heap) =~= self.spec_items(h0).remove(idx as int));
        }
        removed
    }

    /// Insert an element at an index, moving the ones from there up,
    /// and growing the table if it is full. Nothing changes if the heap
    /// has no room for a bigger table.
    #[verifier::rlimit(40)]
    pub fn insert(self, heap: &mut Alloc, idx: u64, val: Value) -> (r: bool)
        requires
            self.valid_in(*old(heap)),
            idx <= self.spec_len(*old(heap)),
        ensures
            r == !(self.spec_len(*old(heap)) == self.spec_capacity(*old(heap))
                && (spec_grown_capacity(self.spec_capacity(*old(heap)) as int) > MAX_CAPACITY
                    || !room_for(*old(heap), spec_grown_capacity(self.spec_capacity(*old(heap)) as int) * 8))),
            !r ==> *final(heap) == *old(heap),
            r ==> {
                &&& self.valid_in(*final(heap))
                &&& keeps(*old(heap), *final(heap), self.footprint(*old(heap)))
                &&& self.spec_items(*final(heap)) == self.spec_items(*old(heap)).insert(idx as int, val)
            },
    {
        let ghost h0 = *heap;
        let len = self.len(heap);
        let cap = self.capacity(heap);
        if len == cap {
            let new_cap: u64 = if cap * 2 > 1 { cap * 2 } else { 1 };
            if new_cap > MAX_CAPACITY {
                return false;
            }
            if !self.grow_to(heap, new_cap) {
                return false;
            }
        }
        let ghost h1 = *heap;
        let mut k = len;
        while k > idx
            invariant
                self.valid_in(*heap),
                keeps(h1, *heap, self.footprint(h1)),
                heap.spec_bytes_used() == h1.spec_bytes_used(),
                self.spec_table(*heap) == self.spec_table(h1),
                self.spec_len(*heap) == len,
                self.spec_capacity(*heap) == self.spec_capacity(h1),
                len < self.spec_capacity(h1),
                idx <= k <= len,
                forall|j: int| 0 <= j < self.spec_capacity(h1) ==> #[trigger] self.spec_slot(*heap, j)
                    == if k < j <= len { self.spec_slot(h1, j - 1) } else { self.spec_slot(h1, j) },
            decreases k,
        {
            let v = self.get(heap, k - 1);
            self.set(heap, k, v);
            k = k - 1;
        }
        let ghost h2 = *heap;
        self.set(heap, idx, val);
        let ghost h3 = *heap;
        self.set_len(heap, len + 1);
        proof {
            assert forall|j: int| 0 <= j < len + 1 implies #[trigger] self.spec_slot(*heap, j)
                == self.spec_items(h0).insert(idx as int, val)[j] by {
                assert(self.spec_slot(*heap, j) == self.spec_slot(h3, j));
                if j < idx {
                    assert(self.spec_slot(h1, j) == self.spec_slot(h0, j));
                } else if j > idx {
                    assert(self.spec_slot(h1, j - 1) == self.spec_slot(h0, j - 1));
                }
            }
            assert(self.spec_items(*heap) =~= self.spec_items(h0).insert(idx as int, val));
        }
        true
    }

    /// Set the number of elements, growing the table if the new length
    /// does not fit, and filling the new slots with a value. Slots past a
    /// shorter length are cleared. Nothing changes if the heap has no room
    /// for a bigger table.
    #[verifier::rlimit(40)]
    pub fn resize(self, heap: &mut Alloc, new_len: u64, fill_val: Value) -> (r: bool)
        requires
            self.valid_in(*old(heap)),
        ensures
            r == !(new_len > self.spec_capacity(*old(heap))
                && (new_len > MAX_CAPACITY || !room_for(*old(heap), new_len * 8))),
            !r ==> *final(heap) == *old(heap),
            r && new_len <= self.spec_capacity(*old(heap)) ==> self.spec_capacity(*final(heap)) == self.spec_capacity(*old(heap)),
            r ==> {
                &&& self.valid_in(*final(heap))
                &&& keeps(*old(heap), *final(heap), self.footprint(*old(heap)))
                &&& (self.spec_table(*final(heap)) == self.spec_table(*old(heap))
                    || old(heap).spec_bytes_used() < self.spec_table(*final(heap)))
                &&& self.spec_items(*final(heap)) == if new_len > self.spec_len(*old(heap)) {
                        self.spec_items(*old(heap)) + Seq::new((new_len - self.spec_len(*old(heap))) as nat, |i: int| fill_val)
                    } else {
                        self.spec_items(*old(heap)).take(new_len as int)
                    }
            },
    {
        let ghost h0 = *heap;
        let cap = self.capacity(heap);
        if new_len > cap {
            if new_len > MAX_CAPACITY {
                return false;
            }
            if !self.grow_to(heap, new_len) {
                return false;
            }
        }
        let ghost h1 = *heap;
        let len = self.len(heap);
        let (lo, hi, v) = if new_len > len { (len, new_len, fill_val) } else { (new_len, len, Value::UNDEF()) };
        let mut k = lo;
        while k < hi
            invariant
                self.valid_in(*heap),
                keeps(h1, *heap, self.footprint(h1)),
                heap.spec_bytes_used() == h1.spec_bytes_used(),
                self.spec_table(*heap) == self.spec_table(h1),
                self.spec_len(*heap) == len,
                self.spec_capacity(*heap) == self.spec_capacity(h1),
                hi <= self.spec_capacity(h1),
                lo <= k <= hi,
                forall|j: int| 0 <= j < self.spec_capacity(h1) ==> #[trigger] self.spec_slot(*heap, j)
                    == if lo <= j < k { v } else { self.spec_slot(h1, j) },
            decreases hi - k,
        {
            self.set(heap, k, v);
            k = k + 1;
        }
        let ghost h2 = *heap;
        self.set_len(heap, new_len);
        proof {
            assert forall|j: int| 0 <= j < new_len implies #[trigger] self.spec_slot(*heap, j)
                == (if new_len > len {
                        self.spec_items(h0) + Seq::new((new_len - len) as nat, |i: int| fill_val)
                    } else {
                        self.spec_items(h0).take(new_len as int)
                    })[j] by {
                assert(self.spec_slot(*heap, j) == self.spec_slot(h2, j));
                if j < len {
                    assert(self.spec_slot(h1, j) == self.spec_slot(h0, j));
                }
            }
            assert(self.spec_items(*heap) =~= if new_len > len {
                    self.spec_items(h0) + Seq::new((new_len - len) as nat, |i: int| fill_val)
                } else {
                    self.spec_items(h0).take(new_len as int)
                });
        }
        true
    }

    /// An array is as it was in a heap that kept everything apart from
    /// words outside the array
    pub proof fn lemma_kept(self, old: Alloc, new: Alloc, changed: Set<int>)
        requires
            self.valid_in(old),
            keeps(old, new, changed),
            changed.disjoint(self.footprint(old)),
        ensures
            self.valid_in(new),
            self.spec_table(new) == self.spec_table(old),
            self.spec_len(new) == self.spec_len(old),
            self.spec_capacity(new) == self.spec_capacity(old),
            self.footprint(new) == self.footprint(old),
            self.spec_items(new) == self.spec_items(old),
            forall|j: int| 0 <= j < self.spec_capacity(old) ==> #[trigger] self.spec_slot(new, j) == self.spec_slot(old, j),
    {
        let t = self.spec_table(old) as int;
        old.lemma_wf_bounds();
        assert(self.footprint(old).contains(self.addr as int / 8));
        assert(self.footprint(old).contains((self.addr - 8) as int / 8));
        assert(self.footprint(old).contains((t - 8) / 8));
        assert(new.words()[self.addr as int / 8] == old.words()[self.addr as int / 8]);
        assert(new.words()[(self.addr - 8) as int / 8] == old.words()[(self.addr - 8) as int / 8]);
        assert(new.words()[(t - 8) / 8] == old.words()[(t - 8) / 8]);
        assert forall|j: int| 0 <= j < self.spec_capacity(old) implies #[trigger] self.spec_slot(new, j) == self.spec_slot(old, j) by {
            assert(self.footprint(old).contains(t / 8 + j));
            assert((t + 8 * j) / 8 == t / 8 + j);
            assert(new.words()[t / 8 + j] == old.words()[t / 8 + j]);
        }
        assert(self.footprint(new) =~= self.footprint(old));
        assert(self.spec_items(new) =~= self.spec_items(old));
    }

    /// Allocate an array of a given size, with every element a given
    /// value. Nothing is allocated if the heap has no room for it.
    pub fn with_size(size: u64, fill_val: Value, heap: &mut Alloc) -> (r: Option<Array>)
        requires
            old(heap).wf(),
        ensures
            final(heap).wf(),
            r is None <==> (size > MAX_CAPACITY || !room_for(*old(heap), FIXED_SIZE + HEADER_SIZE + size * 8)),
            r is None ==> *final(heap) == *old(heap),
            r matches Some(a) ==> {
                &&& a.valid_in(*final(heap))
                &&& a.spec_items(*final(heap)) == Seq::new(size as nat, |i: int| fill_val)
                &&& a.spec_capacity(*final(heap)) == size
                &&& keeps(*old(heap), *final(heap), Set::empty())
                &&& a.lies_past(*final(heap), old(heap).spec_bytes_used() as int)
            },
    {
        let ghost h0 = *heap;
        let a = match Array::with_capacity(size, heap) {
            Some(a) => a,
            None => { return None; }
        };
        let ghost h1 = *heap;
        let ok = a.resize(heap, size, fill_val);
        proof {
            assert(ok);
            assert(a.spec_items(h1) =~= Seq::<Value>::empty());
            assert(a.spec_items(*heap) =~= Seq::new(size as nat, |i: int| fill_val));
            h0.lemma_wf_bounds();
            a.lemma_footprint_past(h1, h0.spec_bytes_used() as int);
            assert forall|i: int| 0 <= i < h0.spec_bytes_used() / 8 implies #[trigger] heap.words()[i] == h0.words()[i] by {
                assert(!a.footprint(h1).contains(i));
            }
        }
        Some(a)
    }

    /// A new array holding the elements from `start` up to `end`. Nothing
    /// is allocated if the heap has no room for it.
    #[verifier::rlimit(40)]
    pub fn slice(self, heap: &mut Alloc, start: u64, end: u64) -> (r: Option<Array>)
        requires
            self.valid_in(*old(heap)),
            start <= end <= self.spec_len(*old(heap)),
        ensures
            final(heap).wf(),
            r is None <==> !room_for(*old(heap), FIXED_SIZE + HEADER_SIZE + (end - start) * 8),
            r is None ==> *final(heap) == *old(heap),
            r matches Some(b) ==> {
                &&& b.valid_in(*final(heap))
                &&& b.spec_items(*final(heap)) == self.spec_items(*old(heap)).subrange(start as int, end as int)
                &&& keeps(*old(heap), *final(heap), Set::empty())
                &&& b.lies_past(*final(heap), old(heap).spec_bytes_used() as int)
            },
    {
        let ghost h0 = *heap;
        let items = self.items(heap);
        let n = end - start;
        let b = match Array::with_capacity(n, heap) {
            Some(b) => b,
            None => { return None; }
        };
        let ghost h1 = *heap;
        let mut k: u64 = 0;
        while k < n
            invariant
                b.valid_in(*heap),
                keeps(h1, *heap, b.footprint(h1)),
                heap.spec_bytes_used() == h1.spec_bytes_used(),
                b.spec_table(*heap) == b.spec_table(h1),
                b.spec_len(*heap) == 0,
                b.spec_capacity(*heap) == n,
                b.spec_capacity(h1) == n,
                n == end - start,
                end <= items@.len(),
                items@ == self.spec_items(h0),
                k <= n,
                forall|j: int| 0 <= j < k ==> #[trigger] b.spec_slot(*heap, j) == items@[start + j],
            decreases n - k,
        {
            b.set(heap, k, items[(start + k) as usize]);
            k = k + 1;
        }
        let ghost h2 = *heap;
        b.set_len(heap, n);
        proof {
            assert forall|j: int| 0 <= j < n implies #[trigger] b.spec_slot(*heap, j) == items@[start + j] by {
                assert(b.spec_slot(h2, j) == items@[start + j]);
            }
            assert(b.spec_items(*heap) =~= self.spec_items(h0).subrange(start as int, end as int));
            h0.lemma_wf_bounds();
            b.lemma_footprint_past(h1, h0.spec_bytes_used() as int);
            assert forall|i: int| 0 <= i < h0.spec_bytes_used() / 8 implies #[trigger] heap.words()[i] == h0.words()[i] by {
                assert(!b.footprint(h1).contains(i));
            }
        }
        Some(b)
    }

    /// Append the elements of another array, growing the table if they do
    /// not fit. Nothing changes if the heap has no room for a bigger
    /// table.
    #[verifier::rlimit(40)]
    pub fn append(self, heap: &mut Alloc, other: Array) -> (r: bool)
        requires
            self.valid_in(*old(heap)),
            other.valid_in(*old(heap)),
            self.footprint(*old(heap)).disjoint(other.footprint(*old(heap))),
        ensures
            r == !(self.spec_len(*old(heap)) + other.spec_len(*old(heap)) > self.spec_capacity(*old(heap))
                && (self.spec_len(*old(heap)) + other.spec_len(*old(heap)) > MAX_CAPACITY
                    || !room_for(*old(heap), ((self.spec_len(*old(heap)) + other.spec_len(*old(heap))) * 8) as int))),
            !r ==> *final(heap) == *old(heap),
            r ==> {
                &&& self.valid_in(*final(heap))
                &&& keeps(*old(heap), *final(heap), self.footprint(*old(heap)))
                &&& self.spec_items(*final(heap)) == self.spec_items(*old(heap)) + other.spec_items(*old(heap))
                &&& other.valid_in(*final(heap))
                &&& other.spec_items(*final(heap)) == other.spec_items(*old(heap))
            },
    {
        let ghost h0 = *heap;
        let other_items = other.items(heap);
        let len = self.len(heap);
        let cap = self.capacity(heap);
        let olen = other_items.len() as u64;
        let new_len = len + olen;
        if new_len > cap {
            if new_len > MAX_CAPACITY {
                return false;
            }
            if !self.grow_to(heap, new_len) {
                return false;
            }
        }
        let ghost h1 = *heap;
        let mut k: u64 = 0;
        while k < olen
            invariant
                self.valid_in(*heap),
                keeps(h1, *heap, self.footprint(h1)),
                heap.spec_bytes_used() == h1.spec_bytes_used(),
                self.spec_table(*heap) == self.spec_table(h1),
                self.spec_len(*heap) == len,
                self.spec_capacity(*heap) == self.spec_capacity(h1),
                new_len <= self.spec_capacity(h1),
                new_len == len + olen,
                olen == other_items@.len(),
                k <= olen,
                forall|j: int| 0 <= j < self.spec_capacity(h1) ==> #[trigger] self.spec_slot(*heap, j)
                    == if len <= j < len + k { other_items@[j - len] } else { self.spec_slot(h1, j) },
            decreases olen - k,
        {
            self.set(heap, len + k, other_items[k as usize]);
            k = k + 1;
        }
        let ghost h2 = *heap;
        self.set_len(heap, new_len);
        proof {
            assert forall|j: int| 0 <= j < new_len implies #[trigger] self.spec_slot(*heap, j)
                == (self.spec_items(h0) + other.spec_items(h0))[j] by {
                assert(self.spec_slot(*heap, j) == self.spec_slot(h2, j));
                if j < len {
                    assert(self.spec_slot(h1, j) == self.spec_slot(h0, j));
                }
            }
            assert(self.spec_items(*heap) =~= self.spec_items(h0) + other.spec_items(h0));
            assert forall|i: int| 0 <= i < h0.spec_bytes_used() / 8 && !self.footprint(h0).contains(i)
                implies #[trigger] heap.words()[i] == h0.words()[i] by {
                assert(!self.footprint(h1).contains(i) || i >= h0.spec_bytes_used() / 8);
            }
            other.lemma_kept(h0, *heap, self.footprint(h0));
        }
        true
    }

    /// The array at a given address, if a well-formed one lies there
    pub fn at(heap: &Alloc, addr: u64) -> (r: Option<Array>)
        requires
            heap.wf(),
        ensures
            r is Some <==> (Array { addr }).valid_in(*heap),
            r matches Some(a) ==> a.addr == addr,
    {
        proof { heap.lemma_wf_bounds(); }
        let a = Array { addr };
        if addr % 8 != 0 || !heap.contains(addr) {
            return None;
        }
        let h = heap.header_of(addr);
        let w = h.to_word();
        if w % 2 == 0 {
            return None;
        }
        let code = ((w / 2) % 128) as u8;
        if code < 1 || code > crate::allocator::LAST_TAG || h.tag() != Tag::Array {
            return None;
        }
        if heap.bytes_used() - addr < FIXED_SIZE {
            return None;
        }
        let t = heap.read_word(addr);
        if t % 8 != 0 || !heap.contains(t) {
            return None;
        }
        let th = heap.header_of(t);
        let tw = th.to_word();
        if tw % 2 == 0 {
            return None;
        }
        let tcode = ((tw / 2) % 128) as u8;
        if tcode < 1 || tcode > crate::allocator::LAST_TAG || th.tag() != Tag::ValueTable {
            return None;
        }
        let nb = th.num_bytes();
        if nb % 8 != 0 || nb / 8 > MAX_CAPACITY {
            return None;
        }
        let cap = nb / 8;
        if heap.bytes_used() - t < cap * 8 {
            return None;
        }
        if h.fixed_len() > cap {
            return None;
        }
        if !(t >= addr + FIXED_SIZE + HEADER_SIZE || (t + cap * 8 + HEADER_SIZE <= addr)) {
            return None;
        }
        Some(a)
    }

    /// Whether each block and each table of two arrays, headers
    /// included, lies apart from the other array's
    pub open spec fn spans_apart(self, other: Array, heap: Alloc) -> bool {
        let (a0, a1) = (self.addr - 8, self.addr + 8);
        let (b0, b1) = (other.addr - 8, other.addr + 8);
        let (s0, s1) = (self.spec_table(heap) - 8, self.spec_table(heap) + self.spec_capacity(heap) * 8);
        let (u0, u1) = (other.spec_table(heap) - 8, other.spec_table(heap) + other.spec_capacity(heap) * 8);
        &&& (a1 <= b0 || b1 <= a0)
        &&& (a1 <= u0 || u1 <= a0)
        &&& (s1 <= b0 || b1 <= s0)
        &&& (s1 <= u0 || u1 <= s0)
    }

    /// Whether two arrays share no word, neither of their blocks nor of
    /// their tables: each block and each table, header included, lies
    /// apart from the other array's
    pub fn disjoint_from(self, other: Array, heap: &Alloc) -> (r: bool)
        requires
            self.valid_in(*heap),
            other.valid_in(*heap),
        ensures
            r ==> self.footprint(*heap).disjoint(other.footprint(*heap)),
            r == self.spans_apart(other, *heap),
    {
        proof { heap.lemma_wf_bounds(); }
        let t0 = self.table(heap);
        let t1 = other.table(heap);
        let c0 = self.capacity(heap);
        let c1 = other.capacity(heap);
        // Each footprint is the two words of the array's block and the
        // run of words of its table, header included
        let (a0, a1) = (self.addr - HEADER_SIZE, self.addr + FIXED_SIZE);
        let (b0, b1) = (other.addr - HEADER_SIZE, other.addr + FIXED_SIZE);
        let (s0, s1) = (t0 - HEADER_SIZE, t0 + c0 * 8);
        let (u0, u1) = (t1 - HEADER_SIZE, t1 + c1 * 8);
        let apart = |x0: u64, x1: u64, y0: u64, y1: u64| -> (r: bool)
            ensures r == (x1 <= y0 || y1 <= x0)
        { x1 <= y0 || y1 <= x0 };
        let r = apart(a0, a1, b0, b1) && apart(a0, a1, u0, u1) && apart(s0, s1, b0, b1) && apart(s0, s1, u0, u1);
        proof {
            if r {
                assert forall|i: int| self.footprint(*heap).contains(i) implies !other.footprint(*heap).contains(i) by {
                }
            }
        }
        r
    }
}

} // verus!
