//! Byte arrays: runs of bytes whose length can change.
use vstd::prelude::*;
use crate::allocator::{Alloc, Tag, FIXED_SIZE, HEADER_SIZE, MAX_RAW_BYTES, spec_align_up, align_up};
use crate::array::keeps;
use crate::heap::{room_for, word_byte, has_room};

verus! {

/// Largest number of bytes a byte table holds
pub const MAX_BA_BYTES: u64 = 0x3FFF_FFFF_FFFF;

/// A word with one of its bytes replaced
pub open spec fn with_byte(w: u64, k: u64, b: u8) -> u64 {
    (w & !(0xFFu64 << (k * 8))) | ((b as u64) << (k * 8))
}

/// Replacing a byte of a word reads back, and leaves the other bytes
proof fn lemma_with_byte(w: u64, k: u64, b: u8)
    requires
        k < 8,
    ensures
        word_byte(with_byte(w, k, b), k) == b,
        forall|j: u64| j < 8 && j != k ==> #[trigger] word_byte(with_byte(w, k, b), j) == word_byte(w, j),
{
    let bb = b as u64;
    assert(((((w & !(0xFFu64 << (k * 8))) | (bb << (k * 8))) >> (k * 8)) & 0xFF) == bb) by (bit_vector)
        requires
            k < 8,
            bb < 256;
    assert(forall|j: u64| j < 8 && j != k ==>
        #[trigger] ((((w & !(0xFFu64 << (k * 8))) | (bb << (k * 8))) >> (j * 8)) & 0xFF) == ((w >> (j * 8)) & 0xFF))
        by (bit_vector)
        requires
            k < 8,
            bb < 256;
    assert forall|j: u64| j < 8 && j != k implies
        #[trigger] word_byte(with_byte(w, k, b), j) == word_byte(w, j) by {
        assert(((((w & !(0xFFu64 << (k * 8))) | (bb << (k * 8))) >> (j * 8)) & 0xFF) == ((w >> (j * 8)) & 0xFF));
    }
}

/// The number little-endian bytes stand for
pub open spec fn spec_le(s: Seq<u8>) -> nat
    decreases s.len(),
{
    if s.len() == 0 { 0 } else { s[0] as nat + 256 * spec_le(s.drop_first()) }
}

/// The two bytes of a number, least significant first
pub open spec fn le_bytes16(v: u16) -> Seq<u8> {
    seq![(v % 256) as u8, (v / 256) as u8]
}

/// The four bytes of a number, least significant first
pub open spec fn le_bytes32(v: u32) -> Seq<u8> {
    seq![(v % 256) as u8, ((v / 256) % 256) as u8, ((v / 65536) % 256) as u8, (v / 16777216) as u8]
}

/// A byte array: an eight-byte block whose word is the address of its
/// byte table, and whose header holds the number of bytes in use. The
/// capacity is the size of the table.
#[derive(Copy, Clone, Debug, PartialEq, Eq, Structural)]
pub struct ByteArray {
    pub addr: u64,
}

impl ByteArray {
    /// Address of the byte table
    pub open spec fn spec_table(self, heap: Alloc) -> u64 {
        heap.word_at(self.addr as int)
    }

    pub open spec fn spec_len(self, heap: Alloc) -> nat {
        heap.spec_header_of(self.addr as int).spec_fixed_len()
    }

    pub open spec fn spec_capacity(self, heap: Alloc) -> nat {
        heap.spec_header_of(self.spec_table(heap) as int).spec_num_bytes()
    }

    /// The byte at an index of the table, inside the length or past it
    pub open spec fn spec_byte(self, heap: Alloc, i: int) -> u8 {
        word_byte(heap.word_at(self.spec_table(heap) + (i / 8) * 8), (i % 8) as u64)
    }

    /// The bytes in use
    pub open spec fn spec_bytes(self, heap: Alloc) -> Seq<u8> {
        Seq::new(self.spec_len(heap), |i: int| self.spec_byte(heap, i))
    }

    /// Word indices of the block and of its table, headers included
    pub open spec fn footprint(self, heap: Alloc) -> Set<int> {
        let t = self.spec_table(heap) as int;
        Set::new(|i: int| i == (self.addr - 8) / 8 || i == self.addr / 8
            || ((t - 8) / 8 <= i < (t + spec_align_up(self.spec_capacity(heap) as int)) / 8))
    }

    /// Whether this names a well-formed byte array of the heap: its block
    /// and its table lie in the allocated memory, apart from each other,
    /// and the length is within the capacity
    pub open spec fn valid_in(self, heap: Alloc) -> bool {
        let t = self.spec_table(heap) as int;
        let cap = self.spec_capacity(heap) as int;
        &&& heap.wf()
        &&& heap.has_block_of(self.addr as int, Tag::ByteArray)
        &&& self.addr + FIXED_SIZE <= heap.spec_bytes_used()
        &&& heap.has_block_of(t, Tag::Bytes)
        &&& cap <= MAX_BA_BYTES
        &&& t + spec_align_up(cap) <= heap.spec_bytes_used()
        &&& self.spec_len(heap) <= cap
        &&& (t >= self.addr + FIXED_SIZE + HEADER_SIZE || t + spec_align_up(cap) + HEADER_SIZE <= self.addr)
    }

    /// Whether the block and its table both lie past a given allocation
    /// point
    pub open spec fn lies_past(self, heap: Alloc, used: int) -> bool {
        &&& used + HEADER_SIZE <= self.addr
        &&& used + HEADER_SIZE <= self.spec_table(heap)
    }

    /// Bytes a byte array of a given size occupies, counting the headers
    /// of both the block and its table
    pub fn alloc_size(num_bytes: u64) -> (r: u64)
        requires
            num_bytes <= MAX_BA_BYTES,
        ensures
            r == HEADER_SIZE + FIXED_SIZE + HEADER_SIZE + spec_align_up(num_bytes as int),
    {
        HEADER_SIZE + FIXED_SIZE + HEADER_SIZE + align_up(num_bytes)
    }

    /// Number of bytes in use, which lives in the block header
    pub fn num_bytes(self, heap: &Alloc) -> (r: u64)
        requires
            self.valid_in(*heap),
        ensures
            r == self.spec_len(*heap),
    {
        heap.header_of(self.addr).fixed_len()
    }

    fn table(self, heap: &Alloc) -> (r: u64)
        requires
            self.valid_in(*heap),
        ensures
            r == self.spec_table(*heap),
    {
        proof { heap.lemma_wf_bounds(); }
        heap.read_word(self.addr)
    }

    /// Number of bytes the table holds
    pub fn capacity(self, heap: &Alloc) -> (r: u64)
        requires
            self.valid_in(*heap),
        ensures
            r == self.spec_capacity(*heap),
    {
        let t = self.table(heap);
        heap.header_of(t).num_bytes()
    }

    /// The byte at an index of the table
    pub fn get_byte(self, heap: &Alloc, i: u64) -> (r: u8)
        requires
            self.valid_in(*heap),
            i < self.spec_capacity(*heap),
        ensures
            r == self.spec_byte(*heap, i as int),
    {
        proof { heap.lemma_wf_bounds(); }
        let t = self.table(heap);
        assert((i / 8) * 8 <= i);
        assert(i < spec_align_up(self.spec_capacity(*heap) as int));
        let w = heap.read_word(t + (i / 8) * 8);
        ((w >> ((i % 8) * 8)) & 0xFF) as u8
    }

    /// Set the byte at an index of the table
    pub fn set_byte(self, heap: &mut Alloc, i: u64, b: u8)
        requires
            self.valid_in(*old(heap)),
            i < self.spec_capacity(*old(heap)),
        ensures
            self.valid_in(*final(heap)),
            keeps(*old(heap), *final(heap), self.footprint(*old(heap))),
            final(heap).spec_bytes_used() == old(heap).spec_bytes_used(),
            self.spec_table(*final(heap)) == self.spec_table(*old(heap)),
            self.spec_len(*final(heap)) == self.spec_len(*old(heap)),
            self.spec_capacity(*final(heap)) == self.spec_capacity(*old(heap)),
            self.footprint(*final(heap)) == self.footprint(*old(heap)),
            self.spec_byte(*final(heap), i as int) == b,
            forall|j: int| 0 <= j < self.spec_capacity(*old(heap)) && j != i ==>
                #[trigger] self.spec_byte(*final(heap), j) == self.spec_byte(*old(heap), j),
    {
        let ghost h0 = *heap;
        proof { heap.lemma_wf_bounds(); }
        let t = self.table(heap);
        let cap = self.capacity(heap);
        assert((i / 8) * 8 <= i);
        assert(i < spec_align_up(cap as int));
        let a = t + (i / 8) * 8;
        let w = heap.read_word(a);
        let k = i % 8;
        let nw = (w & !(0xFFu64 << (k * 8))) | ((b as u64) << (k * 8));
        proof { lemma_with_byte(w, k, b); }
        heap.write_word(a, nw);
        proof {
            let ai = a as int / 8;
            assert(ai != self.addr as int / 8 && ai != (self.addr - 8) as int / 8 && ai != (t - 8) as int / 8);
            assert(self.spec_table(*heap) == t);
            assert(self.spec_capacity(*heap) == cap);
            assert forall|j: int| 0 <= j < cap && j != i implies
                #[trigger] self.spec_byte(*heap, j) == self.spec_byte(h0, j) by {
                if j / 8 == i / 8 {
                    assert((j % 8) as u64 != k);
                    assert((j % 8) < 8);
                } else {
                    assert((t + (j / 8) * 8) / 8 != ai);
                }
            }
            assert(self.footprint(*heap) =~= self.footprint(h0));
            assert forall|x: int| 0 <= x < h0.spec_bytes_used() / 8 && !self.footprint(h0).contains(x)
                implies #[trigger] heap.words()[x] == h0.words()[x] by {
                assert(x != ai);
            }
        }
    }

    /// The words of a byte array that lies past an allocation point are
    /// all past it
    pub proof fn lemma_footprint_past(self, heap: Alloc, used: int)
        requires
            self.valid_in(heap),
            self.lies_past(heap, used),
            used % 8 == 0,
        ensures
            forall|i: int| #[trigger] self.footprint(heap).contains(i) ==> i >= used / 8,
    {
    }

    /// A byte array is as it was in a heap that kept everything apart from
    /// words outside it
    pub proof fn lemma_kept(self, old: Alloc, new: Alloc, changed: Set<int>)
        requires
            self.valid_in(old),
            keeps(old, new, changed),
            changed.disjoint(self.footprint(old)),
        ensures
            self.valid_in(new),
            self.spec_table(new) == self.spec_table(old),
            self.spec_len(new) == self.spec_len(old),
            self.spec_capacity(new) == self.spec_capacity(old),
            self.footprint(new) == self.footprint(old),
            forall|j: int| 0 <= j < self.spec_capacity(old) ==> #[trigger] self.spec_byte(new, j) == self.spec_byte(old, j),
            self.spec_bytes(new) == self.spec_bytes(old),
    {
        let t = self.spec_table(old) as int;
        old.lemma_wf_bounds();
        assert(self.footprint(old).contains(self.addr as int / 8));
        assert(self.footprint(old).contains((self.addr - 8) as int / 8));
        assert(self.footprint(old).contains((t - 8) / 8));
        assert(new.words()[self.addr as int / 8] == old.words()[self.addr as int / 8]);
        assert(new.words()[(self.addr - 8) as int / 8] == old.words()[(self.addr - 8) as int / 8]);
        assert(new.words()[(t - 8) / 8] == old.words()[(t - 8) / 8]);
        assert forall|j: int| 0 <= j < self.spec_capacity(old) implies #[trigger] self.spec_byte(new, j) == self.spec_byte(old, j) by {
            assert((j / 8) * 8 <= j);
            assert(j < spec_align_up(self.spec_capacity(old) as int));
            assert(self.footprint(old).contains((t + (j / 8) * 8) / 8));
            assert(new.words()[(t + (j / 8) * 8) / 8] == old.words()[(t + (j / 8) * 8) / 8]);
        }
        assert(self.footprint(new) =~= self.footprint(old));
        assert(self.spec_bytes(new) =~= self.spec_bytes(old));
    }

    /// Allocate a byte array of a given size, its bytes not yet set.
    /// Nothing is allocated if it is too large or the heap has no room
    pub fn with_size(num_bytes: u64, heap: &mut Alloc) -> (r: Option<ByteArray>)
        requires
            old(heap).wf(),
        ensures
            final(heap).wf(),
            r is None <==> (num_bytes > MAX_BA_BYTES
                || !room_for(*old(heap), FIXED_SIZE + HEADER_SIZE + spec_align_up(num_bytes as int))),
            r is None ==> *final(heap) == *old(heap),
            r matches Some(a) ==> {
                &&& a.valid_in(*final(heap))
                &&& a.spec_len(*final(heap)) == num_bytes
                &&& a.spec_capacity(*final(heap)) == num_bytes
                &&& keeps(*old(heap), *final(heap), Set::empty())
                &&& a.lies_past(*final(heap), old(heap).spec_bytes_used() as int)
            },
    {
        if num_bytes > MAX_BA_BYTES {
            return None;
        }
        if !has_room(heap, FIXED_SIZE + HEADER_SIZE + align_up(num_bytes)) {
            return None;
        }
        let ghost h0 = *heap;
        proof { heap.lemma_wf_bounds(); }
        let p = heap.alloc_fixed(Tag::ByteArray, num_bytes);
        let ghost h1 = *heap;
        proof { heap.lemma_wf_bounds(); }
        let t = heap.alloc_table(num_bytes, 1, Tag::Bytes);
        let ghost h2 = *heap;
        proof { heap.lemma_wf_bounds(); }
        heap.write_word(p, t);
        let a = ByteArray { addr: p };
        proof {
            assert(heap.word_at(p - 8) == h1.word_at(p - 8));
            assert(heap.word_at(t - 8) == h2.word_at(t - 8));
            assert(a.spec_table(*heap) == t);
        }
        Some(a)
    }

    /// Allocate a byte array holding given bytes
    pub fn from_bytes(bytes: &[u8], heap: &mut Alloc) -> (r: Option<ByteArray>)
        requires
            old(heap).wf(),
        ensures
            final(heap).wf(),
            r is None <==> (bytes@.len() > MAX_BA_BYTES
                || !room_for(*old(heap), FIXED_SIZE + HEADER_SIZE + spec_align_up(bytes@.len() as int))),
            r is None ==> *final(heap) == *old(heap),
            r matches Some(a) ==> {
                &&& a.valid_in(*final(heap))
                &&& a.spec_bytes(*final(heap)) == bytes@
                &&& a.spec_capacity(*final(heap)) == bytes@.len()
                &&& keeps(*old(heap), *final(heap), Set::empty())
                &&& a.lies_past(*final(heap), old(heap).spec_bytes_used() as int)
            },
    {
        let n = bytes.len() as u64;
        let a = match ByteArray::with_size(n, heap) {
            Some(a) => a,
            None => { return None; }
        };
        let ghost h0 = *old(heap);
        let mut i: u64 = 0;
        while i < n
            invariant
                n == bytes@.len(),
                i <= n,
                a.valid_in(*heap),
                a.spec_len(*heap) == n,
                a.spec_capacity(*heap) == n,
                keeps(h0, *heap, Set::empty()),
                a.lies_past(*heap, h0.spec_bytes_used() as int),
                h0.wf(),
                forall|j: int| 0 <= j < i ==> #[trigger] a.spec_byte(*heap, j) == bytes@[j],
            decreases n - i,
        {
            let ghost hp = *heap;
            proof {
                h0.lemma_wf_bounds();
                a.lemma_footprint_past(hp, h0.spec_bytes_used() as int);
            }
            a.set_byte(heap, i, bytes[i as usize]);
            proof {
                assert forall|x: int| 0 <= x < h0.spec_bytes_used() / 8
                    implies #[trigger] heap.words()[x] == h0.words()[x] by {
                    assert(!a.footprint(hp).contains(x));
                    assert(heap.words()[x] == hp.words()[x]);
                }
            }
            i = i + 1;
        }
        proof { assert(a.spec_bytes(*heap) =~= bytes@); }
        Some(a)
    }

    /// The byte array a block address names, if it is a well-formed one
    pub fn at(heap: &Alloc, addr: u64) -> (r: Option<ByteArray>)
        requires
            heap.wf(),
        ensures
            r is Some <==> (ByteArray { addr }).valid_in(*heap),
            r matches Some(a) ==> a.addr == addr,
    {
        proof { heap.lemma_wf_bounds(); }
        let a = ByteArray { addr };
        if addr % 8 != 0 || !heap.contains(addr) {
            return None;
        }
        let h = heap.header_of(addr);
        let w = h.to_word();
        if w % 2 == 0 {
            return None;
        }
        let code = ((w / 2) % 128) as u8;
        if code < 1 || code > crate::allocator::LAST_TAG || h.tag() != Tag::ByteArray {
            return None;
        }
        if heap.bytes_used() - addr < FIXED_SIZE {
            return None;
        }
        let t = heap.read_word(addr);
        if t % 8 != 0 || !heap.contains(t) {
            return None;
        }
        let th = heap.header_of(t);
        let tw = th.to_word();
        if tw % 2 == 0 {
            return None;
        }
        let tcode = ((tw / 2) % 128) as u8;
        if tcode < 1 || tcode > crate::allocator::LAST_TAG || th.tag() != Tag::Bytes {
            return None;
        }
        let cap = th.num_bytes();
        if cap > MAX_BA_BYTES {
            return None;
        }
        if heap.bytes_used() - t < align_up(cap) {
            return None;
        }
        if h.fixed_len() > cap {
            return None;
        }
        if !(t >= addr + FIXED_SIZE + HEADER_SIZE || t + align_up(cap) + HEADER_SIZE <= addr) {
            return None;
        }
        Some(a)
    }

    /// A new byte array holding the bytes in use of this one
    pub fn clone_in(self, heap: &mut Alloc) -> (r: Option<ByteArray>)
        requires
            self.valid_in(*old(heap)),
        ensures
            final(heap).wf(),
            r is None <==> !room_for(*old(heap), FIXED_SIZE + HEADER_SIZE + spec_align_up(self.spec_len(*old(heap)) as int)),
            r is None ==> *final(heap) == *old(heap),
            r matches Some(c) ==> {
                &&& c.valid_in(*final(heap))
                &&& c.spec_bytes(*final(heap)) == self.spec_bytes(*old(heap))
                &&& keeps(*old(heap), *final(heap), Set::empty())
                &&& c.lies_past(*final(heap), old(heap).spec_bytes_used() as int)
                &&& self.valid_in(*final(heap))
                &&& self.spec_bytes(*final(heap)) == self.spec_bytes(*old(heap))
            },
    {
        let n = self.num_bytes(heap);
        let ghost h0 = *old(heap);
        let c = match ByteArray::with_size(n, heap) {
            Some(c) => c,
            None => { return None; }
        };
        proof { self.lemma_kept(h0, *heap, Set::empty()); }
        let mut i: u64 = 0;
        while i < n
            invariant
                n == self.spec_len(h0),
                i <= n,
                h0.wf(),
                self.valid_in(h0),
                c.valid_in(*heap),
                c.spec_len(*heap) == n,
                c.spec_capacity(*heap) == n,
                keeps(h0, *heap, Set::empty()),
                c.lies_past(*heap, h0.spec_bytes_used() as int),
                self.valid_in(*heap),
                self.spec_bytes(*heap) == self.spec_bytes(h0),
                self.spec_table(*heap) == self.spec_table(h0),
                self.spec_capacity(*heap) == self.spec_capacity(h0),
                self.footprint(*heap) == self.footprint(h0),
                forall|j: int| 0 <= j < i ==> #[trigger] c.spec_byte(*heap, j) == self.spec_bytes(h0)[j],
            decreases n - i,
        {
            let ghost hp = *heap;
            let b = self.get_byte(heap, i);
            proof {
                h0.lemma_wf_bounds();
                c.lemma_footprint_past(hp, h0.spec_bytes_used() as int);
                assert(b == self.spec_bytes(hp)[i as int]);
            }
            c.set_byte(heap, i, b);
            proof {
                assert forall|x: int| 0 <= x < h0.spec_bytes_used() / 8
                    implies #[trigger] heap.words()[x] == h0.words()[x] by {
                    assert(!c.footprint(hp).contains(x));
                    assert(heap.words()[x] == hp.words()[x]);
                }
                self.lemma_kept(h0, *heap, Set::empty());
            }
            i = i + 1;
        }
        proof { assert(c.spec_bytes(*heap) =~= self.spec_bytes(h0)); }
        Some(c)
    }

    /// The unsigned number held little-endian in the four bytes from a
    /// byte index
    pub fn read_u32_at(self, heap: &Alloc, idx: u64) -> (r: u32)
        requires
            self.valid_in(*heap),
            idx + 4 <= self.spec_len(*heap),
        ensures
            r as nat == spec_le(self.spec_bytes(*heap).subrange(idx as int, idx + 4)),
    {
        let b0 = self.get_byte(heap, idx) as u32;
        let b1 = self.get_byte(heap, idx + 1) as u32;
        let b2 = self.get_byte(heap, idx + 2) as u32;
        let b3 = self.get_byte(heap, idx + 3) as u32;
        proof {
            let s = self.spec_bytes(*heap).subrange(idx as int, idx + 4);
            assert(s.drop_first().drop_first().drop_first().drop_first() =~= Seq::<u8>::empty());
            reveal_with_fuel(spec_le, 5);
            assert(s[0] == b0 && s[1] == b1 && s[2] == b2 && s[3] == b3);
            assert(s.drop_first()[0] == s[1]);
            assert(s.drop_first().drop_first()[0] == s[2]);
            assert(s.drop_first().drop_first().drop_first()[0] == s[3]);
        }
        b0 + 256 * b1 + 65536 * b2 + 16777216 * b3
    }

    /// The unsigned number held little-endian in the two bytes from a
    /// byte index
    pub fn read_u16_at(self, heap: &Alloc, idx: u64) -> (r: u32)
        requires
            self.valid_in(*heap),
            idx + 2 <= self.spec_len(*heap),
        ensures
            r as nat == spec_le(self.spec_bytes(*heap).subrange(idx as int, idx + 2)),
    {
        let b0 = self.get_byte(heap, idx) as u32;
        let b1 = self.get_byte(heap, idx + 1) as u32;
        proof {
            let s = self.spec_bytes(*heap).subrange(idx as int, idx + 2);
            assert(s.drop_first().drop_first() =~= Seq::<u8>::empty());
            reveal_with_fuel(spec_le, 3);
            assert(s.drop_first()[0] == s[1]);
        }
        b0 + 256 * b1
    }

    /// Write bytes from a byte index, within the length
    pub fn write_bytes_at(self, heap: &mut Alloc, idx: u64, bytes: &[u8])
        requires
            self.valid_in(*old(heap)),
            idx + bytes@.len() <= self.spec_len(*old(heap)),
        ensures
            self.valid_in(*final(heap)),
            keeps(*old(heap), *final(heap), self.footprint(*old(heap))),
            final(heap).spec_bytes_used() == old(heap).spec_bytes_used(),
            self.spec_table(*final(heap)) == self.spec_table(*old(heap)),
            self.spec_capacity(*final(heap)) == self.spec_capacity(*old(heap)),
            self.footprint(*final(heap)) == self.footprint(*old(heap)),
            self.spec_len(*final(heap)) == self.spec_len(*old(heap)),
            forall|j: int| 0 <= j < self.spec_len(*old(heap)) ==> #[trigger] self.spec_bytes(*final(heap))[j]
                == if idx <= j < idx + bytes@.len() { bytes@[j - idx] } else { self.spec_bytes(*old(heap))[j] },
    {
        let ghost h0 = *heap;
        let n = bytes.len();
        let mut k: usize = 0;
        while k < n
            invariant
                n == bytes@.len(),
                k <= n,
                idx + n <= self.spec_len(h0),
                self.valid_in(h0),
                self.valid_in(*heap),
                keeps(h0, *heap, self.footprint(h0)),
                heap.spec_bytes_used() == h0.spec_bytes_used(),
                self.spec_table(*heap) == self.spec_table(h0),
                self.spec_capacity(*heap) == self.spec_capacity(h0),
                self.footprint(*heap) == self.footprint(h0),
                self.spec_len(*heap) == self.spec_len(h0),
                forall|j: int| 0 <= j < self.spec_len(h0) ==> #[trigger] self.spec_bytes(*heap)[j]
                    == if idx <= j < idx + k { bytes@[j - idx] } else { self.spec_bytes(h0)[j] },
            decreases n - k,
        {
            let ghost hp = *heap;
            self.set_byte(heap, idx + k as u64, bytes[k]);
            proof {
                assert forall|x: int| 0 <= x < h0.spec_bytes_used() / 8 && !self.footprint(h0).contains(x)
                    implies #[trigger] heap.words()[x] == h0.words()[x] by {
                    assert(heap.words()[x] == hp.words()[x]);
                }
                assert forall|j: int| 0 <= j < self.spec_len(h0) implies #[trigger] self.spec_bytes(*heap)[j]
                    == if idx <= j < idx + k + 1 { bytes@[j - idx] } else { self.spec_bytes(h0)[j] } by {
                    assert(self.spec_bytes(*heap)[j] == self.spec_byte(*heap, j));
                    assert(self.spec_bytes(hp)[j] == self.spec_byte(hp, j));
                }
            }
            k = k + 1;
        }
    }

    /// Set the number of bytes in use, within the capacity
    pub fn set_len(self, heap: &mut Alloc, len: u64)
        requires
            self.valid_in(*old(heap)),
            len <= self.spec_capacity(*old(heap)),
        ensures
            self.valid_in(*final(heap)),
            keeps(*old(heap), *final(heap), set![(self.addr - 8) as int / 8]),
            final(heap).spec_bytes_used() == old(heap).spec_bytes_used(),
            self.spec_table(*final(heap)) == self.spec_table(*old(heap)),
            self.spec_len(*final(heap)) == len,
            self.spec_capacity(*final(heap)) == self.spec_capacity(*old(heap)),
            forall|j: int| 0 <= j < self.spec_capacity(*old(heap)) ==>
                #[trigger] self.spec_byte(*final(heap), j) == self.spec_byte(*old(heap), j),
    {
        proof { heap.lemma_wf_bounds(); }
        heap.set_fixed_len(self.addr, len);
        proof {
            assert forall|j: int| 0 <= j < self.spec_capacity(*old(heap)) implies
                #[trigger] self.spec_byte(*heap, j) == self.spec_byte(*old(heap), j) by {
                let t = self.spec_table(*old(heap)) as int;
                assert((j / 8) * 8 <= j);
                assert(j < spec_align_up(self.spec_capacity(*old(heap)) as int));
                assert((t + (j / 8) * 8) / 8 != (self.addr - 8) as int / 8);
            }
        }
    }

    /// Move the bytes in use to a new table of a given capacity. Nothing
    /// changes if the heap has no room for the table.
    #[verifier::rlimit(60)]
    pub fn grow_table(self, heap: &mut Alloc, new_capacity: u64) -> (r: bool)
        requires
            self.valid_in(*old(heap)),
            self.spec_len(*old(heap)) <= new_capacity <= MAX_BA_BYTES,
        ensures
            r == room_for(*old(heap), spec_align_up(new_capacity as int)),
            !r ==> *final(heap) == *old(heap),
            r ==> {
                &&& self.valid_in(*final(heap))
                &&& keeps(*old(heap), *final(heap), set![self.addr as int / 8])
                &&& self.spec_len(*final(heap)) == self.spec_len(*old(heap))
                &&& self.spec_capacity(*final(heap)) == new_capacity
                &&& self.spec_bytes(*final(heap)) == self.spec_bytes(*old(heap))
            },
    {
        if !has_room(heap, align_up(new_capacity)) {
            return false;
        }
        let ghost h0 = *heap;
        proof { heap.lemma_wf_bounds(); }
        let len = self.num_bytes(heap);
        let old_t = self.table(heap);
        let words = align_up(len) / 8;
        let t = heap.alloc_table(new_capacity, 1, Tag::Bytes);
        let ghost h1 = *heap;
        proof { heap.lemma_wf_bounds(); }
        let mut i: u64 = 0;
        while i < words
            invariant
                heap.wf(),
                i <= words,
                words * 8 == spec_align_up(len as int),
                len == self.spec_len(h0),
                len <= new_capacity,
                len <= self.spec_capacity(h0),
                old_t == self.spec_table(h0),
                self.valid_in(h0),
                h0.spec_bytes_used() + HEADER_SIZE == t,
                t % 8 == 0,
                old_t % 8 == 0,
                old_t + spec_align_up(self.spec_capacity(h0) as int) <= h0.spec_bytes_used(),
                t + spec_align_up(new_capacity as int) == heap.spec_bytes_used(),
                heap.spec_bytes_used() == h1.spec_bytes_used(),
                heap.spec_bytes_used() <= heap.words().len() * 8,
                heap.spec_bytes_used() <= crate::allocator::MAX_RESERVE,
                heap.words().len() == h1.words().len(),
                heap.spec_reserve_size() == h1.spec_reserve_size(),
                heap.spec_page_size() == h1.spec_page_size(),
                heap.spec_growable() == h1.spec_growable(),
                forall|k: int| 0 <= k < heap.words().len() && !(t / 8 <= k < t / 8 + i)
                    ==> #[trigger] heap.words()[k] == h1.words()[k],
                forall|j: int| 0 <= j < i ==> #[trigger] heap.word_at(t + 8 * j) == h0.word_at(old_t + 8 * j),
                forall|k: int| 0 <= k < h0.spec_bytes_used() / 8 ==> #[trigger] h1.words()[k] == h0.words()[k],
            decreases words - i,
        {
            proof {
                assert(spec_align_up(len as int) <= spec_align_up(self.spec_capacity(h0) as int));
                assert(spec_align_up(len as int) <= spec_align_up(new_capacity as int));
            }
            let v = heap.read_word(old_t + 8 * i);
            proof {
                assert((old_t + 8 * i) / 8 < h0.spec_bytes_used() / 8);
                assert(v == h0.word_at(old_t + 8 * i));
            }
            let ghost before = *heap;
            heap.write_word(t + 8 * i, v);
            proof {
                assert forall|j: int| 0 <= j < i + 1 implies #[trigger] heap.word_at(t + 8 * j) == h0.word_at(old_t + 8 * j) by {
                    if j < i {
                        assert((t + 8 * j) / 8 != (t + 8 * i) / 8);
                        assert(heap.word_at(t + 8 * j) == before.word_at(t + 8 * j));
                    }
                }
            }
            i = i + 1;
        }
        let ghost h3 = *heap;
        heap.write_word(self.addr, t);
        proof {
            assert(heap.word_at(self.addr as int) == t);
            assert(heap.word_at(self.addr - 8) == h0.word_at(self.addr - 8));
            assert(heap.word_at(t - 8) == h1.word_at(t - 8));
            assert forall|j: int| 0 <= j < len implies
                #[trigger] self.spec_byte(*heap, j) == self.spec_byte(h0, j) by {
                assert((j / 8) * 8 <= j);
                assert(j / 8 < words);
                assert((t + (j / 8) * 8) / 8 != self.addr / 8);
                assert(h3.word_at(t + 8 * (j / 8)) == h0.word_at(old_t + 8 * (j / 8)));
                assert(heap.word_at(t + 8 * (j / 8)) == h3.word_at(t + 8 * (j / 8)));
            }
            assert(self.spec_bytes(*heap) =~= self.spec_bytes(h0));
        }
        true
    }
}

} // verus!
