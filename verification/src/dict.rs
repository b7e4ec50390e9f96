//! Dictionaries: hash tables from string keys to values, resolving
//! collisions by linear probing.
use vstd::prelude::*;
use crate::allocator::{Alloc, Tag, FIXED_SIZE, HEADER_SIZE, spec_align_up, align_up};
use crate::array::keeps;
use crate::heap::{room_for, spec_str_bytes, has_room, str_bytes, check_value};
use crate::value::Value;

verus! {

/// What a slot of a table holds: nothing, or the bytes of a key and the
/// value stored under it
pub type SlotView = Option<(Seq<u8>, Value)>;

/// Modulus of the key hash, a prime below 2^32
pub const HASH_MODULUS: u64 = 0xFFFF_FFFB;

/// Hash of a key: the bytes read as the digits of a number in base 31,
/// modulo a prime
pub open spec fn spec_key_hash(key: Seq<u8>) -> nat
    decreases key.len(),
{
    if key.len() == 0 {
        0
    } else {
        (spec_key_hash(key.drop_last()) * 31 + key.last() as nat) % (HASH_MODULUS as nat)
    }
}

/// Hash of a key
pub fn key_hash(key: &[u8]) -> (r: u64)
    ensures
        r == spec_key_hash(key@),
{
    let mut h: u64 = 0;
    let mut i: usize = 0;
    while i < key.len()
        invariant
            i <= key@.len(),
            h == spec_key_hash(key@.take(i as int)),
            h < HASH_MODULUS,
        decreases key@.len() - i,
    {
        assert(key@.take(i as int + 1).drop_last() =~= key@.take(i as int));
        h = (h * 31 + key[i] as u64) % HASH_MODULUS;
        i = i + 1;
    }
    assert(key@.take(i as int) =~= key@);
    h
}

/// Slot where the probe for a key starts in a table of a given size
pub open spec fn home(key: Seq<u8>, n: int) -> int {
    (spec_key_hash(key) as int) % n
}

/// Slot `m` steps after slot `a`, going round a table of `n` slots
pub open spec fn wrap(a: int, m: int, n: int) -> int {
    if a + m < n { a + m } else { a + m - n }
}

/// Steps from slot `a` forward to slot `j`, going round a table of `n`
/// slots
pub open spec fn dist(a: int, j: int, n: int) -> int {
    if a <= j { j - a } else { j + n - a }
}

pub open spec fn slot_key(x: SlotView) -> Seq<u8> {
    match x {
        Some((k, _)) => k,
        None => Seq::empty(),
    }
}

pub open spec fn slot_val(x: SlotView) -> Value {
    match x {
        Some((_, v)) => v,
        None => Value(0),
    }
}

pub open spec fn key_of(s: Seq<SlotView>, i: int) -> Seq<u8> {
    slot_key(s[i])
}

/// No key is held by two slots
pub open spec fn keys_unique(s: Seq<SlotView>) -> bool {
    forall|i: int, j: int| 0 <= i < s.len() && 0 <= j < s.len()
        && (#[trigger] s[i]) is Some && (#[trigger] s[j]) is Some
        && slot_key(s[i]) == slot_key(s[j]) ==> i == j
}

/// Every key is reached from its home slot over occupied slots only, so
/// that a probe stops at an empty slot only when the key is absent
pub open spec fn runs_unbroken(s: Seq<SlotView>) -> bool {
    forall|j: int, m: int| 0 <= j < s.len() && s[j] is Some
        && 0 <= m < dist(home(key_of(s, j), s.len() as int), j, s.len() as int)
        ==> (#[trigger] s[wrap(home(key_of(s, j), s.len() as int), m, s.len() as int)]) is Some
}

/// Number of occupied slots among the first `n`
pub open spec fn count_upto(s: Seq<SlotView>, n: int) -> nat
    decreases n,
{
    if n <= 0 {
        0
    } else {
        count_upto(s, n - 1) + if s[n - 1] is Some { 1nat } else { 0nat }
    }
}

/// The entries of the first `n` slots
pub open spec fn entries_upto(s: Seq<SlotView>, n: int) -> Map<Seq<u8>, Value>
    decreases n,
{
    if n <= 0 {
        Map::empty()
    } else if s[n - 1] is Some {
        entries_upto(s, n - 1).insert(slot_key(s[n - 1]), slot_val(s[n - 1]))
    } else {
        entries_upto(s, n - 1)
    }
}

/// The entries a table holds
pub open spec fn entries_of(s: Seq<SlotView>) -> Map<Seq<u8>, Value> {
    entries_upto(s, s.len() as int)
}

/// Number of occupied slots
pub open spec fn count_of(s: Seq<SlotView>) -> nat {
    count_upto(s, s.len() as int)
}

/// A table a probe can work on: it has slots, its keys are unique and
/// reached from their home slots, and at least one slot is free
pub open spec fn table_ok(s: Seq<SlotView>) -> bool {
    &&& s.len() > 0
    &&& keys_unique(s)
    &&& runs_unbroken(s)
    &&& count_of(s) < s.len()
}

/// What a probe for a key found after `steps` steps from the key's home
/// slot: every slot passed holds another key, and it stopped at an empty
/// slot or went all the way round
pub open spec fn probe_passed(s: Seq<SlotView>, k: Seq<u8>, steps: int) -> bool {
    let n = s.len() as int;
    let st = home(k, n);
    &&& 0 <= steps <= n
    &&& forall|t: int| 0 <= t < steps ==> {
        let x = #[trigger] wrap(st, t, n);
        s[x] is Some && key_of(s, x) != k
    }
}

pub proof fn lemma_home_bounds(k: Seq<u8>, n: int)
    requires
        n > 0,
    ensures
        0 <= home(k, n) < n,
{
}

/// Going round the table: each slot is a number of steps from any
/// other, and that many steps lead back to it
pub proof fn lemma_wrap_dist(a: int, n: int)
    requires
        0 <= a < n,
    ensures
        forall|x: int| 0 <= x < n ==> 0 <= #[trigger] dist(a, x, n) < n && wrap(a, dist(a, x, n), n) == x,
        forall|m: int| 0 <= m < n ==> 0 <= #[trigger] wrap(a, m, n) < n && dist(a, wrap(a, m, n), n) == m,
{
}

/// The entries of a table with unique keys hold each occupied slot's key
/// with the slot's value, and nothing else
pub proof fn lemma_entries(s: Seq<SlotView>, n: int)
    requires
        0 <= n <= s.len(),
        keys_unique(s),
    ensures
        forall|j: int| 0 <= j < n && (#[trigger] s[j]) is Some ==> {
            &&& entries_upto(s, n).contains_key(key_of(s, j))
            &&& entries_upto(s, n)[key_of(s, j)] == slot_val(s[j])
        },
        forall|k: Seq<u8>| #[trigger] entries_upto(s, n).contains_key(k) ==>
            exists|j: int| 0 <= j < n && s[j] is Some && key_of(s, j) == k,
    decreases n,
{
    if n > 0 {
        lemma_entries(s, n - 1);
        assert forall|j: int| 0 <= j < n && (#[trigger] s[j]) is Some implies {
            &&& entries_upto(s, n).contains_key(key_of(s, j))
            &&& entries_upto(s, n)[key_of(s, j)] == slot_val(s[j])
        } by {
            if j < n - 1 && s[n - 1] is Some && key_of(s, j) == key_of(s, n - 1) {
                assert(s[j] is Some && s[n - 1] is Some);
            }
        }
        assert forall|k: Seq<u8>| #[trigger] entries_upto(s, n).contains_key(k) implies
            exists|j: int| 0 <= j < n && s[j] is Some && key_of(s, j) == k by {
            if s[n - 1] is Some && k == key_of(s, n - 1) {
                assert(0 <= n - 1 < n && s[n - 1] is Some && key_of(s, n - 1) == k);
            } else {
                assert(entries_upto(s, n - 1).contains_key(k));
            }
        }
    }
}

/// A probe that stops at an empty slot, or goes all the way round,
/// passing only other keys, shows the key is absent
pub proof fn lemma_probe_absent(s: Seq<SlotView>, k: Seq<u8>, steps: int)
    requires
        s.len() > 0,
        runs_unbroken(s),
        probe_passed(s, k, steps),
        steps == s.len() || s[wrap(home(k, s.len() as int), steps, s.len() as int)] is None,
    ensures
        forall|j: int| 0 <= j < s.len() && (#[trigger] s[j]) is Some ==> key_of(s, j) != k,
{
    let n = s.len() as int;
    let st = home(k, n);
    lemma_home_bounds(k, n);
    lemma_wrap_dist(st, n);
    assert forall|j: int| 0 <= j < n && (#[trigger] s[j]) is Some implies key_of(s, j) != k by {
        if key_of(s, j) == k {
            let d = dist(st, j, n);
            assert(wrap(st, d, n) == j);
            if d < steps {
                assert(s[wrap(st, d, n)] is Some && key_of(s, wrap(st, d, n)) != k);
            } else if d == steps {
                assert(steps < n);
            } else {
                assert(steps < n);
                assert(s[wrap(home(key_of(s, j), n), steps, n)] is Some);
            }
        }
    }
}

/// Counting occupied slots: never more than the slots counted, and all
/// of them when every slot is occupied
pub proof fn lemma_count_bounds(s: Seq<SlotView>, n: int)
    requires
        0 <= n <= s.len(),
    ensures
        count_upto(s, n) <= n,
        (forall|j: int| 0 <= j < n ==> (#[trigger] s[j]) is Some) ==> count_upto(s, n) == n,
    decreases n,
{
    if n > 0 {
        lemma_count_bounds(s, n - 1);
    }
}

/// A table with unique keys holds as many entries as it has occupied
/// slots
pub proof fn lemma_entries_size(s: Seq<SlotView>, n: int)
    requires
        0 <= n <= s.len(),
        keys_unique(s),
    ensures
        entries_upto(s, n).dom().finite(),
        entries_upto(s, n).dom().len() == count_upto(s, n),
    decreases n,
{
    if n > 0 {
        lemma_entries_size(s, n - 1);
        lemma_entries(s, n - 1);
        if s[n - 1] is Some {
            let k = key_of(s, n - 1);
            if entries_upto(s, n - 1).contains_key(k) {
                let j = choose|j: int| 0 <= j < n - 1 && s[j] is Some && key_of(s, j) == k;
                assert(s[j] is Some && s[n - 1] is Some);
            }
            assert(entries_upto(s, n).dom() =~= entries_upto(s, n - 1).dom().insert(k));
        }
    } else {
        assert(entries_upto(s, n).dom() =~= Set::<Seq<u8>>::empty());
    }
}

/// A table in which the probe for each key reaches the key's own slot,
/// over other keys only, has unique keys reached from their home slots
pub proof fn lemma_reached(s: Seq<SlotView>)
    requires
        s.len() > 0,
        forall|j: int| 0 <= j < s.len() && (#[trigger] s[j]) is Some ==>
            probe_passed(s, key_of(s, j), dist(home(key_of(s, j), s.len() as int), j, s.len() as int)),
    ensures
        keys_unique(s),
        runs_unbroken(s),
{
    let n = s.len() as int;
    assert forall|i: int, j: int| 0 <= i < n && 0 <= j < n
        && (#[trigger] s[i]) is Some && (#[trigger] s[j]) is Some
        && slot_key(s[i]) == slot_key(s[j]) implies i == j by {
        let k = key_of(s, i);
        let h = home(k, n);
        lemma_home_bounds(k, n);
        lemma_wrap_dist(h, n);
        let di = dist(h, i, n);
        let dj = dist(h, j, n);
        assert(probe_passed(s, k, di));
        assert(probe_passed(s, k, dj));
        if di < dj {
            assert(wrap(h, di, n) == i);
        } else if dj < di {
            assert(wrap(h, dj, n) == j);
        } else {
            assert(wrap(h, di, n) == i && wrap(h, dj, n) == j);
        }
    }
    assert forall|j: int, m: int| 0 <= j < n && s[j] is Some
        && 0 <= m < dist(home(key_of(s, j), n), j, n) implies
        (#[trigger] s[wrap(home(key_of(s, j), n), m, n)]) is Some by {
        assert(probe_passed(s, key_of(s, j), dist(home(key_of(s, j), n), j, n)));
    }
}

/// Counting fewer slots counts no more
pub proof fn lemma_count_monotonic(s: Seq<SlotView>, a: int, b: int)
    requires
        0 <= a <= b <= s.len(),
    ensures
        count_upto(s, a) <= count_upto(s, b),
    decreases b - a,
{
    if a < b {
        lemma_count_monotonic(s, a, b - 1);
    }
}

/// A table of empty slots holds nothing
pub proof fn lemma_all_empty(s: Seq<SlotView>, n: int)
    requires
        0 <= n <= s.len(),
        forall|j: int| 0 <= j < n ==> (#[trigger] s[j]) is None,
    ensures
        count_upto(s, n) == 0,
        entries_upto(s, n) == Map::<Seq<u8>, Value>::empty(),
    decreases n,
{
    if n > 0 {
        lemma_all_empty(s, n - 1);
    }
}

/// Counting after one slot changes
pub proof fn lemma_count_update(s: Seq<SlotView>, i: int, x: SlotView, n: int)
    requires
        0 <= i < s.len(),
        0 <= n <= s.len(),
    ensures
        count_upto(s.update(i, x), n) + (if i < n && s[i] is Some { 1int } else { 0int })
            == count_upto(s, n) + (if i < n && x is Some { 1int } else { 0int }),
    decreases n,
{
    if n > 0 {
        lemma_count_update(s, i, x, n - 1);
    }
}

/// A probe that passed only other keys and stopped at an empty slot
/// finds every slot of the table occupied when it went all the way round
pub proof fn lemma_probe_full(s: Seq<SlotView>, k: Seq<u8>)
    requires
        s.len() > 0,
        probe_passed(s, k, s.len() as int),
    ensures
        count_of(s) == s.len(),
{
    let n = s.len() as int;
    let st = home(k, n);
    lemma_home_bounds(k, n);
    lemma_wrap_dist(st, n);
    assert forall|j: int| 0 <= j < n implies (#[trigger] s[j]) is Some by {
        assert(wrap(st, dist(st, j, n), n) == j);
    }
    lemma_count_bounds(s, n);
}

/// Storing a key's value in the slot its probe stopped at: the slot that
/// holds the key, or the empty slot that ends the run from the key's
/// home slot
pub proof fn lemma_store(s: Seq<SlotView>, i: int, k: Seq<u8>, v: Value)
    requires
        table_ok(s),
        0 <= i < s.len(),
        (s[i] is Some && key_of(s, i) == k) || {
            &&& s[i] is None
            &&& probe_passed(s, k, dist(home(k, s.len() as int), i, s.len() as int))
            &&& count_of(s) + 1 < s.len()
        },
    ensures
        table_ok(s.update(i, Some((k, v)))),
        entries_of(s.update(i, Some((k, v)))) == entries_of(s).insert(k, v),
        count_of(s.update(i, Some((k, v)))) == count_of(s) + (if s[i] is None { 1int } else { 0int }),
        s[i] is None ==> !entries_of(s).contains_key(k),
        s[i] is Some ==> entries_of(s).contains_key(k),
{
    let n = s.len() as int;
    let s2 = s.update(i, Some((k, v)));
    let st = home(k, n);
    lemma_home_bounds(k, n);
    lemma_wrap_dist(st, n);
    lemma_count_update(s, i, Some((k, v)), n);
    if s[i] is None {
        assert(wrap(st, dist(st, i, n), n) == i);
        lemma_probe_absent(s, k, dist(st, i, n));
    }
    // The keys stay unique
    assert forall|a: int, b: int| 0 <= a < n && 0 <= b < n
        && (#[trigger] s2[a]) is Some && (#[trigger] s2[b]) is Some
        && slot_key(s2[a]) == slot_key(s2[b]) implies a == b by {
        if a != i && b != i {
            assert(s[a] is Some && s[b] is Some);
        } else if a == i && b != i {
            assert(s[b] is Some);
        } else if a != i && b == i {
            assert(s[a] is Some);
        }
    }
    // The runs stay unbroken
    assert forall|j: int, m: int| 0 <= j < n && s2[j] is Some
        && 0 <= m < dist(home(key_of(s2, j), n), j, n) implies
        (#[trigger] s2[wrap(home(key_of(s2, j), n), m, n)]) is Some by {
        let hj = home(key_of(s2, j), n);
        lemma_home_bounds(key_of(s2, j), n);
        lemma_wrap_dist(hj, n);
        let x = wrap(hj, m, n);
        if x != i {
            if j == i {
                if s[i] is None {
                    assert(s[wrap(st, m, n)] is Some);
                } else {
                    assert(s[wrap(home(key_of(s, i), n), m, n)] is Some);
                }
            } else {
                assert(s[j] is Some);
                assert(s[wrap(home(key_of(s, j), n), m, n)] is Some);
            }
        }
    }
    // The entries gain the key, with its new value
    lemma_entries(s, n);
    lemma_entries(s2, n);
    assert forall|q: Seq<u8>| #[trigger] entries_of(s2).contains_key(q)
        <==> entries_of(s).insert(k, v).contains_key(q) by {
        if entries_of(s2).contains_key(q) {
            let j = choose|j: int| 0 <= j < n && s2[j] is Some && key_of(s2, j) == q;
            if j != i {
                assert(s[j] is Some);
            }
        }
        if entries_of(s).contains_key(q) {
            let j = choose|j: int| 0 <= j < n && s[j] is Some && key_of(s, j) == q;
            if j != i {
                assert(s2[j] is Some);
            }
        }
        assert(s2[i] is Some);
    }
    assert forall|q: Seq<u8>| #[trigger] entries_of(s2).contains_key(q) implies
        entries_of(s2)[q] == entries_of(s).insert(k, v)[q] by {
        let j = choose|j: int| 0 <= j < n && s2[j] is Some && key_of(s2, j) == q;
        if j != i {
            assert(s[j] is Some);
        } else {
            assert(s2[i] is Some);
        }
    }
    assert(entries_of(s2) =~= entries_of(s).insert(k, v));
    if s[i] is Some {
        assert(s[i] is Some);
    }
}

/// Largest capacity of a slot table
pub const MAX_DICT_CAPACITY: u64 = 0x3FF_FFFF_FFFF;

/// Fill, in percent of the capacity, above which a table grows before
/// the next entry goes in
pub const THRESHOLD: u64 = 75;

/// Bytes a slot takes: the key's word and the value's word
pub const SLOT_SIZE: u64 = 16;

/// Capacity asked for, but never below two slots
pub open spec fn spec_min_capacity(capacity: int) -> int {
    if capacity < 2 { 2 } else { capacity }
}

/// Capacity a full table grows to
pub open spec fn spec_doubled(capacity: int) -> int {
    (capacity + 1) * 2
}

/// Whether a value points at a string of a heap whose block, header
/// included, lies apart from a given range of bytes
pub open spec fn key_str_apart(v: Value, heap: Alloc, lo: int, hi: int) -> bool {
    let p = v.spec_heap_addr() as int;
    &&& v.points_into(heap)
    &&& v.spec_is_ptr_val(heap, Tag::Str)
    &&& (p + spec_align_up(heap.spec_header_of(p).spec_num_bytes() as int) <= lo || hi <= p - 8)
}

/// A string reads the same in a heap that kept the words of its block
pub proof fn lemma_str_kept(v: Value, h0: Alloc, h1: Alloc)
    requires
        v.points_into(h0),
        v.spec_is_ptr_val(h0, Tag::Str),
        h1.wf(),
        h0.spec_bytes_used() <= h1.spec_bytes_used(),
        h0.words().len() <= h1.words().len(),
        forall|i: int| (v.spec_heap_addr() - 8) / 8 <= i
            < (v.spec_heap_addr() + spec_align_up(h0.spec_header_of(v.spec_heap_addr() as int).spec_num_bytes() as int)) / 8
            ==> #[trigger] h1.words()[i] == h0.words()[i],
    ensures
        v.points_into(h1),
        v.spec_is_ptr_val(h1, Tag::Str),
        h1.spec_header_of(v.spec_heap_addr() as int) == h0.spec_header_of(v.spec_heap_addr() as int),
        spec_str_bytes(v, h1) == spec_str_bytes(v, h0),
{
    let p = v.spec_heap_addr() as int;
    let n = h0.spec_header_of(p).spec_num_bytes() as int;
    h0.lemma_wf_bounds();
    assert(h1.words()[(p - 8) / 8] == h0.words()[(p - 8) / 8]);
    assert(spec_str_bytes(v, h1) =~= spec_str_bytes(v, h0)) by {
        assert forall|i: int| 0 <= i < n implies
            #[trigger] h1.word_at(p + (i / 8) * 8) == h0.word_at(p + (i / 8) * 8) by {
            assert((i / 8) * 8 <= i);
            assert((p + (i / 8) * 8) / 8 == p / 8 + i / 8);
            assert(p / 8 + i / 8 < (p + spec_align_up(n)) / 8);
        }
    }
}

/// A dictionary: an eight-byte block whose word is the address of its
/// slot table, and whose header holds the number of entries. The
/// capacity is the number of slots of the table, each a key's word and a
/// value's word; a slot whose key word is zero is empty.
#[derive(Copy, Clone, Debug, PartialEq, Eq, Structural)]
pub struct Dict {
    pub addr: u64,
}

/// Where a probe for a key stopped
pub enum Probe {
    /// At the slot holding the key
    Found(u64),
    /// At an empty slot, the key being absent
    Empty(u64),
    /// Nowhere: every slot holds another key
    Full,
}

impl Dict {
    /// Address of the slot table
    pub open spec fn spec_table(self, heap: Alloc) -> u64 {
        heap.word_at(self.addr as int)
    }

    pub open spec fn spec_len(self, heap: Alloc) -> nat {
        heap.spec_header_of(self.addr as int).spec_fixed_len()
    }

    pub open spec fn spec_capacity(self, heap: Alloc) -> nat {
        heap.spec_header_of(self.spec_table(heap) as int).spec_num_bytes() / 16
    }

    pub open spec fn key_word(self, heap: Alloc, i: int) -> u64 {
        heap.word_at(self.spec_table(heap) + 16 * i)
    }

    pub open spec fn val_word(self, heap: Alloc, i: int) -> u64 {
        heap.word_at(self.spec_table(heap) + 16 * i + 8)
    }

    /// What a slot holds: its key's bytes, read from the string the key
    /// word points at, and its value
    pub open spec fn spec_slot(self, heap: Alloc, i: int) -> SlotView {
        if self.key_word(heap, i) == 0 {
            None
        } else {
            Some((spec_str_bytes(Value(self.key_word(heap, i)), heap), Value(self.val_word(heap, i))))
        }
    }

    pub open spec fn spec_slots(self, heap: Alloc) -> Seq<SlotView> {
        Seq::new(self.spec_capacity(heap), |i: int| self.spec_slot(heap, i))
    }

    /// The entries: each key's bytes, and the value stored under it
    pub open spec fn spec_entries(self, heap: Alloc) -> Map<Seq<u8>, Value> {
        entries_of(self.spec_slots(heap))
    }

    /// Word indices of the dictionary's block and of its table, headers
    /// included
    pub open spec fn footprint(self, heap: Alloc) -> Set<int> {
        let t = self.spec_table(heap) as int;
        Set::new(|i: int| i == (self.addr - 8) / 8 || i == self.addr / 8
            || ((t - 8) / 8 <= i < t / 8 + 2 * self.spec_capacity(heap)))
    }

    /// Whether a key string lies apart from the dictionary's block and
    /// from its table
    pub open spec fn key_apart(self, heap: Alloc, v: Value) -> bool {
        let t = self.spec_table(heap) as int;
        &&& key_str_apart(v, heap, self.addr - 8, self.addr + FIXED_SIZE)
        &&& key_str_apart(v, heap, t - 8, t + 16 * self.spec_capacity(heap))
    }

    /// Whether the dictionary's block and its table lie in the allocated
    /// memory, apart from each other, and every key is a string lying
    /// apart from both
    pub open spec fn shape_ok(self, heap: Alloc) -> bool {
        let t = self.spec_table(heap) as int;
        let cap = self.spec_capacity(heap);
        &&& heap.wf()
        &&& heap.has_block_of(self.addr as int, Tag::Dict)
        &&& self.addr + FIXED_SIZE <= heap.spec_bytes_used()
        &&& heap.has_block_of(t, Tag::SlotTable)
        &&& heap.spec_header_of(t).spec_num_bytes() % 16 == 0
        &&& 2 <= cap <= MAX_DICT_CAPACITY
        &&& t + cap * 16 <= heap.spec_bytes_used()
        &&& (t >= self.addr + FIXED_SIZE + HEADER_SIZE || t + cap * 16 + HEADER_SIZE <= self.addr)
        &&& forall|i: int| 0 <= i < cap && #[trigger] self.key_word(heap, i) != 0
            ==> self.key_apart(heap, Value(self.key_word(heap, i)))
    }

    /// Whether this names a well-formed dictionary of the heap: it has
    /// its shape, its table is one a probe works on, and the header
    /// counts the occupied slots
    pub open spec fn valid_in(self, heap: Alloc) -> bool {
        &&& self.shape_ok(heap)
        &&& table_ok(self.spec_slots(heap))
        &&& self.spec_len(heap) == count_of(self.spec_slots(heap))
    }

    /// Whether the dictionary's block and its table both lie past a
    /// given allocation point
    pub open spec fn lies_past(self, heap: Alloc, used: int) -> bool {
        &&& used + HEADER_SIZE <= self.addr
        &&& used + HEADER_SIZE <= self.spec_table(heap)
    }

    /// Whether the next set grows the table first
    pub open spec fn spec_will_grow(self, heap: Alloc) -> bool {
        let len = self.spec_len(heap) as int;
        let cap = self.spec_capacity(heap) as int;
        len + 1 == cap || 100 * len / cap > THRESHOLD
    }

    /// A dictionary is as it was in a heap that kept every word
    /// allocated before
    pub proof fn lemma_grown(self, h0: Alloc, h1: Alloc)
        requires
            self.valid_in(h0),
            keeps(h0, h1, Set::empty()),
        ensures
            self.valid_in(h1),
            self.spec_table(h1) == self.spec_table(h0),
            self.spec_len(h1) == self.spec_len(h0),
            self.spec_capacity(h1) == self.spec_capacity(h0),
            self.spec_slots(h1) == self.spec_slots(h0),
            self.spec_entries(h1) == self.spec_entries(h0),
            self.footprint(h1) == self.footprint(h0),
            forall|i: int| 0 <= i < self.spec_capacity(h0) ==> #[trigger] self.key_word(h1, i) == self.key_word(h0, i),
    {
        let t = self.spec_table(h0) as int;
        let cap = self.spec_capacity(h0) as int;
        h0.lemma_wf_bounds();
        assert(h1.words()[self.addr as int / 8] == h0.words()[self.addr as int / 8]);
        assert(h1.words()[(self.addr - 8) as int / 8] == h0.words()[(self.addr - 8) as int / 8]);
        assert(h1.words()[(t - 8) / 8] == h0.words()[(t - 8) / 8]);
        assert forall|i: int| 0 <= i < cap implies
            #[trigger] self.key_word(h1, i) == self.key_word(h0, i)
            && self.val_word(h1, i) == self.val_word(h0, i) by {
            assert((t + 16 * i) / 8 == t / 8 + 2 * i);
            assert((t + 16 * i + 8) / 8 == t / 8 + 2 * i + 1);
            assert(h1.words()[t / 8 + 2 * i] == h0.words()[t / 8 + 2 * i]);
            assert(h1.words()[t / 8 + 2 * i + 1] == h0.words()[t / 8 + 2 * i + 1]);
        }
        assert forall|i: int| 0 <= i < cap && self.key_word(h0, i) != 0 implies
            spec_str_bytes(Value(self.key_word(h0, i)), h1) == spec_str_bytes(Value(self.key_word(h0, i)), h0)
            && self.key_apart(h1, Value(self.key_word(h0, i))) by {
            let v = Value(self.key_word(h0, i));
            assert(self.key_apart(h0, v));
            lemma_str_kept(v, h0, h1);
        }
        assert(self.spec_slots(h1) =~= self.spec_slots(h0));
        assert(self.footprint(h1) =~= self.footprint(h0));
    }

    /// The header counts the entries
    pub proof fn lemma_len_is_size(self, heap: Alloc)
        requires
            self.valid_in(heap),
        ensures
            self.spec_entries(heap).dom().finite(),
            self.spec_len(heap) == self.spec_entries(heap).dom().len(),
    {
        lemma_entries_size(self.spec_slots(heap), self.spec_capacity(heap) as int);
    }

    /// Bytes a dictionary with a given capacity occupies, counting the
    /// headers of both the dictionary and its table
    pub fn alloc_size(capacity: u64) -> (r: u64)
        requires
            capacity <= MAX_DICT_CAPACITY,
        ensures
            r == HEADER_SIZE + FIXED_SIZE + HEADER_SIZE + spec_min_capacity(capacity as int) * 16,
    {
        let capacity = if capacity < 2 { 2 } else { capacity };
        HEADER_SIZE + FIXED_SIZE + HEADER_SIZE + capacity * SLOT_SIZE
    }

    /// Bytes a slot takes
    pub fn size_of_slot() -> (r: u64)
        ensures
            r == 16,
    {
        SLOT_SIZE
    }

    /// Number of entries held, which lives in the block header
    pub fn len(self, heap: &Alloc) -> (r: u64)
        requires
            self.valid_in(*heap),
        ensures
            r == self.spec_len(*heap),
            r == self.spec_entries(*heap).dom().len(),
    {
        proof { self.lemma_len_is_size(*heap); }
        heap.header_of(self.addr).fixed_len()
    }

    fn table(self, heap: &Alloc) -> (r: u64)
        requires
            self.valid_in(*heap),
        ensures
            r == self.spec_table(*heap),
    {
        proof { heap.lemma_wf_bounds(); }
        heap.read_word(self.addr)
    }

    /// Number of slots of the table
    pub fn capacity(self, heap: &Alloc) -> (r: u64)
        requires
            self.valid_in(*heap),
        ensures
            r == self.spec_capacity(*heap),
    {
        let t = self.table(heap);
        heap.header_of(t).num_bytes() / SLOT_SIZE
    }


    /// Allocate a table of a given number of slots, all empty
    fn empty_table(heap: &mut Alloc, cap: u64) -> (t: u64)
        requires
            old(heap).wf(),
            2 <= cap <= MAX_DICT_CAPACITY,
            room_for(*old(heap), cap * 16),
        ensures
            final(heap).wf(),
            t == old(heap).spec_bytes_used() + HEADER_SIZE,
            final(heap).spec_bytes_used() == t + cap * 16,
            final(heap).has_block_of(t as int, Tag::SlotTable),
            final(heap).spec_header_of(t as int).spec_num_bytes() == cap * 16,
            keeps(*old(heap), *final(heap), Set::empty()),
            forall|i: int| t / 8 <= i < t / 8 + 2 * cap ==> #[trigger] final(heap).words()[i] == 0,
    {
        proof { heap.lemma_wf_bounds(); }
        let ghost h0 = *heap;
        assert(heap.can_bump(spec_align_up(cap * 16)));
        let t = heap.alloc_table(cap, SLOT_SIZE, Tag::SlotTable);
        let ghost h1 = *heap;
        proof {
            heap.lemma_wf_bounds();
            assert(spec_align_up(cap * 16) == cap * 16);
        }
        let mut w: u64 = 0;
        while w < 2 * cap
            invariant
                heap.wf(),
                w <= 2 * cap,
                cap <= MAX_DICT_CAPACITY,
                t == h0.spec_bytes_used() + HEADER_SIZE,
                t % 8 == 0,
                t + cap * 16 == h1.spec_bytes_used(),
                heap.spec_bytes_used() == h1.spec_bytes_used(),
                heap.spec_bytes_used() <= heap.words().len() * 8,
                heap.spec_bytes_used() <= crate::allocator::MAX_RESERVE,
                heap.words().len() == h1.words().len(),
                heap.spec_reserve_size() == h1.spec_reserve_size(),
                heap.spec_page_size() == h1.spec_page_size(),
                heap.spec_growable() == h1.spec_growable(),
                forall|i: int| 0 <= i < heap.words().len() && !(t / 8 <= i < t / 8 + w)
                    ==> #[trigger] heap.words()[i] == h1.words()[i],
                forall|i: int| t / 8 <= i < t / 8 + w ==> #[trigger] heap.words()[i] == 0,
            decreases 2 * cap - w,
        {
            heap.write_word(t + 8 * w, 0);
            w = w + 1;
        }
        proof {
            assert(heap.words()[(t - 8) / 8] == h1.words()[(t - 8) / 8]);
        }
        t
    }

    /// Allocate an empty dictionary with room for a given number of
    /// entries, but never fewer than two slots. The dictionary is
    /// allocated before its table, so that the two end up in the order
    /// the collector puts them in. Nothing is allocated if the heap has
    /// no room for both.
    pub fn with_capacity(capacity: u64, heap: &mut Alloc) -> (r: Option<Dict>)
        requires
            old(heap).wf(),
        ensures
            final(heap).wf(),
            r is None <==> (spec_min_capacity(capacity as int) > MAX_DICT_CAPACITY
                || !room_for(*old(heap), FIXED_SIZE + HEADER_SIZE + spec_min_capacity(capacity as int) * 16)),
            r is None ==> *final(heap) == *old(heap),
            r matches Some(d) ==> {
                &&& d.valid_in(*final(heap))
                &&& d.spec_entries(*final(heap)) == Map::<Seq<u8>, Value>::empty()
                &&& d.spec_len(*final(heap)) == 0
                &&& d.spec_capacity(*final(heap)) == spec_min_capacity(capacity as int)
                &&& keeps(*old(heap), *final(heap), Set::empty())
                &&& d.lies_past(*final(heap), old(heap).spec_bytes_used() as int)
                &&& final(heap).spec_bytes_used() == old(heap).spec_bytes_used() + HEADER_SIZE + FIXED_SIZE
                    + HEADER_SIZE + spec_min_capacity(capacity as int) * 16
            },
    {
        let cap = if capacity < 2 { 2 } else { capacity };
        if cap > MAX_DICT_CAPACITY {
            return None;
        }
        if !has_room(heap, FIXED_SIZE + HEADER_SIZE + cap * SLOT_SIZE) {
            return None;
        }
        let ghost h0 = *heap;
        proof { heap.lemma_wf_bounds(); }
        let p = heap.alloc_fixed(Tag::Dict, 0);
        let ghost h1 = *heap;
        proof { heap.lemma_wf_bounds(); }
        let t = Self::empty_table(heap, cap);
        let ghost h2 = *heap;
        proof { heap.lemma_wf_bounds(); }
        heap.write_word(p, t);
        let d = Dict { addr: p };
        proof {
            assert(heap.word_at(p - 8) == h1.word_at(p - 8));
            assert(heap.word_at(t - 8) == h2.word_at(t - 8));
            assert(d.spec_table(*heap) == t);
            assert(d.spec_capacity(*heap) == cap);
            assert forall|i: int| 0 <= i < cap implies #[trigger] d.key_word(*heap, i) == 0 by {
                assert((t + 16 * i) / 8 == t / 8 + 2 * i);
                assert(heap.words()[t / 8 + 2 * i] == h2.words()[t / 8 + 2 * i]);
            }
            let s = d.spec_slots(*heap);
            assert forall|j: int| 0 <= j < cap implies (#[trigger] s[j]) is None by {
                assert(d.key_word(*heap, j) == 0);
            }
            lemma_all_empty(s, cap as int);
        }
        Some(d)
    }


    /// What writing a key and a value into a slot of the table, and
    /// perhaps the header, does to the slots: the one slot changes, and
    /// every key stays a string lying apart from the dictionary
    proof fn lemma_written(self, h0: Alloc, h1: Alloc, i: int, key: Value, val: Value)
        requires
            self.valid_in(h0),
            0 <= i < self.spec_capacity(h0),
            self.key_apart(h0, key),
            key.0 != 0,
            h1.wf(),
            h1.spec_bytes_used() == h0.spec_bytes_used(),
            h1.words().len() == h0.words().len(),
            h1.spec_reserve_size() == h0.spec_reserve_size(),
            h1.spec_page_size() == h0.spec_page_size(),
            h1.spec_growable() == h0.spec_growable(),
            h1.spec_header_of(self.addr as int).is_valid(),
            h1.spec_header_of(self.addr as int).spec_tag() == Tag::Dict,
            h1.words()[self.spec_table(h0) / 8 + 2 * i] == key.0,
            h1.words()[self.spec_table(h0) / 8 + 2 * i + 1] == val.0,
            forall|x: int| 0 <= x < h0.words().len() && x != self.spec_table(h0) / 8 + 2 * i
                && x != self.spec_table(h0) / 8 + 2 * i + 1 && x != (self.addr - 8) / 8
                ==> #[trigger] h1.words()[x] == h0.words()[x],
        ensures
            self.spec_slots(h1) == self.spec_slots(h0).update(i, Some((spec_str_bytes(key, h0), val))),
            self.spec_table(h1) == self.spec_table(h0),
            self.spec_capacity(h1) == self.spec_capacity(h0),
            self.footprint(h1) == self.footprint(h0),
            keeps(h0, h1, self.footprint(h0)),
            h1.has_block_of(self.addr as int, Tag::Dict),
            h1.has_block_of(self.spec_table(h1) as int, Tag::SlotTable),
            h1.spec_header_of(self.spec_table(h1) as int) == h0.spec_header_of(self.spec_table(h0) as int),
            forall|j: int| 0 <= j < self.spec_capacity(h1) && #[trigger] self.key_word(h1, j) != 0
                ==> self.key_apart(h1, Value(self.key_word(h1, j))),
    {
        let t = self.spec_table(h0) as int;
        let cap = self.spec_capacity(h0) as int;
        let a = self.addr as int;
        h0.lemma_wf_bounds();
        let ki = t / 8 + 2 * i;
        assert(h1.words()[a / 8] == h0.words()[a / 8]);
        assert(h1.words()[(t - 8) / 8] == h0.words()[(t - 8) / 8]);
        assert(self.spec_table(h1) == t);
        assert(self.spec_capacity(h1) == cap);
        // The strings the keys point at are untouched
        assert forall|v: Value| #[trigger] self.key_apart(h0, v) implies
            spec_str_bytes(v, h1) == spec_str_bytes(v, h0) && self.key_apart(h1, v) by {
            let p = v.spec_heap_addr() as int;
            let hi = p + spec_align_up(h0.spec_header_of(p).spec_num_bytes() as int);
            assert forall|x: int| (p - 8) / 8 <= x < hi / 8 implies #[trigger] h1.words()[x] == h0.words()[x] by {
                assert(x != ki && x != ki + 1 && x != (a - 8) / 8);
            }
            lemma_str_kept(v, h0, h1);
        }
        assert forall|j: int| 0 <= j < cap implies
            #[trigger] self.key_word(h1, j) == (if j == i { key.0 } else { self.key_word(h0, j) })
            && self.val_word(h1, j) == (if j == i { val.0 } else { self.val_word(h0, j) }) by {
            assert((t + 16 * j) / 8 == t / 8 + 2 * j);
            assert((t + 16 * j + 8) / 8 == t / 8 + 2 * j + 1);
        }
        assert forall|j: int| 0 <= j < cap && #[trigger] self.key_word(h1, j) != 0
            implies self.key_apart(h1, Value(self.key_word(h1, j))) by {
            if j == i {
                assert(self.key_apart(h0, key));
                assert(Value(key.0) == key);
            } else {
                assert(self.key_word(h0, j) != 0);
                assert(self.key_apart(h0, Value(self.key_word(h0, j))));
            }
        }
        assert forall|j: int| 0 <= j < cap implies
            #[trigger] self.spec_slot(h1, j) == self.spec_slots(h0).update(i, Some((spec_str_bytes(key, h0), val)))[j] by {
            if j == i {
                assert(self.key_apart(h0, key));
                assert(Value(key.0) == key);
                assert(Value(val.0) == val);
            } else if self.key_word(h0, j) != 0 {
                assert(self.key_apart(h0, Value(self.key_word(h0, j))));
            }
        }
        assert(self.spec_slots(h1) =~= self.spec_slots(h0).update(i, Some((spec_str_bytes(key, h0), val))));
        assert(self.footprint(h1) =~= self.footprint(h0));
        assert forall|x: int| 0 <= x < h0.spec_bytes_used() / 8 && !self.footprint(h0).contains(x)
            implies #[trigger] h1.words()[x] == h0.words()[x] by {
            assert(x != ki && x != ki + 1 && x != (a - 8) / 8);
        }
    }

    /// Store a value under a key, in the slot a probe for the key stops
    /// at. A new key needs a free slot to spare, so that one stays free.
    #[verifier::rlimit(40)]
    fn store(self, heap: &mut Alloc, key: Value, val: Value)
        requires
            self.valid_in(*old(heap)),
            self.key_apart(*old(heap), key),
            self.spec_entries(*old(heap)).contains_key(spec_str_bytes(key, *old(heap)))
                || self.spec_len(*old(heap)) + 1 < self.spec_capacity(*old(heap)),
        ensures
            self.valid_in(*final(heap)),
            self.spec_entries(*final(heap))
                == self.spec_entries(*old(heap)).insert(spec_str_bytes(key, *old(heap)), val),
            self.spec_len(*final(heap)) == self.spec_len(*old(heap))
                + (if self.spec_entries(*old(heap)).contains_key(spec_str_bytes(key, *old(heap))) { 0int } else { 1int }),
            keeps(*old(heap), *final(heap), self.footprint(*old(heap))),
            final(heap).spec_bytes_used() == old(heap).spec_bytes_used(),
            self.spec_table(*final(heap)) == self.spec_table(*old(heap)),
            self.spec_capacity(*final(heap)) == self.spec_capacity(*old(heap)),
            self.footprint(*final(heap)) == self.footprint(*old(heap)),
    {
        let ghost h0 = *heap;
        let ghost s = self.spec_slots(h0);
        let ghost kb = spec_str_bytes(key, h0);
        let ghost n = s.len() as int;
        proof {
            heap.lemma_wf_bounds();
            lemma_entries(s, n);
            lemma_home_bounds(kb, n);
            lemma_wrap_dist(home(kb, n), n);
        }
        let bytes = match str_bytes(key, heap) {
            Some(b) => b,
            None => { return; },
        };
        let t = self.table(heap);
        let len = self.len(heap);
        let (i, found) = match self.probe(heap, bytes.as_slice()) {
            Probe::Found(i) => (i, true),
            Probe::Empty(i) => {
                proof {
                    lemma_probe_absent(s, kb, dist(home(kb, n), i as int, n));
                    if self.spec_entries(h0).contains_key(kb) {
                        let j = choose|j: int| 0 <= j < n && s[j] is Some && key_of(s, j) == kb;
                        assert(s[j] is Some);
                    }
                }
                (i, false)
            },
            Probe::Full => {
                proof { lemma_probe_full(s, kb); }
                return;
            },
        };
        proof {
            lemma_store(s, i as int, kb, val);
            assert(key.0 != 0);
            assert((t + 16 * i) / 8 == t / 8 + 2 * i);
            assert((t + 16 * i + 8) / 8 == t / 8 + 2 * i + 1);
        }
        heap.write_word(t + 16 * i, key.0);
        heap.write_word(t + 16 * i + 8, val.0);
        if !found {
            heap.set_fixed_len(self.addr, len + 1);
        }
        proof {
            self.lemma_written(h0, *heap, i as int, key, val);
        }
    }


    /// Move the entries to a new table of twice the capacity and two
    /// slots more, which lies past everything allocated before. Nothing
    /// changes if the heap has no room for it.
    #[verifier::rlimit(60)]
    fn double_size(self, heap: &mut Alloc) -> (r: bool)
        requires
            self.valid_in(*old(heap)),
        ensures
            r == (spec_doubled(self.spec_capacity(*old(heap)) as int) <= MAX_DICT_CAPACITY
                && room_for(*old(heap), spec_doubled(self.spec_capacity(*old(heap)) as int) * 16)),
            !r ==> *final(heap) == *old(heap),
            r ==> {
                &&& self.valid_in(*final(heap))
                &&& self.spec_entries(*final(heap)) == self.spec_entries(*old(heap))
                &&& self.spec_len(*final(heap)) == self.spec_len(*old(heap))
                &&& self.spec_capacity(*final(heap)) == spec_doubled(self.spec_capacity(*old(heap)) as int)
                &&& keeps(*old(heap), *final(heap), set![self.addr as int / 8, (self.addr - 8) as int / 8])
                &&& old(heap).spec_bytes_used() + HEADER_SIZE <= self.spec_table(*final(heap))
            },
    {
        let cap = self.capacity(heap);
        let new_cap = (cap + 1) * 2;
        if new_cap > MAX_DICT_CAPACITY {
            return false;
        }
        if !has_room(heap, new_cap * SLOT_SIZE) {
            return false;
        }
        let ghost h0 = *heap;
        let ghost os = self.spec_slots(h0);
        let ghost a = self.addr as int;
        let ghost changed = set![a / 8, (a - 8) / 8];
        proof { heap.lemma_wf_bounds(); }
        let old_t = self.table(heap);
        let nt = Self::empty_table(heap, new_cap);
        let ghost h1 = *heap;
        proof { heap.lemma_wf_bounds(); }
        heap.write_word(self.addr, nt);
        heap.set_fixed_len(self.addr, 0);
        proof {
            heap.lemma_wf_bounds();
            assert(heap.words()[(nt - 8) / 8] == h1.words()[(nt - 8) / 8]);
            assert(self.spec_table(*heap) == nt);
            assert(self.spec_capacity(*heap) == new_cap);
            assert forall|j: int| 0 <= j < new_cap implies #[trigger] self.key_word(*heap, j) == 0 by {
                assert((nt + 16 * j) / 8 == nt / 8 + 2 * j);
                assert(heap.words()[nt / 8 + 2 * j] == h1.words()[nt / 8 + 2 * j]);
            }
            let s = self.spec_slots(*heap);
            assert forall|j: int| 0 <= j < new_cap implies (#[trigger] s[j]) is None by {
                assert(self.key_word(*heap, j) == 0);
            }
            lemma_all_empty(s, new_cap as int);
            lemma_all_empty(os, 0);
            assert forall|x: int| 0 <= x < h0.spec_bytes_used() / 8 && !changed.contains(x)
                implies #[trigger] heap.words()[x] == h0.words()[x] by {
                assert(h1.words()[x] == h0.words()[x]);
            }
        }
        let mut i: u64 = 0;
        while i < cap
            invariant
                self.valid_in(*heap),
                self.valid_in(h0),
                os == self.spec_slots(h0),
                old_t == self.spec_table(h0),
                cap == os.len(),
                new_cap == (cap + 1) * 2,
                new_cap <= MAX_DICT_CAPACITY,
                i <= cap,
                a == self.addr,
                changed == set![a / 8, (a - 8) / 8],
                self.spec_table(*heap) == nt,
                self.spec_capacity(*heap) == new_cap,
                h0.spec_bytes_used() + HEADER_SIZE <= nt,
                self.spec_entries(*heap) == entries_upto(os, i as int),
                self.spec_len(*heap) == count_upto(os, i as int),
                keeps(h0, *heap, changed),
            decreases cap - i,
        {
            let ghost hb = *heap;
            proof {
                h0.lemma_wf_bounds();
                heap.lemma_wf_bounds();
                assert((old_t + 16 * i) / 8 == old_t / 8 + 2 * i);
                assert((old_t + 16 * i + 8) / 8 == old_t / 8 + 2 * i + 1);
                assert(heap.words()[old_t / 8 + 2 * i] == h0.words()[old_t / 8 + 2 * i]);
                assert(heap.words()[old_t / 8 + 2 * i + 1] == h0.words()[old_t / 8 + 2 * i + 1]);
            }
            let kw = heap.read_word(old_t + 16 * i);
            let vw = heap.read_word(old_t + 16 * i + 8);
            assert(kw == self.key_word(h0, i as int));
            assert(vw == self.val_word(h0, i as int));
            if kw != 0 {
                let ghost kb = key_of(os, i as int);
                proof {
                    let v = Value(kw);
                    assert(self.key_apart(h0, v));
                    let p = v.spec_heap_addr() as int;
                    let hi = p + spec_align_up(h0.spec_header_of(p).spec_num_bytes() as int);
                    assert forall|x: int| (p - 8) / 8 <= x < hi / 8 implies
                        #[trigger] heap.words()[x] == h0.words()[x] by {
                        assert(!changed.contains(x));
                    }
                    lemma_str_kept(v, h0, *heap);
                    assert(self.key_apart(*heap, v));
                    lemma_entries(os, i as int);
                    if entries_upto(os, i as int).contains_key(kb) {
                        let j = choose|j: int| 0 <= j < i && os[j] is Some && key_of(os, j) == kb;
                        assert(os[j] is Some && os[i as int] is Some);
                    }
                    lemma_count_monotonic(os, i as int, cap as int);
                }
                self.store(heap, Value(kw), Value(vw));
                proof {
                    assert(entries_upto(os, i as int + 1) == entries_upto(os, i as int).insert(kb, Value(vw)));
                    assert forall|x: int| 0 <= x < h0.spec_bytes_used() / 8 && !changed.contains(x)
                        implies #[trigger] heap.words()[x] == h0.words()[x] by {
                        assert(!self.footprint(hb).contains(x));
                        assert(hb.words()[x] == h0.words()[x]);
                    }
                }
            } else {
                assert(os[i as int] is None);
            }
            i = i + 1;
        }
        true
    }

    /// Store a value under a key: the key is a string of the heap lying
    /// apart from the dictionary, and what counts is its bytes. The table
    /// grows first when it is nearly full; nothing changes if the heap
    /// has no room for the bigger table.
    pub fn set(self, heap: &mut Alloc, key: Value, val: Value) -> (r: bool)
        requires
            self.valid_in(*old(heap)),
            self.key_apart(*old(heap), key),
        ensures
            r == !(self.spec_will_grow(*old(heap))
                && (spec_doubled(self.spec_capacity(*old(heap)) as int) > MAX_DICT_CAPACITY
                    || !room_for(*old(heap), spec_doubled(self.spec_capacity(*old(heap)) as int) * 16))),
            !r ==> *final(heap) == *old(heap),
            r ==> {
                &&& self.valid_in(*final(heap))
                &&& self.spec_entries(*final(heap))
                    == self.spec_entries(*old(heap)).insert(spec_str_bytes(key, *old(heap)), val)
                &&& self.spec_len(*final(heap)) == self.spec_len(*old(heap))
                    + (if self.spec_entries(*old(heap)).contains_key(spec_str_bytes(key, *old(heap))) { 0int } else { 1int })
                &&& keeps(*old(heap), *final(heap), self.footprint(*old(heap)))
            },
    {
        let ghost h0 = *heap;
        let ghost kb = spec_str_bytes(key, h0);
        if self.will_allocate_on_set(heap) {
            if !self.double_size(heap) {
                return false;
            }
            proof {
                let p = key.spec_heap_addr() as int;
                let hi = p + spec_align_up(h0.spec_header_of(p).spec_num_bytes() as int);
                h0.lemma_wf_bounds();
                assert forall|x: int| (p - 8) / 8 <= x < hi / 8 implies
                    #[trigger] heap.words()[x] == h0.words()[x] by {
                    assert(x != self.addr as int / 8 && x != (self.addr - 8) as int / 8);
                }
                lemma_str_kept(key, h0, *heap);
            }
        }
        let ghost h1 = *heap;
        proof {
            self.lemma_len_is_size(*heap);
        }
        self.store(heap, key, val);
        proof {
            h0.lemma_wf_bounds();
            assert forall|x: int| 0 <= x < h0.spec_bytes_used() / 8 && !self.footprint(h0).contains(x)
                implies #[trigger] heap.words()[x] == h0.words()[x] by {
                if h1 != h0 {
                    assert(!set![self.addr as int / 8, (self.addr - 8) as int / 8].contains(x));
                    assert(!self.footprint(h1).contains(x));
                } else {
                    assert(!self.footprint(h1).contains(x));
                }
            }
        }
        true
    }


    /// Whether a value is a string of the heap lying apart from a range
    /// of bytes
    fn str_apart(heap: &Alloc, v: Value, lo: u64, hi: u64) -> (r: bool)
        requires
            heap.wf(),
        ensures
            r == key_str_apart(v, *heap, lo as int, hi as int),
    {
        proof { heap.lemma_wf_bounds(); }
        if !check_value(v, heap) || !v.is_heap() || !v.is_string(heap) {
            return false;
        }
        let p = v.heap_ptr();
        let n = heap.header_of(p).num_bytes();
        let end = p + align_up(n);
        end <= lo || (p >= HEADER_SIZE && hi <= p - HEADER_SIZE)
    }

    /// Whether a key string lies apart from the dictionary, as a key must
    pub fn key_fits(self, heap: &Alloc, key: Value) -> (r: bool)
        requires
            self.valid_in(*heap),
        ensures
            r == self.key_apart(*heap, key),
    {
        proof { heap.lemma_wf_bounds(); }
        let t = self.table(heap);
        let cap = self.capacity(heap);
        Self::str_apart(heap, key, self.addr - HEADER_SIZE, self.addr + FIXED_SIZE)
            && Self::str_apart(heap, key, t - HEADER_SIZE, t + cap * SLOT_SIZE)
    }

    /// Whether the block at a given address has the shape of a
    /// dictionary
    #[verifier::rlimit(40)]
    fn shape_at(heap: &Alloc, addr: u64) -> (r: bool)
        requires
            heap.wf(),
        ensures
            r == (Dict { addr }).shape_ok(*heap),
    {
        proof { heap.lemma_wf_bounds(); }
        let d = Dict { addr };
        if addr % 8 != 0 || !heap.contains(addr) {
            return false;
        }
        let h = heap.header_of(addr);
        let w = h.to_word();
        if w % 2 == 0 {
            return false;
        }
        let code = ((w / 2) % 128) as u8;
        if code < 1 || code > crate::allocator::LAST_TAG || h.tag() != Tag::Dict {
            return false;
        }
        if heap.bytes_used() - addr < FIXED_SIZE {
            return false;
        }
        let t = heap.read_word(addr);
        if t % 8 != 0 || !heap.contains(t) {
            return false;
        }
        let th = heap.header_of(t);
        let tw = th.to_word();
        if tw % 2 == 0 {
            return false;
        }
        let tcode = ((tw / 2) % 128) as u8;
        if tcode < 1 || tcode > crate::allocator::LAST_TAG || th.tag() != Tag::SlotTable {
            return false;
        }
        let nb = th.num_bytes();
        if nb % 16 != 0 || nb / 16 > MAX_DICT_CAPACITY || nb / 16 < 2 {
            return false;
        }
        let cap = nb / 16;
        if heap.bytes_used() - t < cap * 16 {
            return false;
        }
        if !(t >= addr + FIXED_SIZE + HEADER_SIZE || (t + cap * 16 + HEADER_SIZE <= addr)) {
            return false;
        }
        assert(d.spec_table(*heap) == t);
        assert(d.spec_capacity(*heap) == cap);
        // Every key is a string lying apart from the dictionary
        let mut i: u64 = 0;
        while i < cap
            invariant
                heap.wf(),
                d.addr == addr,
                heap.has_block_of(addr as int, Tag::Dict),
                heap.has_block_of(t as int, Tag::SlotTable),
                heap.spec_header_of(t as int).spec_num_bytes() % 16 == 0,
                2 <= cap <= MAX_DICT_CAPACITY,
                (t >= addr + FIXED_SIZE + HEADER_SIZE || t + cap * 16 + HEADER_SIZE <= addr),
                heap.spec_bytes_used() <= heap.words().len() * 8,
                t == d.spec_table(*heap),
                cap == d.spec_capacity(*heap),
                t % 8 == 0,
                addr >= 8,
                t >= 8,
                addr + FIXED_SIZE <= heap.spec_bytes_used(),
                t + cap * 16 <= heap.spec_bytes_used(),
                heap.spec_bytes_used() <= crate::allocator::MAX_RESERVE,
                i <= cap,
                forall|j: int| 0 <= j < i && #[trigger] d.key_word(*heap, j) != 0
                    ==> d.key_apart(*heap, Value(d.key_word(*heap, j))),
            decreases cap - i,
        {
            let kw = heap.read_word(t + 16 * i);
            assert(kw == d.key_word(*heap, i as int));
            if kw != 0 {
                let apart_block = Self::str_apart(heap, Value(kw), addr - HEADER_SIZE, addr + FIXED_SIZE);
                let apart_table = Self::str_apart(heap, Value(kw), t - HEADER_SIZE, t + cap * 16);
                assert(key_str_apart(Value(kw), *heap, addr - 8, addr + 8) == apart_block);
                assert(key_str_apart(Value(kw), *heap, t - 8, t + 16 * cap) == apart_table);
                if !apart_block || !apart_table {
                    return false;
                }
                assert(d.key_apart(*heap, Value(kw)));
            }
            i = i + 1;
        }
        true
    }

    /// Whether the probe for every key reaches the key's own slot, and if
    /// so how many slots are occupied
    #[verifier::rlimit(40)]
    fn probes_reach(self, heap: &Alloc) -> (r: Option<u64>)
        requires
            self.shape_ok(*heap),
        ensures
            r matches Some(c) ==> {
                &&& c == count_of(self.spec_slots(*heap))
                &&& forall|j: int| 0 <= j < self.spec_capacity(*heap) && (#[trigger] self.spec_slots(*heap)[j]) is Some ==>
                    probe_passed(self.spec_slots(*heap), key_of(self.spec_slots(*heap), j),
                        dist(home(key_of(self.spec_slots(*heap), j), self.spec_capacity(*heap) as int), j,
                            self.spec_capacity(*heap) as int))
            },
            r is None ==> !table_ok(self.spec_slots(*heap)),
    {
        proof { heap.lemma_wf_bounds(); }
        let t = heap.read_word(self.addr);
        let cap = heap.header_of(t).num_bytes() / SLOT_SIZE;
        let ghost s = self.spec_slots(*heap);
        let ghost n = cap as int;
        let mut count: u64 = 0;
        let mut i: u64 = 0;
        while i < cap
            invariant
                self.shape_ok(*heap),
                s == self.spec_slots(*heap),
                n == cap,
                t == self.spec_table(*heap),
                cap == self.spec_capacity(*heap),
                t % 8 == 0,
                t + cap * 16 <= heap.spec_bytes_used(),
                heap.spec_bytes_used() <= heap.words().len() * 8,
                heap.spec_bytes_used() <= crate::allocator::MAX_RESERVE,
                i <= cap,
                count == count_upto(s, i as int),
                count <= i,
                forall|j: int| 0 <= j < i && (#[trigger] s[j]) is Some ==>
                    probe_passed(s, key_of(s, j), dist(home(key_of(s, j), n), j, n)),
            decreases cap - i,
        {
            let kw = heap.read_word(t + 16 * i);
            assert(kw == self.key_word(*heap, i as int));
            if kw != 0 {
                assert(self.key_apart(*heap, Value(kw)));
                let bytes = match str_bytes(Value(kw), heap) {
                    Some(b) => b,
                    None => { return None; },
                };
                assert(s[i as int] is Some && key_of(s, i as int) == bytes@);
                match self.probe(heap, bytes.as_slice()) {
                    Probe::Found(j) => {
                        if j != i {
                            proof {
                                if table_ok(s) {
                                    assert(s[j as int] is Some && s[i as int] is Some);
                                }
                            }
                            return None;
                        }
                    },
                    Probe::Empty(j) => {
                        proof {
                            if table_ok(s) {
                                lemma_home_bounds(bytes@, n);
                                lemma_wrap_dist(home(bytes@, n), n);
                                lemma_probe_absent(s, bytes@, dist(home(bytes@, n), j as int, n));
                                assert(s[i as int] is Some);
                            }
                        }
                        return None;
                    },
                    Probe::Full => {
                        proof {
                            if table_ok(s) {
                                lemma_probe_absent(s, bytes@, n);
                                assert(s[i as int] is Some);
                            }
                        }
                        return None;
                    },
                }
                count = count + 1;
            } else {
                assert(s[i as int] is None);
            }
            i = i + 1;
        }
        Some(count)
    }

    /// The dictionary at a given address, if a well-formed one lies there
    pub fn at(heap: &Alloc, addr: u64) -> (r: Option<Dict>)
        requires
            heap.wf(),
        ensures
            r is Some <==> (Dict { addr }).valid_in(*heap),
            r matches Some(d) ==> d.addr == addr,
    {
        let d = Dict { addr };
        if !Self::shape_at(heap, addr) {
            return None;
        }
        let c = match d.probes_reach(heap) {
            Some(c) => c,
            None => { return None; },
        };
        proof { lemma_reached(d.spec_slots(*heap)); }
        let cap = d.capacity_of_shape(heap);
        if c >= cap || heap.header_of(addr).fixed_len() != c {
            return None;
        }
        Some(d)
    }

    fn capacity_of_shape(self, heap: &Alloc) -> (r: u64)
        requires
            self.shape_ok(*heap),
        ensures
            r == self.spec_capacity(*heap),
    {
        proof { heap.lemma_wf_bounds(); }
        let t = heap.read_word(self.addr);
        heap.header_of(t).num_bytes() / SLOT_SIZE
    }

    /// Whether the string a key word points at holds given bytes
    fn key_matches(heap: &Alloc, kw: u64, key: &[u8]) -> (r: bool)
        requires
            heap.wf(),
            Value(kw).points_into(*heap),
            Value(kw).spec_is_ptr_val(*heap, Tag::Str),
        ensures
            r == (spec_str_bytes(Value(kw), *heap) == key@),
    {
        let b = match str_bytes(Value(kw), heap) {
            Some(b) => b,
            None => { return false; }
        };
        if b.len() != key.len() {
            return false;
        }
        let mut i: usize = 0;
        while i < b.len()
            invariant
                b@.len() == key@.len(),
                b@ == spec_str_bytes(Value(kw), *heap),
                i <= b@.len(),
                forall|j: int| 0 <= j < i ==> b@[j] == key@[j],
            decreases b@.len() - i,
        {
            if b[i] != key[i] {
                assert(b@[i as int] != key@[i as int]);
                return false;
            }
            i = i + 1;
        }
        assert(b@ =~= key@);
        true
    }

    /// Look for a key: from its home slot, step over the slots holding
    /// other keys until the slot holding it, or an empty slot
    fn probe(self, heap: &Alloc, key: &[u8]) -> (r: Probe)
        requires
            self.shape_ok(*heap),
        ensures
            ({
                let s = self.spec_slots(*heap);
                let n = s.len() as int;
                match r {
                    Probe::Found(i) => i < n && s[i as int] is Some && key_of(s, i as int) == key@
                        && probe_passed(s, key@, dist(home(key@, n), i as int, n)),
                    Probe::Empty(i) => i < n && s[i as int] is None
                        && probe_passed(s, key@, dist(home(key@, n), i as int, n)),
                    Probe::Full => probe_passed(s, key@, n),
                }
            }),
    {
        let ghost s = self.spec_slots(*heap);
        proof { heap.lemma_wf_bounds(); }
        let t = heap.read_word(self.addr);
        let cap = heap.header_of(t).num_bytes() / SLOT_SIZE;
        let h = key_hash(key);
        let start = h % cap;
        proof {
            heap.lemma_wf_bounds();
            lemma_wrap_dist(start as int, cap as int);
        }
        let mut pos = start;
        let mut m: u64 = 0;
        while m < cap
            invariant
                self.shape_ok(*heap),
                s == self.spec_slots(*heap),
                cap == s.len(),
                t == self.spec_table(*heap),
                start == home(key@, cap as int),
                0 <= start < cap,
                m <= cap,
                pos == wrap(start as int, m as int, cap as int),
                probe_passed(s, key@, m as int),
                forall|x: int| 0 <= x < cap ==> 0 <= #[trigger] dist(start as int, x, cap as int) < cap
                    && wrap(start as int, dist(start as int, x, cap as int), cap as int) == x,
                forall|q: int| 0 <= q < cap ==> 0 <= #[trigger] wrap(start as int, q, cap as int) < cap
                    && dist(start as int, wrap(start as int, q, cap as int), cap as int) == q,
            decreases cap - m,
        {
            proof { heap.lemma_wf_bounds(); }
            assert(pos < cap);
            let kw = heap.read_word(t + 16 * pos);
            assert(kw == self.key_word(*heap, pos as int));
            if kw == 0 {
                assert(s[pos as int] is None);
                return Probe::Empty(pos);
            }
            assert(self.key_apart(*heap, Value(kw)));
            if Self::key_matches(heap, kw, key) {
                assert(dist(start as int, pos as int, cap as int) == m);
                return Probe::Found(pos);
            }
            assert(s[pos as int] is Some && key_of(s, pos as int) != key@);
            assert forall|q: int| 0 <= q < m + 1 implies {
                let x = #[trigger] wrap(start as int, q, cap as int);
                s[x] is Some && key_of(s, x) != key@
            } by {
                if q < m {
                    assert(s[wrap(start as int, q, cap as int)] is Some);
                }
            }
            pos = if pos + 1 == cap { 0 } else { pos + 1 };
            m = m + 1;
        }
        Probe::Full
    }

    /// The value stored under a key, if there is one
    pub fn get(self, heap: &Alloc, key: &[u8]) -> (r: Option<Value>)
        requires
            self.valid_in(*heap),
        ensures
            r == (if self.spec_entries(*heap).contains_key(key@) {
                Some(self.spec_entries(*heap)[key@])
            } else {
                None
            }),
    {
        let ghost s = self.spec_slots(*heap);
        proof { lemma_entries(s, s.len() as int); }
        match self.probe(heap, key) {
            Probe::Found(i) => {
                proof { heap.lemma_wf_bounds(); }
                let t = self.table(heap);
                Some(Value(heap.read_word(t + 16 * i + 8)))
            }
            Probe::Empty(i) => {
                proof {
                    let n = s.len() as int;
                    lemma_home_bounds(key@, n);
                    lemma_wrap_dist(home(key@, n), n);
                    lemma_probe_absent(s, key@, dist(home(key@, n), i as int, n));
                }
                None
            }
            Probe::Full => {
                proof { lemma_probe_absent(s, key@, s.len() as int); }
                None
            }
        }
    }

    /// Whether a key has a value stored under it
    pub fn has(self, heap: &Alloc, key: &[u8]) -> (r: bool)
        requires
            self.valid_in(*heap),
        ensures
            r == self.spec_entries(*heap).contains_key(key@),
    {
        self.get(heap, key).is_some()
    }

    /// Whether the next set grows the table first: when the entry would
    /// fill the last free slot, or the table is more than three quarters
    /// full
    fn will_allocate_on_set(self, heap: &Alloc) -> (r: bool)
        requires
            self.valid_in(*heap),
        ensures
            r == self.spec_will_grow(*heap),
    {
        let cap = self.capacity(heap);
        let len = self.len(heap);
        len + 1 == cap || 100 * len / cap > THRESHOLD
    }

    /// Bytes the next set may need for a bigger table, zero if it fits
    pub fn will_allocate(self, heap: &Alloc) -> (r: u64)
        requires
            self.valid_in(*heap),
        ensures
            r == if self.spec_will_grow(*heap) {
                HEADER_SIZE + spec_doubled(self.spec_capacity(*heap) as int) * 16
            } else {
                0
            },
    {
        if self.will_allocate_on_set(heap) {
            return HEADER_SIZE + (self.capacity(heap) + 1) * 2 * SLOT_SIZE;
        }
        0
    }

}

/// A read gives back what the last write under the same key stored, and
/// a write under one key leaves what every other key holds
pub proof fn law_get_after_set(d: Dict, h0: Alloc, h1: Alloc, key: Value, val: Value, other: Seq<u8>)
    requires
        d.valid_in(h0),
        d.key_apart(h0, key),
        d.valid_in(h1),
        d.spec_entries(h1) == d.spec_entries(h0).insert(spec_str_bytes(key, h0), val),
    ensures
        d.spec_entries(h1).contains_key(spec_str_bytes(key, h0)),
        d.spec_entries(h1)[spec_str_bytes(key, h0)] == val,
        other != spec_str_bytes(key, h0) ==> {
            &&& d.spec_entries(h1).contains_key(other) == d.spec_entries(h0).contains_key(other)
            &&& d.spec_entries(h1)[other] == d.spec_entries(h0)[other]
        },
{
}

} // verus!
