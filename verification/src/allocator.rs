use vstd::prelude::*;

verus! {

/// Initial size for a new heap. Kept small so that actors are cheap to
/// spawn, since each one owns a heap. Heaps grow as needed.
pub const INIT_SIZE: usize = 4 * 1024 * 1024;

/// Initial size of a message allocator. These grow on demand, so this
/// only has to cover ordinary message traffic.
pub const MSG_INIT_SIZE: usize = 2 * 1024 * 1024;

/// Address space reserved for a message allocator, which bounds how
/// large a single message can be
pub const MSG_RESERVE_SIZE: u64 = 0x4_0000_0000;

/// Alignment of every allocation
pub const ALIGN: u64 = 8;

/// Size of the header preceding every allocation
pub const HEADER_SIZE: u64 = 8;

/// Payload size of every fixed-layout block: one pointer or one value
pub const FIXED_SIZE: u64 = 8;

/// Largest values each header field can hold, checked where blocks are made
pub const MAX_AUX24: usize = 0xFF_FFFF;
pub const MAX_NUM_SLOTS: usize = 0xFFFF;
pub const MAX_FIXED_LEN: u64 = 0x3_FFFF_FFFF_FFFF;
pub const MAX_RAW_BYTES: u64 = 0x3FFF_FFFF_FFFF;

/// What kind of block an allocation holds. The collector needs this to
/// know which references live inside a block it has walked to.
///
/// The order matters: the tag also says how to read the rest of the
/// header, and the three layouts are told apart by comparing the tag's
/// code against those of `Object` and `Array`, so each group stays
/// contiguous. Codes run from 1 (`Str`) to 12 (`Float64`).
#[derive(Debug, Clone, Copy, PartialEq, Eq, Structural)]
pub enum Tag {
    // Raw blocks: the header holds the size in bytes
    Str,
    ValueTable,
    SlotTable,
    Bytes,
    // Blocks whose payload is a run of slots
    Object,
    Closure,
    // Blocks with an eight-byte payload, whose header holds a length
    Array,
    Dict,
    ByteArray,
    Cell,
    Int64,
    Float64,
}

/// Code of the first tag whose blocks are runs of slots
pub const FIRST_SLOTS: u8 = 5;
/// Code of the first tag whose blocks have a fixed eight-byte payload
pub const FIRST_FIXED: u8 = 7;
/// Code of the last tag
pub const LAST_TAG: u8 = 12;

pub open spec fn tag_code(t: Tag) -> u8 {
    match t {
        Tag::Str => 1,
        Tag::ValueTable => 2,
        Tag::SlotTable => 3,
        Tag::Bytes => 4,
        Tag::Object => 5,
        Tag::Closure => 6,
        Tag::Array => 7,
        Tag::Dict => 8,
        Tag::ByteArray => 9,
        Tag::Cell => 10,
        Tag::Int64 => 11,
        Tag::Float64 => 12,
    }
}

pub open spec fn tag_of_code(c: u8) -> Tag
    recommends
        1 <= c <= LAST_TAG,
{
    if c == 1 { Tag::Str }
    else if c == 2 { Tag::ValueTable }
    else if c == 3 { Tag::SlotTable }
    else if c == 4 { Tag::Bytes }
    else if c == 5 { Tag::Object }
    else if c == 6 { Tag::Closure }
    else if c == 7 { Tag::Array }
    else if c == 8 { Tag::Dict }
    else if c == 9 { Tag::ByteArray }
    else if c == 10 { Tag::Cell }
    else if c == 11 { Tag::Int64 }
    else { Tag::Float64 }
}

pub open spec fn is_raw_tag(t: Tag) -> bool {
    tag_code(t) < FIRST_SLOTS
}

pub open spec fn is_slots_tag(t: Tag) -> bool {
    FIRST_SLOTS <= tag_code(t) < FIRST_FIXED
}

pub open spec fn is_fixed_tag(t: Tag) -> bool {
    FIRST_FIXED <= tag_code(t)
}

impl Tag {
    /// Numeric code of the tag, as stored in a block header
    pub fn code(self) -> (r: u8)
        ensures
            r == tag_code(self),
            1 <= r <= LAST_TAG,
            tag_of_code(r) == self,
    {
        match self {
            Tag::Str => 1,
            Tag::ValueTable => 2,
            Tag::SlotTable => 3,
            Tag::Bytes => 4,
            Tag::Object => 5,
            Tag::Closure => 6,
            Tag::Array => 7,
            Tag::Dict => 8,
            Tag::ByteArray => 9,
            Tag::Cell => 10,
            Tag::Int64 => 11,
            Tag::Float64 => 12,
        }
    }

    /// The tag with a given code. Every code a live header can hold
    /// names a tag
    pub fn from_u8(val: u8) -> (r: Tag)
        requires
            1 <= val <= LAST_TAG,
        ensures
            tag_code(r) == val,
            r == tag_of_code(val),
    {
        if val == 1 { Tag::Str }
        else if val == 2 { Tag::ValueTable }
        else if val == 3 { Tag::SlotTable }
        else if val == 4 { Tag::Bytes }
        else if val == 5 { Tag::Object }
        else if val == 6 { Tag::Closure }
        else if val == 7 { Tag::Array }
        else if val == 8 { Tag::Dict }
        else if val == 9 { Tag::ByteArray }
        else if val == 10 { Tag::Cell }
        else if val == 11 { Tag::Int64 }
        else { Tag::Float64 }
    }
}

/// Round a size up to the allocation alignment
pub open spec fn spec_align_up(size: int) -> int {
    if size % 8 == 0 { size } else { size + (8 - size % 8) }
}

/// Round a size up to the allocation alignment
pub fn align_up(size: u64) -> (r: u64)
    requires
        size <= u64::MAX - 7,
    ensures
        r == spec_align_up(size as int),
        r % 8 == 0,
        size <= r < size + 8,
{
    let r = (size + 7) / 8 * 8;
    r
}

// Field extraction written with shifts and masks, as the header stores
// them, agrees with the arithmetic description the contracts use
proof fn lemma_header_fields(b: u64)
    ensures
        b & 1 == b % 2,
        (b >> 1) & 0x7F == (b / 2) % 128,
        (b >> 8) & 0x3FFF_FFFF_FFFF == (b / 256) % 0x4000_0000_0000,
        (b >> 8) & 0xFF_FFFF == (b / 256) % 0x100_0000,
        (b >> 32) & 0xFFFF == (b / 0x1_0000_0000) % 0x1_0000,
        (b >> 8) & 0x3_FFFF_FFFF_FFFF == (b / 256) % 0x4_0000_0000_0000,
        (b & 0xFFFF_FFFF) == b % 0x1_0000_0000,
        b >> 8 == b / 256,
{
    assert(b & 1 == b % 2
        && (b >> 1) & 0x7F == (b / 2) % 128
        && (b >> 8) & 0x3FFF_FFFF_FFFF == (b / 256) % 0x4000_0000_0000
        && (b >> 8) & 0xFF_FFFF == (b / 256) % 0x100_0000
        && (b >> 32) & 0xFFFF == (b / 0x1_0000_0000) % 0x1_0000
        && (b >> 8) & 0x3_FFFF_FFFF_FFFF == (b / 256) % 0x4_0000_0000_0000
        && (b & 0xFFFF_FFFF) == b % 0x1_0000_0000
        && b >> 8 == b / 256) by (bit_vector);
}

// Building a header with shifts and ORs agrees with the arithmetic
// description: the fields do not overlap
proof fn lemma_header_build(hi: u64, mid: u64, code: u64)
    requires
        hi < 0x1_0000,
        mid < 0x100_0000,
        code < 128,
    ensures
        (hi << 32) | (mid << 8) | (code << 1) | 1
            == hi * 0x1_0000_0000 + mid * 256 + code * 2 + 1,
{
    assert((hi << 32) | (mid << 8) | (code << 1) | 1
            == hi * 0x1_0000_0000 + mid * 256 + code * 2 + 1) by (bit_vector)
        requires
            hi < 0x1_0000u64,
            mid < 0x100_0000u64,
            code < 128u64;
}

proof fn lemma_header_build_len(len: u64, code: u64)
    requires
        len < 0x4_0000_0000_0000,
        code < 128,
    ensures
        (len << 8) | (code << 1) | 1 == len * 256 + code * 2 + 1,
{
    assert((len << 8) | (code << 1) | 1 == len * 256 + code * 2 + 1) by (bit_vector)
        requires
            len < 0x4_0000_0000_0000u64,
            code < 128u64;
}

/// Header word preceding every allocation.
///
/// Bit 0 set means the block is live. Bit 0 clear means the block has
/// been copied and the whole word is the address the payload moved to.
/// A live header carries the tag's code in bits 1..8 and, per layout:
///
/// ```text
/// raw    bytes asked for in bits 8..54
/// slots  class or function id in bits 8..32, slot count in bits 32..48
/// fixed  length in bits 8..58
/// ```
///
/// Bits 58..64 are left for a future collector.
#[derive(Debug, Clone, Copy, PartialEq, Eq, Structural)]
pub struct Header(pub u64);

/// The header word of a live raw block
pub open spec fn raw_word(code: u8, num_bytes: nat) -> int {
    num_bytes * 256 + code * 2 + 1
}

/// The header word of a live block of slots
pub open spec fn slots_word(code: u8, aux24: nat, num_slots: nat) -> int {
    num_slots * 0x1_0000_0000 + aux24 * 256 + code * 2 + 1
}

/// The header word of a live fixed-layout block
pub open spec fn fixed_word(code: u8, len: nat) -> int {
    len * 256 + code * 2 + 1
}

impl Header {
    pub open spec fn word(self) -> u64 {
        self.0
    }

    /// The header with a given word
    pub fn from_word(w: u64) -> (r: Header)
        ensures
            r.word() == w,
    {
        Header(w)
    }

    pub fn to_word(self) -> (r: u64)
        ensures
            r == self.word(),
    {
        self.0
    }

    pub open spec fn spec_is_forwarded(self) -> bool {
        self.word() % 2 == 0
    }

    pub open spec fn spec_tag_code(self) -> u8 {
        ((self.word() / 2) % 128) as u8
    }

    /// A live header whose tag code names a tag
    pub open spec fn is_valid(self) -> bool {
        &&& !self.spec_is_forwarded()
        &&& 1 <= self.spec_tag_code() <= LAST_TAG
    }

    pub open spec fn spec_tag(self) -> Tag {
        tag_of_code(self.spec_tag_code())
    }

    pub open spec fn spec_num_bytes(self) -> nat {
        ((self.word() / 256) % 0x4000_0000_0000) as nat
    }

    pub open spec fn spec_aux24(self) -> nat {
        ((self.word() / 256) % 0x100_0000) as nat
    }

    pub open spec fn spec_num_slots(self) -> nat {
        ((self.word() / 0x1_0000_0000) % 0x1_0000) as nat
    }

    pub open spec fn spec_fixed_len(self) -> nat {
        ((self.word() / 256) % 0x4_0000_0000_0000) as nat
    }

    /// Payload size in bytes, rounded up to the alignment
    pub open spec fn spec_size(self) -> nat {
        let t = self.spec_tag_code();
        if t < FIRST_SLOTS {
            spec_align_up(self.spec_num_bytes() as int) as nat
        } else if t < FIRST_FIXED {
            self.spec_num_slots() * 8
        } else {
            FIXED_SIZE as nat
        }
    }

    /// Header for a raw block holding a given number of bytes. The count
    /// is the exact byte length asked for, not the rounded block size.
    pub fn new_raw(tag: Tag, num_bytes: u64) -> (r: Header)
        requires
            is_raw_tag(tag),
            num_bytes <= MAX_RAW_BYTES,
        ensures
            r.word() == raw_word(tag_code(tag), num_bytes as nat),
            r.is_valid(),
            r.spec_tag() == tag,
            r.spec_num_bytes() == num_bytes,
            r.spec_size() == spec_align_up(num_bytes as int),
    {
        let code = tag.code();
        proof {
            lemma_header_build_len(num_bytes, code as u64);
        }
        let w = (num_bytes << 8) | ((code as u64) << 1) | 1;
        Header(w)
    }

    /// Header for a block of slots, tagged with the class or function
    /// the slots belong to
    pub fn new_slots(tag: Tag, aux24: usize, num_slots: usize) -> (r: Header)
        requires
            is_slots_tag(tag),
            aux24 <= MAX_AUX24,
            num_slots <= MAX_NUM_SLOTS,
        ensures
            r.word() == slots_word(tag_code(tag), aux24 as nat, num_slots as nat),
            r.is_valid(),
            r.spec_tag() == tag,
            r.spec_aux24() == aux24,
            r.spec_num_slots() == num_slots,
            r.spec_size() == num_slots * 8,
    {
        let code = tag.code();
        proof {
            lemma_header_build(num_slots as u64, aux24 as u64, code as u64);
        }
        let w = ((num_slots as u64) << 32) | ((aux24 as u64) << 8) | ((code as u64) << 1) | 1;
        Header(w)
    }

    /// Header for an eight-byte block, whose header holds a length
    /// rather than a size
    pub fn new_fixed(tag: Tag, len: u64) -> (r: Header)
        requires
            is_fixed_tag(tag),
            len <= MAX_FIXED_LEN,
        ensures
            r.word() == fixed_word(tag_code(tag), len as nat),
            r.is_valid(),
            r.spec_tag() == tag,
            r.spec_fixed_len() == len,
            r.spec_size() == FIXED_SIZE,
    {
        let code = tag.code();
        proof {
            lemma_header_build_len(len, code as u64);
        }
        let w = (len << 8) | ((code as u64) << 1) | 1;
        Header(w)
    }

    /// Header recording that a block has been copied, and where its
    /// payload moved to
    pub fn forwarding(new_addr: u64) -> (r: Header)
        requires
            new_addr % 8 == 0,
        ensures
            r.word() == new_addr,
            r.spec_is_forwarded(),
            r.spec_forward_addr() == new_addr,
    {
        Header(new_addr)
    }

    pub fn is_forwarded(&self) -> (r: bool)
        ensures
            r == self.spec_is_forwarded(),
    {
        proof { lemma_header_fields(self.0); }
        self.0 & 1 == 0
    }

    pub open spec fn spec_forward_addr(self) -> u64 {
        self.word()
    }

    /// Address the payload moved to. Only meaningful if the block is
    /// forwarded.
    pub fn forward_addr(&self) -> (r: u64)
        requires
            self.spec_is_forwarded(),
        ensures
            r == self.spec_forward_addr(),
    {
        self.0
    }

    fn tag_u8(&self) -> (r: u8)
        ensures
            r == self.spec_tag_code(),
    {
        proof { lemma_header_fields(self.0); }
        ((self.0 >> 1) & 0x7F) as u8
    }

    pub fn tag(&self) -> (r: Tag)
        requires
            self.is_valid(),
        ensures
            r == self.spec_tag(),
            tag_code(r) == self.spec_tag_code(),
    {
        Tag::from_u8(self.tag_u8())
    }

    /// Payload size in bytes, rounded up to the alignment
    pub fn size(&self) -> (r: u64)
        requires
            !self.spec_is_forwarded(),
        ensures
            r == self.spec_size(),
    {
        proof { lemma_header_fields(self.0); }
        let t = self.tag_u8();
        let raw = (self.0 >> 8) & 0x3FFF_FFFF_FFFF;
        let slots = (self.0 >> 32) & 0xFFFF;

        if t < FIRST_SLOTS {
            align_up(raw)
        } else if t < FIRST_FIXED {
            slots * 8
        } else {
            FIXED_SIZE
        }
    }

    /// Bytes a raw block was asked for, before the rounding up to a
    /// word that size() reports
    pub fn num_bytes(&self) -> (r: u64)
        ensures
            r == self.spec_num_bytes(),
    {
        proof { lemma_header_fields(self.0); }
        (self.0 >> 8) & 0x3FFF_FFFF_FFFF
    }

    /// The class or function id of a block of slots
    pub fn aux24(&self) -> (r: usize)
        ensures
            r == self.spec_aux24(),
    {
        proof { lemma_header_fields(self.0); }
        ((self.0 >> 8) & 0xFF_FFFF) as usize
    }

    pub fn num_slots(&self) -> (r: usize)
        ensures
            r == self.spec_num_slots(),
    {
        proof { lemma_header_fields(self.0); }
        ((self.0 >> 32) & 0xFFFF) as usize
    }

    pub fn fixed_len(&self) -> (r: u64)
        ensures
            r == self.spec_fixed_len(),
    {
        proof { lemma_header_fields(self.0); }
        (self.0 >> 8) & 0x3_FFFF_FFFF_FFFF
    }

    /// Same header with a new length, for a fixed-layout block
    pub fn with_fixed_len(self, len: u64) -> (r: Header)
        requires
            self.is_valid(),
            is_fixed_tag(self.spec_tag()),
            len <= MAX_FIXED_LEN,
        ensures
            r.is_valid(),
            r.spec_tag() == self.spec_tag(),
            r.spec_fixed_len() == len,
    {
        Header::new_fixed(self.tag(), len)
    }

    pub open spec fn spec_guard_key(self) -> u32 {
        (self.word() % 0x1_0000_0000) as u32
    }

    /// The low half of a slots header: the tag and the class or function
    /// id together
    pub fn guard_key(&self) -> (r: u32)
        ensures
            r == self.spec_guard_key(),
    {
        proof { lemma_header_fields(self.0); }
        (self.0 & 0xFFFF_FFFF) as u32
    }

    /// The key every object of a given class has
    pub fn object_key(class_id: usize) -> (r: u32)
        requires
            class_id <= MAX_AUX24,
        ensures
            r == class_id * 256 + tag_code(Tag::Object) * 2 + 1,
    {
        Header::new_slots(Tag::Object, class_id, 0).guard_key()
    }

    /// The class an object key was built from
    pub fn class_id_of_key(key: u32) -> (r: usize)
        ensures
            r == key / 256,
    {
        proof { lemma_header_fields(key as u64); }
        (key >> 8) as usize
    }
}

/// Every object of a class has the same guard key, whatever its number
/// of slots, and the class can be read back from the key
pub proof fn law_object_guard_key(class_id: nat, num_slots: nat)
    requires
        class_id <= MAX_AUX24,
        num_slots <= MAX_NUM_SLOTS,
    ensures
        Header(slots_word(tag_code(Tag::Object), class_id, num_slots) as u64).spec_guard_key()
            == class_id * 256 + tag_code(Tag::Object) * 2 + 1,
        (class_id * 256 + tag_code(Tag::Object) * 2 + 1) / 256 == class_id,
{
}

/// Round a size up to a multiple of the page size
pub open spec fn spec_page_round_up(size: int, page_size: int) -> int {
    if size % page_size == 0 { size } else { size + (page_size - size % page_size) }
}

pub proof fn lemma_round_up(size: int, p: int)
    requires
        p > 0,
        size >= 0,
    ensures
        spec_page_round_up(size, p) % p == 0,
        size <= spec_page_round_up(size, p) < size + p,
{
    if size % p != 0 {
        assert((size + (p - size % p)) % p == 0) by (nonlinear_arith)
            requires p > 0, size % p != 0;
    }
}

pub proof fn lemma_round_up_monotonic(a: int, b: int, p: int)
    requires
        p > 0,
        0 <= a <= b,
    ensures
        spec_page_round_up(a, p) <= spec_page_round_up(b, p),
{
    lemma_round_up(a, p);
    lemma_round_up(b, p);
    let ra = spec_page_round_up(a, p);
    let rb = spec_page_round_up(b, p);
    // Both are multiples of p, and rb >= b >= a > ra - p
    assert(ra <= rb) by (nonlinear_arith)
        requires
            ra % p == 0,
            rb % p == 0,
            ra < a + p,
            a <= b,
            b <= rb,
            p > 0;
}

pub proof fn lemma_multiple_of_page_is_aligned(x: int, p: int)
    requires
        p > 0,
        p % 8 == 0,
        x % p == 0,
    ensures
        x % 8 == 0,
{
    let k = x / p;
    let j = p / 8;
    vstd::arithmetic::div_mod::lemma_fundamental_div_mod(x, p);
    vstd::arithmetic::div_mod::lemma_fundamental_div_mod(p, 8);
    assert(x == 8 * (j * k)) by {
        vstd::arithmetic::mul::lemma_mul_is_associative(8, j, k);
    }
    vstd::arithmetic::div_mod::lemma_mod_multiples_basic(j * k, 8);
    vstd::arithmetic::mul::lemma_mul_is_commutative(j * k, 8);
}

/// Round a size up to a multiple of the page size
pub fn page_round_up(size: u64, page_size: u64) -> (r: u64)
    requires
        page_size > 0,
        size + page_size <= u64::MAX,
    ensures
        r == spec_page_round_up(size as int, page_size as int),
        r % page_size == 0,
        size <= r < size + page_size,
{
    proof { lemma_round_up(size as int, page_size as int); }
    let rem = size % page_size;

    if rem == 0 {
        size
    } else {
        size + (page_size - rem)
    }
}

/// Largest address range an allocator reserves
pub const MAX_RESERVE: u64 = 0x1_0000_0000_0000;

/// A bump allocator over a reserved range of memory.
///
/// The range is reserved up front, and the part of it that is
/// committed, `mem`, grows and shrinks within the reservation. Addresses
/// are byte offsets into the range: every block is a header word
/// followed by its payload, blocks sit back to back from offset zero,
/// and a block is named by the address of its payload, which is never
/// zero. Committed memory that nothing has been allocated in reads back
/// as zero.
pub struct Alloc {
    // The committed words of the range
    mem: Vec<u64>,

    // Size of the reserved address range
    reserve_size: u64,

    // System page size, which commits are rounded to
    page_size: u64,

    // Whether allocation may commit more memory on demand. Message
    // allocators do; heaps do not, because the collector decides when
    // they grow.
    growable: bool,

    next_idx: u64,
}

impl Alloc {
    /// The committed memory, one 64-bit word per eight bytes
    pub closed spec fn words(self) -> Seq<u64> {
        self.mem@
    }

    pub closed spec fn spec_mem_size(self) -> nat {
        self.mem@.len() * 8
    }

    pub closed spec fn spec_reserve_size(self) -> nat {
        self.reserve_size as nat
    }

    pub closed spec fn spec_page_size(self) -> nat {
        self.page_size as nat
    }

    pub closed spec fn spec_growable(self) -> bool {
        self.growable
    }

    pub closed spec fn spec_bytes_used(self) -> nat {
        self.next_idx as nat
    }

    pub closed spec fn wf(self) -> bool {
        &&& self.page_size > 0
        &&& self.page_size <= MAX_RESERVE
        &&& self.page_size % 8 == 0
        &&& self.reserve_size <= MAX_RESERVE
        &&& self.reserve_size / 8 <= usize::MAX
        &&& self.reserve_size % self.page_size == 0
        &&& self.mem@.len() * 8 <= self.reserve_size
        &&& (self.mem@.len() * 8) % (self.page_size as nat) == 0
        &&& self.next_idx % 8 == 0
        &&& self.next_idx <= self.mem@.len() * 8
    }

    /// The word holding a given byte address
    pub open spec fn word_at(self, addr: int) -> u64 {
        self.words()[addr / 8]
    }

    /// Whether a payload address names a block allocated in this heap
    pub open spec fn has_block(self, payload: int) -> bool {
        &&& payload % 8 == 0
        &&& payload >= 8
        &&& payload - 8 < self.spec_bytes_used()
    }

    /// The header of the block whose payload is at a given address
    pub open spec fn spec_header_of(self, payload: int) -> Header {
        Header(self.word_at(payload - 8))
    }

    /// Whether a payload address names a live block of a given tag
    pub open spec fn has_block_of(self, payload: int, tag: Tag) -> bool {
        &&& self.has_block(payload)
        &&& self.spec_header_of(payload).is_valid()
        &&& self.spec_header_of(payload).spec_tag() == tag
    }

    /// Whether the payload of a block lies inside the committed memory
    pub open spec fn payload_in_bounds(self, payload: int, num_words: int) -> bool {
        payload % 8 == 0 && payload >= 8 && payload + num_words * 8 <= self.spec_bytes_used()
    }

    pub proof fn lemma_wf_bounds(self)
        requires
            self.wf(),
        ensures
            self.spec_mem_size() <= MAX_RESERVE,
            self.spec_bytes_used() <= self.spec_mem_size(),
            self.spec_mem_size() == self.words().len() * 8,
            self.spec_bytes_used() % 8 == 0,
            self.spec_page_size() > 0,
            self.spec_page_size() % 8 == 0,
            self.spec_reserve_size() % self.spec_page_size() == 0,
            self.spec_mem_size() <= self.spec_reserve_size(),
    {
    }

    /// Allocator over a fresh reservation of a given size, with a given
    /// amount of it committed
    fn with_reserve(mem_size_bytes: u64, reserve_size: u64, growable: bool, page_size: u64) -> (r: Self)
        requires
            page_size > 0,
            page_size % 8 == 0,
            page_size <= MAX_RESERVE,
            reserve_size <= MAX_RESERVE - page_size,
            spec_page_round_up(reserve_size as int, page_size as int) / 8 <= usize::MAX,
            spec_page_round_up(mem_size_bytes as int, page_size as int)
                <= spec_page_round_up(reserve_size as int, page_size as int),
        ensures
            r.wf(),
            r.spec_bytes_used() == 0,
            r.spec_mem_size() == spec_page_round_up(mem_size_bytes as int, page_size as int),
            r.spec_reserve_size() == spec_page_round_up(reserve_size as int, page_size as int),
            r.spec_page_size() == page_size,
            r.spec_growable() == growable,
            forall|i: int| 0 <= i < r.words().len() ==> r.words()[i] == 0,
    {
        proof { lemma_round_up(reserve_size as int, page_size as int); }
        let reserve_size = page_round_up(reserve_size, page_size);

        let mut alloc = Alloc {
            mem: Vec::new(),
            reserve_size,
            page_size,
            growable,
            next_idx: 0,
        };

        alloc.grow(mem_size_bytes);
        alloc
    }

    /// A heap of the default initial size, given the system page size
    pub fn new(page_size: u64) -> (r: Self)
        requires
            page_size > 0,
            page_size % 8 == 0,
            page_size <= INIT_SIZE,
            (2 * INIT_SIZE + page_size) / 8 <= usize::MAX,
        ensures
            r.wf(),
            r.spec_bytes_used() == 0,
            r.spec_mem_size() == spec_page_round_up(INIT_SIZE as int, page_size as int),
            !r.spec_growable(),
    {
        Self::with_size(INIT_SIZE as u64, page_size)
    }

    /// Allocator for incoming messages. These grow on demand as messages
    /// are copied in, and are reset once the receiver has drained them.
    pub fn for_messages(page_size: u64) -> (r: Self)
        requires
            page_size > 0,
            page_size % 8 == 0,
            page_size <= MSG_INIT_SIZE,
            (MSG_RESERVE_SIZE + page_size) / 8 <= usize::MAX,
        ensures
            r.wf(),
            r.spec_bytes_used() == 0,
            r.spec_mem_size() == spec_page_round_up(MSG_INIT_SIZE as int, page_size as int),
            r.spec_reserve_size() == spec_page_round_up(MSG_RESERVE_SIZE as int, page_size as int),
            r.spec_growable(),
    {
        proof {
            lemma_round_up_monotonic(MSG_INIT_SIZE as int, MSG_RESERVE_SIZE as int, page_size as int);
            lemma_round_up(MSG_RESERVE_SIZE as int, page_size as int);
        }
        Self::with_reserve(MSG_INIT_SIZE as u64, MSG_RESERVE_SIZE, true, page_size)
    }

    /// Heap with a given initial size. Twice that is reserved, so that
    /// the heap has room to grow in place.
    pub fn with_size(mem_size_bytes: u64, page_size: u64) -> (r: Self)
        requires
            page_size > 0,
            page_size % 8 == 0,
            page_size <= mem_size_bytes || mem_size_bytes == 0,
            page_size <= MAX_RESERVE / 4,
            mem_size_bytes <= MAX_RESERVE / 4,
            (2 * mem_size_bytes + page_size) / 8 <= usize::MAX,
        ensures
            r.wf(),
            r.spec_bytes_used() == 0,
            r.spec_mem_size() == spec_page_round_up(mem_size_bytes as int, page_size as int),
            r.spec_reserve_size() == spec_page_round_up(2 * mem_size_bytes, page_size as int),
            !r.spec_growable(),
            forall|i: int| 0 <= i < r.words().len() ==> r.words()[i] == 0,
    {
        proof {
            lemma_round_up_monotonic(mem_size_bytes as int, 2 * mem_size_bytes, page_size as int);
            lemma_round_up(2 * mem_size_bytes, page_size as int);
        }
        Self::with_reserve(mem_size_bytes, 2 * mem_size_bytes, false, page_size)
    }

    pub fn mem_size(&self) -> (r: u64)
        requires
            self.wf(),
        ensures
            r == self.spec_mem_size(),
    {
        (self.mem.len() as u64) * 8
    }

    pub fn bytes_used(&self) -> (r: u64)
        ensures
            r == self.spec_bytes_used(),
    {
        self.next_idx
    }

    pub fn bytes_free(&self) -> (r: u64)
        requires
            self.wf(),
        ensures
            r == self.spec_mem_size() - self.spec_bytes_used(),
    {
        (self.mem.len() as u64) * 8 - self.next_idx
    }

    /// Size of the reserved address range
    pub fn reserve_size(&self) -> (r: u64)
        ensures
            r == self.spec_reserve_size(),
    {
        self.reserve_size
    }

    /// Grow the accessible memory to at least a given size. Existing
    /// allocations keep their addresses, and the newly committed memory
    /// is zeroed.
    pub fn grow(&mut self, new_size: u64)
        requires
            old(self).wf(),
            spec_page_round_up(new_size as int, old(self).spec_page_size() as int)
                <= old(self).spec_reserve_size(),
        ensures
            final(self).wf(),
            final(self).spec_mem_size() == if spec_page_round_up(new_size as int, old(self).spec_page_size() as int)
                <= old(self).spec_mem_size() {
                old(self).spec_mem_size() as int
            } else {
                spec_page_round_up(new_size as int, old(self).spec_page_size() as int)
            },
            final(self).spec_bytes_used() == old(self).spec_bytes_used(),
            final(self).spec_reserve_size() == old(self).spec_reserve_size(),
            final(self).spec_page_size() == old(self).spec_page_size(),
            final(self).spec_growable() == old(self).spec_growable(),
            old(self).words().len() <= final(self).words().len(),
            forall|i: int| 0 <= i < old(self).words().len() ==> final(self).words()[i] == old(self).words()[i],
            forall|i: int| old(self).words().len() <= i < final(self).words().len() ==> final(self).words()[i] == 0,
    {
        let ghost old_mem = self.mem@;
        proof { lemma_round_up(new_size as int, self.page_size as int); }
        let new_size = page_round_up(new_size, self.page_size);
        proof {
            lemma_round_up(new_size as int, self.page_size as int);
            lemma_multiple_of_page_is_aligned(new_size as int, self.page_size as int);
        }
        let cur_size = (self.mem.len() as u64) * 8;

        if new_size <= cur_size {
            return;
        }

        // Newly committed words read back as zero
        let target = (new_size / 8) as usize;
        while self.mem.len() < target
            invariant
                target == new_size / 8,
                new_size <= old(self).reserve_size,
                old(self).wf(),
                self.reserve_size == old(self).reserve_size,
                self.page_size == old(self).page_size,
                self.growable == old(self).growable,
                self.next_idx == old(self).next_idx,
                old_mem.len() <= self.mem@.len() <= target,
                forall|i: int| 0 <= i < old_mem.len() ==> self.mem@[i] == old_mem[i],
                forall|i: int| old_mem.len() <= i < self.mem@.len() ==> self.mem@[i] == 0,
                old_mem == old(self).mem@,
            decreases target - self.mem.len(),
        {
            self.mem.push(0);
        }
    }

    /// Grow the reserved address space to at least a given size.
    ///
    /// This replaces the reservation, which moves the memory block, so it
    /// is only legal while the allocator is empty. Everything committed
    /// is discarded.
    pub fn grow_reserve(&mut self, new_reserve: u64)
        requires
            old(self).wf(),
            new_reserve > old(self).spec_reserve_size() ==> old(self).spec_bytes_used() == 0,
            new_reserve <= MAX_RESERVE - old(self).spec_page_size(),
            spec_page_round_up(new_reserve as int, old(self).spec_page_size() as int) / 8 <= usize::MAX,
        ensures
            final(self).wf(),
            new_reserve <= old(self).spec_reserve_size() ==> *final(self) == *old(self),
            new_reserve > old(self).spec_reserve_size() ==> {
                &&& final(self).spec_reserve_size() == spec_page_round_up(new_reserve as int, old(self).spec_page_size() as int)
                &&& new_reserve <= final(self).spec_reserve_size() < new_reserve + old(self).spec_page_size()
                &&& final(self).spec_mem_size() == 0
                &&& final(self).spec_bytes_used() == 0
                &&& final(self).spec_page_size() == old(self).spec_page_size()
                &&& final(self).spec_growable() == old(self).spec_growable()
            },
    {
        if new_reserve <= self.reserve_size {
            return;
        }

        proof { lemma_round_up(new_reserve as int, self.page_size as int); }
        let new_reserve = page_round_up(new_reserve, self.page_size);

        // The allocator is empty, so the only thing lost is memory we
        // would have had to zero before reusing anyway
        self.mem = Vec::new();
        self.reserve_size = new_reserve;
    }

    /// Shrink the available memory to a smaller size, releasing it.
    /// What is released reads back as zero if committed again.
    pub fn shrink_to(&mut self, new_size: u64)
        requires
            old(self).wf(),
            new_size <= old(self).spec_mem_size(),
            old(self).spec_bytes_used() <= new_size,
        ensures
            final(self).wf(),
            final(self).spec_mem_size() == if spec_page_round_up(new_size as int, old(self).spec_page_size() as int)
                >= old(self).spec_mem_size() {
                old(self).spec_mem_size() as int
            } else {
                spec_page_round_up(new_size as int, old(self).spec_page_size() as int)
            },
            final(self).words() == old(self).words().take(final(self).words().len() as int),
            final(self).spec_bytes_used() == old(self).spec_bytes_used(),
            final(self).spec_reserve_size() == old(self).spec_reserve_size(),
            final(self).spec_page_size() == old(self).spec_page_size(),
            final(self).spec_growable() == old(self).spec_growable(),
    {
        proof { lemma_round_up(new_size as int, self.page_size as int); }
        let new_size = page_round_up(new_size, self.page_size);
        proof { lemma_multiple_of_page_is_aligned(new_size as int, self.page_size as int); }

        if new_size >= (self.mem.len() as u64) * 8 {
            return;
        }

        self.mem.truncate((new_size / 8) as usize);
    }

    /// Discard all allocations, leaving the memory as it was. What a
    /// later copy does not overwrite has to be cleared with zero_up_to.
    pub fn reset(&mut self)
        requires
            old(self).wf(),
        ensures
            final(self).wf(),
            final(self).spec_bytes_used() == 0,
            final(self).words() == old(self).words(),
            final(self).spec_reserve_size() == old(self).spec_reserve_size(),
            final(self).spec_page_size() == old(self).spec_page_size(),
            final(self).spec_growable() == old(self).spec_growable(),
    {
        self.next_idx = 0;
    }

    /// Zero the bytes between the allocation point and a given offset,
    /// clamped to the committed memory
    pub fn zero_up_to(&mut self, end: u64)
        requires
            old(self).wf(),
        ensures
            final(self).wf(),
            final(self).spec_bytes_used() == old(self).spec_bytes_used(),
            final(self).words().len() == old(self).words().len(),
            final(self).spec_reserve_size() == old(self).spec_reserve_size(),
            final(self).spec_page_size() == old(self).spec_page_size(),
            final(self).spec_growable() == old(self).spec_growable(),
            forall|i: int| 0 <= i < final(self).words().len() ==> {
                let lo = old(self).spec_bytes_used() / 8;
                let w = #[trigger] final(self).words()[i];
                let hi = if end <= old(self).spec_mem_size() { end as int / 8 } else { old(self).words().len() as int };
                if lo <= i < hi {
                    w == 0
                } else if i == hi && i >= lo && end <= old(self).spec_mem_size() {
                    w == old(self).words()[i] & !sub_byte_mask(end as int % 8)
                } else {
                    w == old(self).words()[i]
                }
            },
    {
        let mem_size = (self.mem.len() as u64) * 8;
        let end = if end < mem_size { end } else { mem_size };
        proof { lemma_mask_none(); }

        if end <= self.next_idx {
            return;
        }

        let lo = (self.next_idx / 8) as usize;
        let hi = (end / 8) as usize;
        let mut i = lo;
        while i < hi
            invariant
                lo <= i <= hi,
                hi <= self.mem@.len(),
                self.mem@.len() == old(self).mem@.len(),
                self.next_idx == old(self).next_idx,
                self.reserve_size == old(self).reserve_size,
                self.page_size == old(self).page_size,
                self.growable == old(self).growable,
                forall|j: int| 0 <= j < self.mem@.len() ==>
                    self.mem@[j] == if lo <= j < i { 0 } else { old(self).mem@[j] },
            decreases hi - i,
        {
            self.mem.set(i, 0);
            i = i + 1;
        }

        // Clear the low bytes of a word that the range ends inside
        let rem = end % 8;
        if rem != 0 && hi < self.mem.len() {
            let w = self.mem[hi];
            self.mem.set(hi, w & !byte_mask(rem));
        }
    }

    /// Payload address of the block starting at a given byte offset.
    /// The collector uses this to walk the heap block by block.
    pub fn block_at(&self, offset: u64) -> (r: u64)
        requires
            offset + HEADER_SIZE <= self.spec_bytes_used(),
        ensures
            r == offset + HEADER_SIZE,
    {
        offset + HEADER_SIZE
    }

    /// Whether an address is the payload of a block in this heap. An
    /// empty block has its payload one past the last byte allocated, so
    /// it is the header that has to be inside the region.
    pub fn contains(&self, p: u64) -> (r: bool)
        ensures
            r == (p >= HEADER_SIZE && p - HEADER_SIZE < self.spec_bytes_used()),
    {
        p >= HEADER_SIZE && p - HEADER_SIZE < self.next_idx
    }

    /// Whether a block with a given payload size can be carved out,
    /// committing more memory first if this allocator may grow
    pub open spec fn can_bump(self, size_bytes: int) -> bool {
        let next = self.spec_bytes_used() + HEADER_SIZE + size_bytes;
        ||| next <= self.spec_mem_size()
        ||| (self.spec_growable() && spec_page_round_up(
                if next > 2 * self.spec_mem_size() { next } else { 2 * self.spec_mem_size() as int },
                self.spec_page_size() as int) <= self.spec_reserve_size())
    }

    /// What a bump of a given block leaves the allocator with, where the
    /// first `written` words of the payload may have been written since
    pub open spec fn bumped_then_written(self, new: Alloc, size_bytes: int, hdr: Header, r: u64, written: int) -> bool {
        &&& new.wf()
        &&& r == self.spec_bytes_used() + HEADER_SIZE
        &&& new.spec_bytes_used() == r + size_bytes
        &&& new.spec_reserve_size() == self.spec_reserve_size()
        &&& new.spec_page_size() == self.spec_page_size()
        &&& new.spec_growable() == self.spec_growable()
        &&& self.words().len() <= new.words().len()
        &&& new.word_at(r - HEADER_SIZE) == hdr.word()
        &&& forall|i: int| 0 <= i < new.words().len() && i != (r - HEADER_SIZE) / 8
                && !(r / 8 <= i < r / 8 + written) ==>
                #[trigger] new.words()[i] == if i < self.words().len() { self.words()[i] } else { 0 }
    }

    /// What a bump of a given block leaves the allocator with
    pub open spec fn bumped(self, new: Alloc, size_bytes: int, hdr: Header, r: u64) -> bool {
        self.bumped_then_written(new, size_bytes, hdr, r, 0)
    }

    /// Carve a block of a given payload size out of the heap and put a
    /// header in front of it. Sizes are multiples of the alignment, so
    /// blocks sit back to back with no gaps, which lets the collector
    /// walk the heap one header at a time. A heap does not grow here:
    /// callers make room first, and only a message allocator commits more
    /// memory on demand.
    fn bump(&mut self, size_bytes: u64, hdr: Header) -> (r: u64)
        requires
            old(self).wf(),
            size_bytes % 8 == 0,
            size_bytes <= MAX_RESERVE,
            old(self).can_bump(size_bytes as int),
        ensures
            old(self).bumped(*final(self), size_bytes as int, hdr, r),
            old(self).spec_bytes_used() + HEADER_SIZE + size_bytes <= old(self).spec_mem_size()
                ==> final(self).spec_mem_size() == old(self).spec_mem_size(),
    {
        let obj_pos = self.next_idx + HEADER_SIZE;
        let next_idx = obj_pos + size_bytes;
        let mem_size = (self.mem.len() as u64) * 8;

        if next_idx > mem_size {
            let target = if next_idx > 2 * mem_size { next_idx } else { 2 * mem_size };
            self.grow(target);
            proof {
                lemma_round_up(target as int, self.page_size as int);
            }
        }

        self.next_idx = next_idx;
        self.mem.set(((obj_pos - HEADER_SIZE) / 8) as usize, hdr.0);
        obj_pos
    }

    /// Allocate a raw block: a string's inline bytes, or a table
    pub fn alloc_raw(&mut self, tag: Tag, num_bytes: u64) -> (r: u64)
        requires
            old(self).wf(),
            is_raw_tag(tag),
            num_bytes <= MAX_RAW_BYTES,
            old(self).can_bump(spec_align_up(num_bytes as int)),
        ensures
            old(self).bumped(*final(self), spec_align_up(num_bytes as int), Header(raw_word(tag_code(tag), num_bytes as nat) as u64), r),
            final(self).has_block_of(r as int, tag),
            final(self).spec_header_of(r as int).spec_num_bytes() == num_bytes,
            old(self).spec_bytes_used() + HEADER_SIZE + spec_align_up(num_bytes as int) <= old(self).spec_mem_size()
                ==> final(self).spec_mem_size() == old(self).spec_mem_size(),
    {
        let hdr = Header::new_raw(tag, num_bytes);
        self.bump(align_up(num_bytes), hdr)
    }

    /// Allocate a block of slots, tagged with the class or function id
    /// the slots belong to
    pub fn alloc_slots(&mut self, tag: Tag, aux24: usize, num_slots: usize) -> (r: u64)
        requires
            old(self).wf(),
            is_slots_tag(tag),
            aux24 <= MAX_AUX24,
            num_slots <= MAX_NUM_SLOTS,
            old(self).can_bump(num_slots * 8),
        ensures
            old(self).bumped(*final(self), num_slots * 8, Header(slots_word(tag_code(tag), aux24 as nat, num_slots as nat) as u64), r),
            final(self).has_block_of(r as int, tag),
            final(self).spec_header_of(r as int).spec_aux24() == aux24,
            final(self).spec_header_of(r as int).spec_num_slots() == num_slots,
            old(self).spec_bytes_used() + HEADER_SIZE + num_slots * 8 <= old(self).spec_mem_size()
                ==> final(self).spec_mem_size() == old(self).spec_mem_size(),
    {
        let hdr = Header::new_slots(tag, aux24, num_slots);
        self.bump((num_slots as u64) * 8, hdr)
    }

    /// Allocate an eight-byte block whose header carries a length. The
    /// payload is cleared.
    pub fn alloc_fixed(&mut self, tag: Tag, len: u64) -> (r: u64)
        requires
            old(self).wf(),
            is_fixed_tag(tag),
            len <= MAX_FIXED_LEN,
            old(self).can_bump(FIXED_SIZE as int),
        ensures
            old(self).bumped_then_written(*final(self), FIXED_SIZE as int, Header(fixed_word(tag_code(tag), len as nat) as u64), r, 1),
            final(self).has_block_of(r as int, tag),
            final(self).spec_header_of(r as int).spec_fixed_len() == len,
            final(self).word_at(r as int) == 0,
    {
        let hdr = Header::new_fixed(tag, len);
        let p = self.bump(FIXED_SIZE, hdr);
        self.mem.set((p / 8) as usize, 0);
        p
    }

    /// Allocate room for a block the collector is copying, keeping the
    /// header it already has
    pub fn alloc_copy(&mut self, hdr: Header) -> (r: u64)
        requires
            old(self).wf(),
            !hdr.spec_is_forwarded(),
            old(self).can_bump(hdr.spec_size() as int),
        ensures
            old(self).bumped(*final(self), hdr.spec_size() as int, hdr, r),
    {
        let size = hdr.size();
        proof {
            lemma_header_size_aligned(hdr);
        }
        self.bump(size, hdr)
    }

    /// Allocate a table of a given number of elements of a given size.
    /// The element count is recovered from the block header with
    /// table_len, so it is not carried alongside the address.
    pub fn alloc_table(&mut self, num_elems: u64, elem_size: u64, tag: Tag) -> (r: u64)
        requires
            old(self).wf(),
            is_raw_tag(tag),
            1 <= elem_size <= 16,
            num_elems * elem_size <= MAX_RAW_BYTES,
            old(self).can_bump(spec_align_up(num_elems * elem_size)),
        ensures
            old(self).bumped(*final(self), spec_align_up(num_elems * elem_size), Header(raw_word(tag_code(tag), (num_elems * elem_size) as nat) as u64), r),
            final(self).has_block_of(r as int, tag),
            final(self).spec_header_of(r as int).spec_num_bytes() == num_elems * elem_size,
    {
        self.alloc_raw(tag, num_elems * elem_size)
    }

    /// Allocate an eight-byte block holding a single word, such as a
    /// captured variable or a boxed number
    pub fn alloc_boxed(&mut self, val: u64, tag: Tag) -> (r: u64)
        requires
            old(self).wf(),
            is_fixed_tag(tag),
            old(self).can_bump(FIXED_SIZE as int),
        ensures
            old(self).bumped_then_written(*final(self), FIXED_SIZE as int, Header(fixed_word(tag_code(tag), 0) as u64), r, 1),
            final(self).has_block_of(r as int, tag),
            final(self).word_at(r as int) == val,
    {
        let hdr = Header::new_fixed(tag, 0);
        let p = self.bump(FIXED_SIZE, hdr);
        self.mem.set((p / 8) as usize, val);
        p
    }

    /// Read the word at a given address of the committed memory
    pub fn read_word(&self, addr: u64) -> (r: u64)
        requires
            addr % 8 == 0,
            addr / 8 < self.words().len(),
        ensures
            r == self.word_at(addr as int),
    {
        let n = self.mem.len();
        let i = (addr / 8) as usize;
        self.mem[i]
    }

    /// Write the word at a given address of the committed memory
    pub fn write_word(&mut self, addr: u64, val: u64)
        requires
            old(self).wf(),
            addr % 8 == 0,
            addr / 8 < old(self).words().len(),
        ensures
            final(self).wf(),
            final(self).words() == old(self).words().update(addr as int / 8, val),
            final(self).spec_bytes_used() == old(self).spec_bytes_used(),
            final(self).spec_reserve_size() == old(self).spec_reserve_size(),
            final(self).spec_page_size() == old(self).spec_page_size(),
            final(self).spec_growable() == old(self).spec_growable(),
    {
        self.mem.set((addr / 8) as usize, val);
    }

    /// Read the header of the block whose payload starts at a given
    /// address
    pub fn header_of(&self, payload: u64) -> (r: Header)
        requires
            self.wf(),
            self.has_block(payload as int),
        ensures
            r == self.spec_header_of(payload as int),
    {
        Header(self.mem[((payload - HEADER_SIZE) / 8) as usize])
    }

    /// Number of elements a table block holds, read from its own header.
    /// This is what lets a container point at its table with a plain
    /// address.
    pub fn table_len(&self, p: u64, elem_size: u64) -> (r: u64)
        requires
            self.wf(),
            self.has_block(p as int),
            elem_size > 0,
        ensures
            r == self.spec_header_of(p as int).spec_num_bytes() / (elem_size as nat),
    {
        self.header_of(p).num_bytes() / elem_size
    }

    /// Change the length recorded in the header of a fixed-layout block
    pub fn set_fixed_len(&mut self, payload: u64, len: u64)
        requires
            old(self).wf(),
            old(self).has_block(payload as int),
            old(self).spec_header_of(payload as int).is_valid(),
            is_fixed_tag(old(self).spec_header_of(payload as int).spec_tag()),
            len <= MAX_FIXED_LEN,
        ensures
            final(self).wf(),
            final(self).spec_header_of(payload as int).is_valid(),
            final(self).spec_header_of(payload as int).spec_tag() == old(self).spec_header_of(payload as int).spec_tag(),
            final(self).spec_header_of(payload as int).spec_fixed_len() == len,
            final(self).words() == old(self).words().update((payload - 8) / 8, final(self).word_at(payload - 8)),
            final(self).spec_bytes_used() == old(self).spec_bytes_used(),
            final(self).spec_reserve_size() == old(self).spec_reserve_size(),
            final(self).spec_page_size() == old(self).spec_page_size(),
            final(self).spec_growable() == old(self).spec_growable(),
    {
        let h = self.header_of(payload).with_fixed_len(len);
        self.write_word(payload - HEADER_SIZE, h.0);
    }

    /// Record that a block has been copied, and where its payload moved to
    pub fn set_forwarded(&mut self, payload: u64, new_payload: u64)
        requires
            old(self).wf(),
            old(self).has_block(payload as int),
            new_payload % 8 == 0,
        ensures
            final(self).wf(),
            final(self).spec_header_of(payload as int).spec_is_forwarded(),
            final(self).spec_header_of(payload as int).spec_forward_addr() == new_payload,
            final(self).words() == old(self).words().update((payload - 8) / 8, new_payload),
            final(self).spec_bytes_used() == old(self).spec_bytes_used(),
    {
        proof { lemma_low_bit_of_aligned(new_payload); }
        self.write_word(payload - HEADER_SIZE, new_payload);
    }

    /// Put back a header that was overwritten with a forwarding address
    pub fn restore_header(&mut self, payload: u64, header: Header)
        requires
            old(self).wf(),
            old(self).has_block(payload as int),
        ensures
            final(self).wf(),
            final(self).spec_header_of(payload as int) == header,
            final(self).words() == old(self).words().update((payload - 8) / 8, header.word()),
            final(self).spec_bytes_used() == old(self).spec_bytes_used(),
    {
        self.write_word(payload - HEADER_SIZE, header.0);
    }
}

/// The low `n` bytes of a word
pub open spec fn sub_byte_mask(n: int) -> u64 {
    if n == 0 { 0 }
    else if n == 1 { 0xFF }
    else if n == 2 { 0xFFFF }
    else if n == 3 { 0xFF_FFFF }
    else if n == 4 { 0xFFFF_FFFF }
    else if n == 5 { 0xFF_FFFF_FFFF }
    else if n == 6 { 0xFFFF_FFFF_FFFF }
    else { 0xFF_FFFF_FFFF_FFFF }
}

/// The low `n` bytes of a word, for `n` below eight
fn byte_mask(n: u64) -> (r: u64)
    requires
        n < 8,
    ensures
        r == sub_byte_mask(n as int),
{
    if n == 0 { 0 }
    else if n == 1 { 0xFF }
    else if n == 2 { 0xFFFF }
    else if n == 3 { 0xFF_FFFF }
    else if n == 4 { 0xFFFF_FFFF }
    else if n == 5 { 0xFF_FFFF_FFFF }
    else if n == 6 { 0xFFFF_FFFF_FFFF }
    else { 0xFF_FFFF_FFFF_FFFF }
}

proof fn lemma_mask_none()
    ensures
        forall|w: u64| #[trigger] (w & !0u64) == w,
{
    assert forall|w: u64| #[trigger] (w & !0u64) == w by {
        assert(w & !0u64 == w) by (bit_vector);
    }
}

proof fn lemma_low_bit_of_aligned(a: u64)
    requires
        a % 8 == 0,
    ensures
        a % 2 == 0,
{
}

proof fn lemma_header_size_aligned(h: Header)
    ensures
        h.spec_size() % 8 == 0,
        h.spec_size() <= 0x4000_0000_0000 + 8,
{
}

} // verus!
