//! Tagged value representation.
//!
//! A `Value` is a single 64-bit word. The low bits carry the tag:
//!
//! ```text
//!   bits 2..0   class
//!   x00         fixnum, 62-bit signed integer, stored as n << 2
//!   001         pointer compared by identity: Object Array ByteArray Dict Closure Cell
//!   011         pointer compared by value:    Str Int64 Float64
//!   101         immediate: nil true false undef Fun Class HostFn
//!   x10         flonum
//!   111         reserved
//! ```
//!
//! Pointers only record *that* they point at a heap block. The kind comes
//! from the block header, in the word right before the payload, so the two
//! pointer tags exist solely to classify equality. Pointers are addresses
//! in the heap of the `Alloc` the value lives in, never zero and always
//! eight-byte aligned.
//!
//! Immediates hold a 5-bit subtag in bits 7..3, which makes the whole low
//! byte a per-type constant, and a 56-bit payload in bits 63..8.
use vstd::prelude::*;
use crate::allocator::{Alloc, Tag};
use crate::bits::{lemma_heap_mask, lemma_low_masks, lemma_or_aligned, lemma_pack_low_byte};
use crate::host::{HostFnId, NUM_HOST_FNS};
use crate::ids::{ClassId, FunId, MAX_ID};
use crate::object::Object;

verus! {

pub const TAG_MASK: u64 = 0b111;
pub const TAG_PTR_ID: u64 = 0b001;
pub const TAG_PTR_VAL: u64 = 0b011;
pub const TAG_IMM: u64 = 0b101;

/// Fixnums and flonums leave bit 2 free, so they are tested on bits 1..0
pub const NUM_MASK: u64 = 0b011;
pub const TAG_FIXNUM: u64 = 0b000;
pub const TAG_FLONUM: u64 = 0b010;

/// `v & HEAP_MASK == TAG_PTR_ID` holds for both pointer tags
pub const HEAP_MASK: u64 = 0b101;

/// Set on the types whose equality needs more than a word compare
pub const VAL_BIT: u64 = 0b010;

/// Immediates: 5-bit subtag in bits 7..3, payload in bits 63..8.
/// True and False are adjacent subtags so that they differ in bit 3 only.
pub const IMM_SHIFT: u64 = 8;
pub const IMM_NIL: u64 = 0x05;
pub const IMM_UNDEF: u64 = 0x0D;
pub const IMM_FALSE: u64 = 0x15;
pub const IMM_TRUE: u64 = 0x1D;
pub const IMM_FUN: u64 = 0x25;
pub const IMM_CLASS: u64 = 0x2D;
pub const IMM_HOSTFN: u64 = 0x35;
pub const BOOL_BIT: u64 = 0x08;

/// Largest and smallest integers representable without boxing
pub const FIXNUM_MAX: i64 = 0x1FFF_FFFF_FFFF_FFFF;
pub const FIXNUM_MIN: i64 = -0x2000_0000_0000_0000;

/// Language-level type of a value. Fixnums and Int64 boxes are both
/// `Int64`, flonums and Float64 boxes are both `Float64`.
#[derive(Copy, Clone, PartialEq, Eq, Debug, Structural)]
pub enum Type {
    Undef,
    Nil,
    Bool,
    Int64,
    Float64,
    String,
    Array,
    ByteArray,
    Dict,
    Object,
    Closure,
    Cell,
    Fun,
    Class,
    HostFn,
}

/// Integer a fixnum word stands for: the word shifted right by two,
/// reading the word as a signed integer
pub open spec fn fixnum_of(b: u64) -> int {
    if b < 0x8000_0000_0000_0000u64 {
        (b / 4) as int
    } else {
        (b as int - 0x1_0000_0000_0000_0000int) / 4
    }
}

/// A value word. Equality with `==` is identity of the words, which
/// decides equality for every type that is not compared by value.
#[derive(Copy, Clone, Debug, PartialEq, Eq, Structural)]
pub struct Value(pub u64);

impl Value {
    #[allow(non_snake_case)]
    pub fn NIL() -> (r: Value)
        ensures
            r == Value(IMM_NIL),
    {
        Value(IMM_NIL)
    }

    #[allow(non_snake_case)]
    pub fn TRUE() -> (r: Value)
        ensures
            r == Value(IMM_TRUE),
    {
        Value(IMM_TRUE)
    }

    #[allow(non_snake_case)]
    pub fn FALSE() -> (r: Value)
        ensures
            r == Value(IMM_FALSE),
    {
        Value(IMM_FALSE)
    }

    #[allow(non_snake_case)]
    pub fn UNDEF() -> (r: Value)
        ensures
            r == Value(IMM_UNDEF),
    {
        Value(IMM_UNDEF)
    }

    /// The fixnum tag is zero, so this is the all-zero word
    #[allow(non_snake_case)]
    pub fn FIXNUM_ZERO() -> (r: Value)
        ensures
            r == Value(TAG_FIXNUM),
            r.spec_is_fixnum(),
            r.spec_fixnum_val() == 0,
    {
        Value(TAG_FIXNUM)
    }

    pub open spec fn bits(self) -> u64 {
        self.0
    }

    pub open spec fn spec_tag(self) -> u64 {
        self.bits() % 8
    }

    pub open spec fn spec_low_byte(self) -> u64 {
        self.bits() % 256
    }

    pub open spec fn spec_payload(self) -> u64 {
        self.bits() / 256
    }

    pub open spec fn spec_is_fixnum(self) -> bool {
        self.bits() % 4 == TAG_FIXNUM
    }

    pub open spec fn spec_fixnum_val(self) -> int {
        fixnum_of(self.bits())
    }

    pub open spec fn spec_is_flonum(self) -> bool {
        self.bits() % 4 == TAG_FLONUM
    }

    pub open spec fn spec_is_heap(self) -> bool {
        self.spec_tag() == TAG_PTR_ID || self.spec_tag() == TAG_PTR_VAL
    }

    /// Address of the payload of the block a heap value points at
    pub open spec fn spec_heap_addr(self) -> u64 {
        (self.bits() - self.bits() % 8) as u64
    }

    pub open spec fn spec_is_bool(self) -> bool {
        self.bits() == IMM_FALSE || self.bits() == IMM_TRUE
    }

    pub open spec fn spec_is_fun(self) -> bool {
        self.spec_low_byte() == IMM_FUN
    }

    pub open spec fn spec_is_class(self) -> bool {
        self.spec_low_byte() == IMM_CLASS
    }

    pub open spec fn spec_is_host_fn(self) -> bool {
        self.spec_low_byte() == IMM_HOSTFN
    }

    #[verifier::inline]
    pub open spec fn spec_fits_fixnum(val: int) -> bool {
        FIXNUM_MIN <= val <= FIXNUM_MAX
    }

    pub fn from_raw_bits(bits: u64) -> (r: Value)
        ensures
            r.bits() == bits,
    {
        Value(bits)
    }

    pub fn raw_bits(self) -> (r: u64)
        ensures
            r == self.bits(),
    {
        self.0
    }

    pub fn tag(self) -> (r: u64)
        ensures
            r == self.spec_tag(),
    {
        proof { lemma_low_masks(self.0); }
        self.0 & TAG_MASK
    }

    // Fixnums

    pub fn fits_fixnum(val: i64) -> (r: bool)
        ensures
            r == Value::spec_fits_fixnum(val as int),
    {
        val >= FIXNUM_MIN && val <= FIXNUM_MAX
    }

    /// The word of the fixnum holding an integer: the integer times four,
    /// in two's complement
    pub open spec fn spec_fixnum(val: int) -> Value {
        Value(if val >= 0 { (val * 4) as u64 } else { (0x1_0000_0000_0000_0000int + val * 4) as u64 })
    }

    pub fn fixnum(val: i64) -> (r: Value)
        requires
            Value::spec_fits_fixnum(val as int),
        ensures
            r.spec_is_fixnum(),
            r.spec_fixnum_val() == val,
            r == Value::spec_fixnum(val as int),
    {
        let r = (val as u64) << 2;
        proof {
            assert(r & 3 == 0) by (bit_vector)
                requires r == (val as u64) << 2u64;
            lemma_low_masks(r);
            if val >= 0 {
                assert(r == (val as u64) * 4 && r < 0x8000_0000_0000_0000u64) by (bit_vector)
                    requires r == (val as u64) << 2u64, 0 <= val < 0x2000_0000_0000_0000i64;
            } else {
                assert(r as int == 0x1_0000_0000_0000_0000int + val * 4 && r >= 0x8000_0000_0000_0000u64)
                    by (bit_vector)
                    requires r == (val as u64) << 2u64, -0x2000_0000_0000_0000i64 <= val < 0;
            }
        }
        Value(r)
    }

    pub fn try_fixnum(val: i64) -> (r: Option<Value>)
        ensures
            r is Some <==> Value::spec_fits_fixnum(val as int),
            r matches Some(v) ==> v.spec_is_fixnum() && v.spec_fixnum_val() == val,
            r matches Some(v) ==> v == Value::spec_fixnum(val as int),
    {
        if Value::fits_fixnum(val) { Some(Value::fixnum(val)) } else { None }
    }

    pub fn is_fixnum(self) -> (r: bool)
        ensures
            r == self.spec_is_fixnum(),
    {
        proof { lemma_low_masks(self.0); }
        self.0 & NUM_MASK == TAG_FIXNUM
    }

    pub fn as_fixnum(self) -> (r: i64)
        requires
            self.spec_is_fixnum(),
        ensures
            r == self.spec_fixnum_val(),
            Value::spec_fits_fixnum(r as int),
    {
        let b = self.0;
        let r = (b as i64) >> 2;
        proof {
            lemma_low_masks(b);
            if b < 0x8000_0000_0000_0000u64 {
                assert(r == b / 4) by (bit_vector)
                    requires r == (b as i64) >> 2i64, b < 0x8000_0000_0000_0000u64, b & 3 == 0;
            } else {
                assert(r * 4 == b as int - 0x1_0000_0000_0000_0000int) by (bit_vector)
                    requires r == (b as i64) >> 2i64, b >= 0x8000_0000_0000_0000u64, b & 3 == 0;
            }
        }
        r
    }

    // Flonums

    pub fn is_flonum(self) -> (r: bool)
        ensures
            r == self.spec_is_flonum(),
    {
        proof { lemma_low_masks(self.0); }
        self.0 & NUM_MASK == TAG_FLONUM
    }

    // Immediates

    pub fn bool_val(b: bool) -> (r: Value)
        ensures
            r.spec_is_bool(),
            r == (if b { Value(IMM_TRUE) } else { Value(IMM_FALSE) }),
    {
        if b { Value(IMM_TRUE) } else { Value(IMM_FALSE) }
    }

    pub fn is_nil(self) -> (r: bool)
        ensures
            r == (self == Value(IMM_NIL)),
    {
        self.0 == IMM_NIL
    }

    pub fn is_true(self) -> (r: bool)
        ensures
            r == (self == Value(IMM_TRUE)),
    {
        self.0 == IMM_TRUE
    }

    pub fn is_false(self) -> (r: bool)
        ensures
            r == (self == Value(IMM_FALSE)),
    {
        self.0 == IMM_FALSE
    }

    pub fn is_undef(self) -> (r: bool)
        ensures
            r == (self == Value(IMM_UNDEF)),
    {
        self.0 == IMM_UNDEF
    }

    pub fn is_bool(self) -> (r: bool)
        ensures
            r == self.spec_is_bool(),
    {
        // True and False differ only in bit 3
        let b = self.0;
        assert((b & !BOOL_BIT == IMM_FALSE) == (b == IMM_FALSE || b == IMM_TRUE)) by (bit_vector);
        b & !BOOL_BIT == IMM_FALSE
    }

    pub fn as_bool(self) -> (r: bool)
        requires
            self.spec_is_bool(),
        ensures
            r == (self == Value(IMM_TRUE)),
    {
        self.0 == IMM_TRUE
    }

    pub fn to_bool(self) -> (r: Option<bool>)
        ensures
            r == (if self.spec_is_bool() { Some(self == Value(IMM_TRUE)) } else { None::<bool> }),
    {
        if self.is_bool() { Some(self.as_bool()) } else { None }
    }

    /// Immediate with a given subtag and payload
    fn imm(payload: u64, subtag: u64) -> (r: Value)
        requires
            payload < 0x0100_0000_0000_0000,
            subtag < 256,
        ensures
            r.bits() == payload * 256 + subtag,
            r.spec_low_byte() == subtag,
            r.spec_payload() == payload,
    {
        proof { lemma_pack_low_byte(payload, subtag); }
        Value((payload << 8) | subtag)
    }

    fn low_byte(self) -> (r: u64)
        ensures
            r == self.spec_low_byte(),
    {
        proof { lemma_low_masks(self.0); }
        self.0 & 0xFF
    }

    pub fn payload(self) -> (r: u64)
        ensures
            r == self.spec_payload(),
    {
        proof { lemma_low_masks(self.0); }
        self.0 >> IMM_SHIFT
    }

    /// The value that stands for a function
    pub open spec fn spec_fun(fun_id: FunId) -> Value {
        Value((fun_id.index() * 256 + IMM_FUN) as u64)
    }

    /// The value that stands for a class
    pub open spec fn spec_class(class_id: ClassId) -> Value {
        Value((class_id.index() * 256 + IMM_CLASS) as u64)
    }

    pub fn fun(fun_id: FunId) -> (r: Value)
        ensures
            r.spec_is_fun(),
            r.spec_payload() == fun_id.index(),
            r == Value::spec_fun(fun_id),
    {
        Value::imm(fun_id.to_usize() as u64, IMM_FUN)
    }

    pub fn is_fun(self) -> (r: bool)
        ensures
            r == self.spec_is_fun(),
    {
        self.low_byte() == IMM_FUN
    }

    pub fn as_fun(self) -> (r: FunId)
        requires
            self.spec_is_fun(),
            self.spec_payload() <= MAX_ID,
        ensures
            r.index() == self.spec_payload(),
    {
        FunId::new(self.payload() as usize)
    }

    pub fn to_fun(self) -> (r: Option<FunId>)
        requires
            self.spec_is_fun() ==> self.spec_payload() <= MAX_ID,
        ensures
            r is Some <==> self.spec_is_fun(),
            r matches Some(f) ==> f.index() == self.spec_payload(),
    {
        if self.is_fun() { Some(self.as_fun()) } else { None }
    }

    pub fn class(class_id: ClassId) -> (r: Value)
        ensures
            r.spec_is_class(),
            r.spec_payload() == class_id.index(),
            r == Value::spec_class(class_id),
    {
        Value::imm(class_id.to_usize() as u64, IMM_CLASS)
    }

    pub fn is_class(self) -> (r: bool)
        ensures
            r == self.spec_is_class(),
    {
        self.low_byte() == IMM_CLASS
    }

    pub fn as_class(self) -> (r: ClassId)
        requires
            self.spec_is_class(),
            self.spec_payload() <= MAX_ID,
        ensures
            r.index() == self.spec_payload(),
    {
        ClassId::new(self.payload() as usize)
    }

    pub fn to_class(self) -> (r: Option<ClassId>)
        requires
            self.spec_is_class() ==> self.spec_payload() <= MAX_ID,
        ensures
            r is Some <==> self.spec_is_class(),
            r matches Some(c) ==> c.index() == self.spec_payload(),
    {
        if self.is_class() { Some(self.as_class()) } else { None }
    }

    /// Host functions are held by table index rather than by pointer, so
    /// that the whole value fits in the immediate range an instruction
    /// can carry
    pub fn host_fn(id: HostFnId) -> (r: Value)
        ensures
            r.spec_is_host_fn(),
            r.spec_payload() == id.index(),
    {
        Value::imm(id.to_index() as u64, IMM_HOSTFN)
    }

    pub fn is_host_fn(self) -> (r: bool)
        ensures
            r == self.spec_is_host_fn(),
    {
        self.low_byte() == IMM_HOSTFN
    }

    pub fn as_host_fn_id(self) -> (r: HostFnId)
        requires
            self.spec_is_host_fn(),
            self.spec_payload() < NUM_HOST_FNS,
        ensures
            r.index() == self.spec_payload(),
            r.wf(),
    {
        HostFnId::from_index(self.payload() as u16)
    }
}

impl Value {
    /// Whether a heap value points at a live block of the heap that lies
    /// wholly in the allocated memory. Other values need nothing.
    pub open spec fn points_into(self, heap: Alloc) -> bool {
        self.spec_is_heap() ==> {
            let addr = self.spec_heap_addr() as int;
            &&& heap.wf()
            &&& heap.has_block(addr)
            &&& heap.spec_header_of(addr).is_valid()
            &&& addr + heap.spec_header_of(addr).spec_size() <= heap.spec_bytes_used()
        }
    }

    /// Kind of block a heap value points at, read from the block header
    pub open spec fn spec_heap_tag(self, heap: Alloc) -> Tag {
        heap.spec_header_of(self.spec_heap_addr() as int).spec_tag()
    }

    pub open spec fn spec_is_ptr_id(self, heap: Alloc, tag: Tag) -> bool {
        self.spec_tag() == TAG_PTR_ID && self.spec_heap_tag(heap) == tag
    }

    pub open spec fn spec_is_ptr_val(self, heap: Alloc, tag: Tag) -> bool {
        self.spec_tag() == TAG_PTR_VAL && self.spec_heap_tag(heap) == tag
    }

    /// The word a boxed value holds
    pub open spec fn spec_boxed_word(self, heap: Alloc) -> u64 {
        heap.word_at(self.spec_heap_addr() as int)
    }

    pub open spec fn spec_is_int64(self, heap: Alloc) -> bool {
        self.spec_is_fixnum() || self.spec_is_ptr_val(heap, Tag::Int64)
    }

    pub open spec fn spec_is_float64(self, heap: Alloc) -> bool {
        self.spec_is_flonum() || self.spec_is_ptr_val(heap, Tag::Float64)
    }

    /// Integer value of a fixnum or of an Int64 box
    pub open spec fn spec_to_i64(self, heap: Alloc) -> Option<int> {
        if self.spec_is_fixnum() {
            Some(self.spec_fixnum_val())
        } else if self.spec_is_ptr_val(heap, Tag::Int64) {
            Some((self.spec_boxed_word(heap) as i64) as int)
        } else {
            None
        }
    }

    /// Language-level type, or None for a word that is not a valid value
    pub open spec fn spec_type_of(self, heap: Alloc) -> Option<Type> {
        let t = self.spec_tag();
        if t == 0 || t == 4 {
            Some(Type::Int64)
        } else if t == 2 || t == 6 {
            Some(Type::Float64)
        } else if t == TAG_PTR_ID || t == TAG_PTR_VAL {
            match self.spec_heap_tag(heap) {
                Tag::Str => Some(Type::String),
                Tag::Object => Some(Type::Object),
                Tag::Closure => Some(Type::Closure),
                Tag::Array => Some(Type::Array),
                Tag::ByteArray => Some(Type::ByteArray),
                Tag::Dict => Some(Type::Dict),
                Tag::Cell => Some(Type::Cell),
                Tag::Int64 => Some(Type::Int64),
                Tag::Float64 => Some(Type::Float64),
                _ => None,
            }
        } else if t == TAG_IMM {
            let lb = self.spec_low_byte();
            if lb == IMM_NIL { Some(Type::Nil) }
            else if lb == IMM_TRUE || lb == IMM_FALSE { Some(Type::Bool) }
            else if lb == IMM_UNDEF { Some(Type::Undef) }
            else if lb == IMM_FUN { Some(Type::Fun) }
            else if lb == IMM_CLASS { Some(Type::Class) }
            else if lb == IMM_HOSTFN { Some(Type::HostFn) }
            else { None }
        } else {
            None
        }
    }

    // Heap pointers

    pub fn is_heap(self) -> (r: bool)
        ensures
            r == self.spec_is_heap(),
    {
        proof { lemma_heap_mask(self.0); lemma_low_masks(self.0); }
        self.0 & HEAP_MASK == TAG_PTR_ID
    }

    /// Address of the payload of the block this value points at
    pub fn heap_ptr(self) -> (r: u64)
        requires
            self.spec_is_heap(),
        ensures
            r == self.spec_heap_addr(),
            r % 8 == 0,
    {
        proof { lemma_low_masks(self.0); }
        self.0 & !TAG_MASK
    }

    /// Kind of block this value points at, read from the block header
    pub fn heap_tag(self, heap: &Alloc) -> (r: Tag)
        requires
            self.spec_is_heap(),
            self.points_into(*heap),
        ensures
            r == self.spec_heap_tag(*heap),
    {
        heap.header_of(self.heap_ptr()).tag()
    }

    /// Retag a pointer that the collector moved
    pub fn with_heap_ptr(self, p: u64) -> (r: Value)
        requires
            self.spec_is_heap(),
            p % 8 == 0,
        ensures
            r.spec_tag() == self.spec_tag(),
            r.spec_heap_addr() == p,
            r.spec_is_heap(),
    {
        let t = self.tag();
        proof { lemma_or_aligned(p, t); }
        Value(p | t)
    }

    fn ptr_id(p: u64) -> (r: Value)
        requires
            p % 8 == 0,
            p != 0,
        ensures
            r.spec_tag() == TAG_PTR_ID,
            r.spec_heap_addr() == p,
            r.spec_is_heap(),
    {
        proof { lemma_or_aligned(p, TAG_PTR_ID); }
        Value(p | TAG_PTR_ID)
    }

    fn ptr_val(p: u64) -> (r: Value)
        requires
            p % 8 == 0,
            p != 0,
        ensures
            r.spec_tag() == TAG_PTR_VAL,
            r.spec_heap_addr() == p,
            r.spec_is_heap(),
    {
        proof { lemma_or_aligned(p, TAG_PTR_VAL); }
        Value(p | TAG_PTR_VAL)
    }

    fn is_ptr_id(self, tag: Tag, heap: &Alloc) -> (r: bool)
        requires
            self.points_into(*heap),
        ensures
            r == self.spec_is_ptr_id(*heap, tag),
    {
        self.tag() == TAG_PTR_ID && self.heap_tag(heap) == tag
    }

    fn is_ptr_val(self, tag: Tag, heap: &Alloc) -> (r: bool)
        requires
            self.points_into(*heap),
        ensures
            r == self.spec_is_ptr_val(*heap, tag),
    {
        self.tag() == TAG_PTR_VAL && self.heap_tag(heap) == tag
    }

    // Boxed numbers

    pub fn int64_box(p: u64) -> (r: Value)
        requires
            p % 8 == 0,
            p != 0,
        ensures
            r.spec_tag() == TAG_PTR_VAL,
            r.spec_heap_addr() == p,
    {
        Value::ptr_val(p)
    }

    pub fn is_int64_box(self, heap: &Alloc) -> (r: bool)
        requires
            self.points_into(*heap),
        ensures
            r == self.spec_is_ptr_val(*heap, Tag::Int64),
    {
        self.is_ptr_val(Tag::Int64, heap)
    }

    pub fn float64_box(p: u64) -> (r: Value)
        requires
            p % 8 == 0,
            p != 0,
        ensures
            r.spec_tag() == TAG_PTR_VAL,
            r.spec_heap_addr() == p,
    {
        Value::ptr_val(p)
    }

    pub fn is_float64_box(self, heap: &Alloc) -> (r: bool)
        requires
            self.points_into(*heap),
        ensures
            r == self.spec_is_ptr_val(*heap, Tag::Float64),
    {
        self.is_ptr_val(Tag::Float64, heap)
    }

    // Heap objects

    pub fn string(p: u64) -> (r: Value)
        requires
            p % 8 == 0,
            p != 0,
        ensures
            r.spec_tag() == TAG_PTR_VAL,
            r.spec_heap_addr() == p,
    {
        Value::ptr_val(p)
    }

    pub fn is_string(self, heap: &Alloc) -> (r: bool)
        requires
            self.points_into(*heap),
        ensures
            r == self.spec_is_ptr_val(*heap, Tag::Str),
    {
        self.is_ptr_val(Tag::Str, heap)
    }

    pub fn object(p: u64) -> (r: Value)
        requires
            p % 8 == 0,
            p != 0,
        ensures
            r.spec_tag() == TAG_PTR_ID,
            r.spec_heap_addr() == p,
    {
        Value::ptr_id(p)
    }

    pub fn is_object(self, heap: &Alloc) -> (r: bool)
        requires
            self.points_into(*heap),
        ensures
            r == self.spec_is_ptr_id(*heap, Tag::Object),
    {
        self.is_ptr_id(Tag::Object, heap)
    }

    pub fn to_obj(self, heap: &Alloc) -> (r: Option<Object>)
        requires
            self.points_into(*heap),
        ensures
            r is Some <==> self.spec_is_ptr_id(*heap, Tag::Object),
            r matches Some(o) ==> o.addr == self.spec_heap_addr() && o.valid_in(*heap),
    {
        if self.is_object(heap) { Some(Object { addr: self.heap_ptr() }) } else { None }
    }

    pub fn array(p: u64) -> (r: Value)
        requires
            p % 8 == 0,
            p != 0,
        ensures
            r.spec_tag() == TAG_PTR_ID,
            r.spec_heap_addr() == p,
    {
        Value::ptr_id(p)
    }

    pub fn is_array(self, heap: &Alloc) -> (r: bool)
        requires
            self.points_into(*heap),
        ensures
            r == self.spec_is_ptr_id(*heap, Tag::Array),
    {
        self.is_ptr_id(Tag::Array, heap)
    }

    pub fn bytearray(p: u64) -> (r: Value)
        requires
            p % 8 == 0,
            p != 0,
        ensures
            r.spec_tag() == TAG_PTR_ID,
            r.spec_heap_addr() == p,
    {
        Value::ptr_id(p)
    }

    pub fn is_bytearray(self, heap: &Alloc) -> (r: bool)
        requires
            self.points_into(*heap),
        ensures
            r == self.spec_is_ptr_id(*heap, Tag::ByteArray),
    {
        self.is_ptr_id(Tag::ByteArray, heap)
    }

    pub fn dict(p: u64) -> (r: Value)
        requires
            p % 8 == 0,
            p != 0,
        ensures
            r.spec_tag() == TAG_PTR_ID,
            r.spec_heap_addr() == p,
    {
        Value::ptr_id(p)
    }

    pub fn is_dict(self, heap: &Alloc) -> (r: bool)
        requires
            self.points_into(*heap),
        ensures
            r == self.spec_is_ptr_id(*heap, Tag::Dict),
    {
        self.is_ptr_id(Tag::Dict, heap)
    }

    pub fn closure(p: u64) -> (r: Value)
        requires
            p % 8 == 0,
            p != 0,
        ensures
            r.spec_tag() == TAG_PTR_ID,
            r.spec_heap_addr() == p,
    {
        Value::ptr_id(p)
    }

    pub fn is_closure(self, heap: &Alloc) -> (r: bool)
        requires
            self.points_into(*heap),
        ensures
            r == self.spec_is_ptr_id(*heap, Tag::Closure),
    {
        self.is_ptr_id(Tag::Closure, heap)
    }

    /// Function a value calls when it is called, directly or through a
    /// closure. Host functions are not among these.
    pub fn to_fun_id(self, heap: &Alloc) -> (r: Option<FunId>)
        requires
            self.points_into(*heap),
            self.spec_is_fun() ==> self.spec_payload() <= MAX_ID,
        ensures
            self.spec_is_ptr_id(*heap, Tag::Closure) ==> r is Some
                && r->0.index() == heap.spec_header_of(self.spec_heap_addr() as int).spec_aux24(),
            !self.spec_is_ptr_id(*heap, Tag::Closure) ==> (r is Some <==> self.spec_is_fun()),
            !self.spec_is_ptr_id(*heap, Tag::Closure) && self.spec_is_fun() ==>
                r->0.index() == self.spec_payload(),
    {
        if self.is_closure(heap) {
            Some(FunId::new(heap.header_of(self.heap_ptr()).aux24()))
        } else {
            self.to_fun()
        }
    }

    pub fn cell(p: u64) -> (r: Value)
        requires
            p % 8 == 0,
            p != 0,
        ensures
            r.spec_tag() == TAG_PTR_ID,
            r.spec_heap_addr() == p,
    {
        Value::ptr_id(p)
    }

    pub fn is_cell(self, heap: &Alloc) -> (r: bool)
        requires
            self.points_into(*heap),
        ensures
            r == self.spec_is_ptr_id(*heap, Tag::Cell),
    {
        self.is_ptr_id(Tag::Cell, heap)
    }

    /// The value a cell holds
    pub fn to_cell(self, heap: &Alloc) -> (r: Option<Value>)
        requires
            self.points_into(*heap),
        ensures
            r is Some <==> self.spec_is_ptr_id(*heap, Tag::Cell),
            r matches Some(v) ==> v.bits() == self.spec_boxed_word(*heap),
    {
        if self.is_cell(heap) {
            proof { heap.lemma_wf_bounds(); }
            Some(Value(heap.read_word(self.heap_ptr())))
        } else {
            None
        }
    }

    // Numbers

    pub fn is_int64(self, heap: &Alloc) -> (r: bool)
        requires
            self.points_into(*heap),
        ensures
            r == self.spec_is_int64(*heap),
    {
        self.is_fixnum() || self.is_int64_box(heap)
    }

    pub fn is_float64(self, heap: &Alloc) -> (r: bool)
        requires
            self.points_into(*heap),
        ensures
            r == self.spec_is_float64(*heap),
    {
        self.is_flonum() || self.is_float64_box(heap)
    }

    pub fn is_num(self, heap: &Alloc) -> (r: bool)
        requires
            self.points_into(*heap),
        ensures
            r == (self.spec_is_int64(*heap) || self.spec_is_float64(*heap)),
    {
        self.is_int64(heap) || self.is_float64(heap)
    }

    pub fn to_i64(self, heap: &Alloc) -> (r: Option<i64>)
        requires
            self.points_into(*heap),
        ensures
            r is Some <==> self.spec_to_i64(*heap) is Some,
            r matches Some(v) ==> v == self.spec_to_i64(*heap)->0,
    {
        if self.is_fixnum() {
            Some(self.as_fixnum())
        } else if self.is_int64_box(heap) {
            proof { heap.lemma_wf_bounds(); }
            Some(heap.read_word(self.heap_ptr()) as i64)
        } else {
            None
        }
    }

    pub fn to_u8(self, heap: &Alloc) -> (r: Option<u8>)
        requires
            self.points_into(*heap),
        ensures
            r == match self.spec_to_i64(*heap) {
                Some(v) => if 0 <= v <= u8::MAX { Some(v as u8) } else { None },
                None => None,
            },
    {
        match self.to_i64(heap) {
            Some(v) => if 0 <= v && v <= 255 { Some(v as u8) } else { None },
            None => None,
        }
    }

    pub fn to_i32(self, heap: &Alloc) -> (r: Option<i32>)
        requires
            self.points_into(*heap),
        ensures
            r == match self.spec_to_i64(*heap) {
                Some(v) => if i32::MIN <= v <= i32::MAX { Some(v as i32) } else { None },
                None => None,
            },
    {
        match self.to_i64(heap) {
            Some(v) => if -0x8000_0000 <= v && v <= 0x7FFF_FFFF { Some(v as i32) } else { None },
            None => None,
        }
    }

    pub fn to_u32(self, heap: &Alloc) -> (r: Option<u32>)
        requires
            self.points_into(*heap),
        ensures
            r == match self.spec_to_i64(*heap) {
                Some(v) => if 0 <= v <= u32::MAX { Some(v as u32) } else { None },
                None => None,
            },
    {
        match self.to_i64(heap) {
            Some(v) => if 0 <= v && v <= 0xFFFF_FFFF { Some(v as u32) } else { None },
            None => None,
        }
    }

    pub fn to_u64(self, heap: &Alloc) -> (r: Option<u64>)
        requires
            self.points_into(*heap),
        ensures
            r == match self.spec_to_i64(*heap) {
                Some(v) => if 0 <= v { Some(v as u64) } else { None },
                None => None,
            },
    {
        match self.to_i64(heap) {
            Some(v) => if 0 <= v { Some(v as u64) } else { None },
            None => None,
        }
    }

    pub fn to_usize(self, heap: &Alloc) -> (r: Option<usize>)
        requires
            self.points_into(*heap),
        ensures
            r == match self.spec_to_i64(*heap) {
                Some(v) => if 0 <= v <= usize::MAX { Some(v as usize) } else { None },
                None => None,
            },
    {
        match self.to_i64(heap) {
            Some(v) => if 0 <= v && (v as u64) <= (usize::MAX as u64) { Some(v as usize) } else { None },
            None => None,
        }
    }

    /// Language-level type, or None for a word that is not a valid value
    pub fn try_type_of(self, heap: &Alloc) -> (r: Option<Type>)
        requires
            self.points_into(*heap),
        ensures
            r == self.spec_type_of(*heap),
    {
        let t = self.tag();
        if t == TAG_PTR_ID || t == TAG_PTR_VAL {
            proof { lemma_heap_mask(self.0); lemma_low_masks(self.0); }
            match self.heap_tag(heap) {
                Tag::Str | Tag::Object | Tag::Closure | Tag::Array | Tag::ByteArray | Tag::Dict | Tag::Cell
                | Tag::Int64 | Tag::Float64 => Some(self.type_of(heap)),
                _ => None,
            }
        } else if t == TAG_IMM {
            let lb = self.low_byte();
            if lb == IMM_NIL || lb == IMM_TRUE || lb == IMM_FALSE || lb == IMM_UNDEF || lb == IMM_FUN
                || lb == IMM_CLASS || lb == IMM_HOSTFN {
                Some(self.type_of(heap))
            } else {
                None
            }
        } else if t == 7 {
            None
        } else {
            Some(self.type_of(heap))
        }
    }

    /// Language-level type, for cold paths
    pub fn type_of(self, heap: &Alloc) -> (r: Type)
        requires
            self.points_into(*heap),
            self.spec_type_of(*heap) is Some,
        ensures
            Some(r) == self.spec_type_of(*heap),
    {
        let t = self.tag();
        if t == 0 || t == 4 {
            Type::Int64
        } else if t == 2 || t == 6 {
            Type::Float64
        } else if t == TAG_PTR_ID || t == TAG_PTR_VAL {
            proof { lemma_heap_mask(self.0); lemma_low_masks(self.0); }
            match self.heap_tag(heap) {
                Tag::Str => Type::String,
                Tag::Object => Type::Object,
                Tag::Closure => Type::Closure,
                Tag::Array => Type::Array,
                Tag::ByteArray => Type::ByteArray,
                Tag::Dict => Type::Dict,
                Tag::Cell => Type::Cell,
                Tag::Int64 => Type::Int64,
                _ => Type::Float64,
            }
        } else {
            let lb = self.low_byte();
            if lb == IMM_NIL { Type::Nil }
            else if lb == IMM_TRUE || lb == IMM_FALSE { Type::Bool }
            else if lb == IMM_UNDEF { Type::Undef }
            else if lb == IMM_FUN { Type::Fun }
            else if lb == IMM_CLASS { Type::Class }
            else { Type::HostFn }
        }
    }
}

/// A word read as a two's complement signed integer
pub open spec fn word_signed(w: u64) -> int {
    if w < 0x8000_0000_0000_0000u64 { w as int } else { w as int - 0x1_0000_0000_0000_0000int }
}

/// Two fixnums are the same word exactly when they hold the same
/// integer, so comparing fixnum words compares their integers
pub proof fn law_fixnum_words_are_unique(a: Value, b: Value)
    requires
        a.spec_is_fixnum(),
        b.spec_is_fixnum(),
    ensures
        (a == b) <==> (a.spec_fixnum_val() == b.spec_fixnum_val()),
{
}

/// Fixnum words, read as signed integers, are ordered like the integers
/// they hold
pub proof fn law_fixnum_words_order(a: Value, b: Value)
    requires
        a.spec_is_fixnum(),
        b.spec_is_fixnum(),
    ensures
        (word_signed(a.bits()) < word_signed(b.bits())) <==> (a.spec_fixnum_val() < b.spec_fixnum_val()),
        word_signed(a.bits()) == 4 * a.spec_fixnum_val(),
{
}

/// Adding two fixnum words with wrap-around gives the fixnum of the sum,
/// whenever the sum is itself a fixnum
pub proof fn law_fixnum_words_add(a: Value, b: Value)
    requires
        a.spec_is_fixnum(),
        b.spec_is_fixnum(),
        Value::spec_fits_fixnum(a.spec_fixnum_val() + b.spec_fixnum_val()),
    ensures
        ({
            let s = Value(((a.bits() as int + b.bits() as int) % 0x1_0000_0000_0000_0000int) as u64);
            &&& s.spec_is_fixnum()
            &&& s.spec_fixnum_val() == a.spec_fixnum_val() + b.spec_fixnum_val()
        }),
{
}

/// For small integers `a` and `b` whose sum is small too, adding the
/// words of their fixnums with wrap-around gives the word of the fixnum
/// of `a + b`, and comparing the words as signed integers compares `a`
/// with `b`
pub proof fn law_fixnum_raw_words(a: int, b: int)
    requires
        Value::spec_fits_fixnum(a),
        Value::spec_fits_fixnum(b),
        Value::spec_fits_fixnum(a + b),
    ensures
        Value(((Value::spec_fixnum(a).bits() as int + Value::spec_fixnum(b).bits() as int)
            % 0x1_0000_0000_0000_0000int) as u64) == Value::spec_fixnum(a + b),
        (word_signed(Value::spec_fixnum(a).bits()) < word_signed(Value::spec_fixnum(b).bits())) == (a < b),
{
}

/// A word is at most one of a fixnum, a flonum, a heap pointer and an
/// immediate
pub proof fn law_value_kinds_disjoint(v: Value)
    ensures
        v.spec_is_fixnum() ==> !v.spec_is_flonum() && !v.spec_is_heap() && v.spec_tag() != TAG_IMM,
        v.spec_is_flonum() ==> !v.spec_is_heap() && v.spec_tag() != TAG_IMM,
        v.spec_is_heap() ==> v.spec_tag() != TAG_IMM,
{
}

} // verus!
