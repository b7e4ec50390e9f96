use vstd::prelude::*;
use crate::allocator::{Alloc, Tag, HEADER_SIZE, MAX_RAW_BYTES, align_up, spec_align_up};
use crate::heap::{alloc_str, room_for, spec_str_bytes};
use crate::value::Value;

verus! {

/// An immutable string: its UTF-8 bytes start at the address of the
/// string itself, and its length comes from the block header
#[derive(Copy, Clone, Debug, PartialEq, Eq, Structural)]
pub struct Str {
    pub addr: u64,
}

impl Str {
    /// Whether this names a string block of the heap
    pub open spec fn valid_in(self, heap: Alloc) -> bool {
        &&& heap.wf()
        &&& heap.has_block_of(self.addr as int, Tag::Str)
    }

    /// Allocate a string holding the UTF-8 bytes of `s`; none where the
    /// string is too long or the heap has no room
    pub fn new(s: &str, heap: &mut Alloc) -> (r: Option<Value>)
        requires
            old(heap).wf(),
        ensures
            final(heap).wf(),
            r is None <==> (vstd::utf8::encode_utf8(s@).len() > MAX_RAW_BYTES
                || !room_for(*old(heap), spec_align_up(vstd::utf8::encode_utf8(s@).len() as int))),
            r is None ==> *final(heap) == *old(heap),
            r matches Some(v) ==> v.points_into(*final(heap)) && v.spec_is_ptr_val(*final(heap), Tag::Str)
                && spec_str_bytes(v, *final(heap)) == vstd::utf8::encode_utf8(s@),
    {
        alloc_str(heap, s.as_bytes())
    }

    /// Bytes a string of a given length occupies, header included
    pub fn alloc_size(len: u64) -> (r: u64)
        requires
            len <= MAX_RAW_BYTES,
        ensures
            r == HEADER_SIZE + spec_align_up(len as int),
    {
        HEADER_SIZE + align_up(len)
    }

    /// Length of the string in bytes
    pub fn len(self, heap: &Alloc) -> (r: u64)
        requires
            self.valid_in(*heap),
        ensures
            r == heap.spec_header_of(self.addr as int).spec_num_bytes(),
    {
        heap.header_of(self.addr).num_bytes()
    }
}

} // verus!
