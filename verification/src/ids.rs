use vstd::prelude::*;

verus! {

/// Largest function or class id: both are kept in the 24-bit id field of
/// a block header
pub const MAX_ID: usize = 0xFF_FFFF;

/// Identifies a function of the program
#[derive(Copy, Clone, Debug, Default, PartialEq, Eq, Structural)]
pub struct FunId {
    id: u32,
}

/// Identifies a class of the program. Id 0 is never used
#[derive(Copy, Clone, Debug, Default, PartialEq, Eq, Structural)]
pub struct ClassId {
    id: u32,
}

impl FunId {
    pub closed spec fn index(self) -> nat {
        self.id as nat
    }

    /// Two ids with the same index are the same id
    pub proof fn lemma_index_injective(self, other: FunId)
        requires
            self.index() == other.index(),
        ensures
            self == other,
    {
    }

    #[verifier::type_invariant]
    closed spec fn inv(self) -> bool {
        self.id <= MAX_ID
    }


    /// The id with a given index. An id has to fit the id field of a
    /// block header
    pub fn new(id: usize) -> (r: FunId)
        requires
            id <= MAX_ID,
        ensures
            r.index() == id,
    {
        FunId { id: id as u32 }
    }

    pub fn to_usize(self) -> (r: usize)
        ensures
            r == self.index(),
            r <= MAX_ID,
    {
        proof { use_type_invariant(self); }
        self.id as usize
    }

    pub proof fn lemma_index_eq(self, other: FunId)
        ensures
            self.index() == other.index() <==> self == other,
    {
    }
}

impl ClassId {
    pub closed spec fn index(self) -> nat {
        self.id as nat
    }

    #[verifier::type_invariant]
    closed spec fn inv(self) -> bool {
        self.id <= MAX_ID
    }


    /// The id with a given index. An id has to fit the id field of a
    /// block header
    pub fn new(id: usize) -> (r: ClassId)
        requires
            id <= MAX_ID,
        ensures
            r.index() == id,
    {
        ClassId { id: id as u32 }
    }

    pub fn to_usize(self) -> (r: usize)
        ensures
            r == self.index(),
            r <= MAX_ID,
    {
        proof { use_type_invariant(self); }
        self.id as usize
    }

    pub proof fn lemma_index_eq(self, other: ClassId)
        ensures
            self.index() == other.index() <==> self == other,
    {
    }
}

/// Class ids of the built-in classes. Id 0 is reserved as unused
pub const NIL_ID: usize = 1;
pub const BOOL_ID: usize = 2;
pub const INT64_ID: usize = 3;
pub const FLOAT64_ID: usize = 4;
pub const STRING_ID: usize = 5;
pub const OBJECT_ID: usize = 6;
pub const ARRAY_ID: usize = 7;
pub const BYTEARRAY_ID: usize = 8;
pub const DICT_ID: usize = 9;
pub const UIEVENT_ID: usize = 100;
pub const AUDIO_NEEDED_ID: usize = 101;
pub const AUDIO_DATA_ID: usize = 102;
pub const LAST_RESERVED_ID: usize = 0xFF;

} // verus!
