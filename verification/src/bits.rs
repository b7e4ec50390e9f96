use vstd::prelude::*;

verus! {

/// The low `width` bits set
pub open spec fn mask(width: u64) -> u64 {
    if width >= 64 { 0xFFFF_FFFF_FFFF_FFFFu64 } else { ((1u64 << width) - 1) as u64 }
}

/// Relations between the masks a value word is tested with
pub proof fn lemma_low_masks(b: u64)
    ensures
        b & 3 == (b & 7) & 3,
        b & 3 == b % 4,
        b & 5 == (b & 7) & 5,
        b & 7 == (b & 0xFF) & 7,
        (b & 3 == 0) == (b % 4 == 0),
        (b & 7 == 0) == (b % 8 == 0),
        b & 7 == b % 8,
        b & 0xFF == b % 256,
        b & !7u64 == b - b % 8,
        b >> 8 == b / 256,
{
    assert(b & 3 == (b & 7) & 3 && b & 3 == b % 4 && b & 5 == (b & 7) & 5 && b & 7 == (b & 0xFF) & 7
        && ((b & 3 == 0) == (b % 4 == 0)) && ((b & 7 == 0) == (b % 8 == 0)) && b & 7 == b % 8
        && b & 0xFF == b % 256 && b & !7u64 == b - b % 8 && b >> 8 == b / 256) by (bit_vector);
}

/// An eight-bit tag under a payload shifted above it
pub proof fn lemma_pack_low_byte(p: u64, t: u64)
    requires
        p < 0x0100_0000_0000_0000,
        t < 256,
    ensures
        (p << 8) | t == p * 256 + t,
        ((p << 8) | t) & 0xFF == t,
        ((p << 8) | t) >> 8 == p,
{
    assert((p << 8) | t == p * 256 + t && ((p << 8) | t) & 0xFF == t && ((p << 8) | t) >> 8 == p)
        by (bit_vector)
        requires
            p < 0x0100_0000_0000_0000u64,
            t < 256u64;
}

/// A small tag OR-ed into the low bits of an aligned word
pub proof fn lemma_or_aligned(p: u64, t: u64)
    requires
        p % 8 == 0,
        t < 8,
    ensures
        p | t == p + t,
        (p | t) & 7 == t,
        (p | t) & !7u64 == p,
{
    lemma_low_masks(p);
    assert(p | t == p + t && (p | t) & 7 == t && (p | t) & !7u64 == p) by (bit_vector)
        requires
            p & 7 == 0,
            t < 8u64;
}

/// The heap-pointer test on a word agrees with its tag being one of the
/// two pointer tags
pub proof fn lemma_heap_mask(b: u64)
    ensures
        (b & 5 == 1) == (b % 8 == 1 || b % 8 == 3),
{
    assert((b & 5 == 1) == (b % 8 == 1 || b % 8 == 3)) by (bit_vector);
}

} // verus!
