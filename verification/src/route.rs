use vstd::prelude::*;

verus! {

/// The segment a 64-bit digest routes to: its top `bits` bits. Using the high
/// bits keeps segment selection independent from the low bits that the
/// segments' own tables use for bucket selection.
pub open spec fn spec_route(bits: u32, h: u64) -> int {
    if bits == 0 {
        0
    } else {
        (h >> ((64 - bits) as u64)) as int
    }
}

/// The top `bits` bits of a digest; `spec_route` is exactly this value.
pub open spec fn top_bits(bits: u32, h: u64) -> u64 {
    if bits == 0 {
        0
    } else {
        h >> ((64 - bits) as u64)
    }
}

/// The router as an executable function: computes the top `bits` bits of a
/// digest, the index of the one segment an operation on that digest touches.
pub fn route_of(bits: u32, hash: u64) -> (i: u64)
    requires
        bits < 64,
    ensures
        i == top_bits(bits, hash),
        i as int == spec_route(bits, hash),
        (i as int) < ((1u64 << bits) as int),
{
    proof {
        lemma_route_in_range(bits, hash);
    }
    if bits == 0 {
        0
    } else {
        hash >> ((64 - bits) as u64)
    }
}

/// Every digest routes inside a table of `1 << bits` segments.
pub broadcast proof fn lemma_route_in_range(bits: u32, h: u64)
    requires
        bits < 64,
    ensures
        0 <= #[trigger] spec_route(bits, h) < (1u64 << bits) as int,
        spec_route(bits, h) == top_bits(bits, h) as int,
{
    if bits == 0 {
        assert(1u64 << 0u32 == 1u64) by (bit_vector);
    } else {
        let b = bits as u64;
        assert(h >> ((64 - b) as u64) < (1u64 << b)) by (bit_vector)
            requires
                0 < b < 64,
        ;
        assert(h >> ((64 - bits) as u64) == h >> ((64 - b) as u64));
        assert((1u64 << bits) == (1u64 << b));
    }
}

} // verus!
