use vstd::prelude::*;

verus! {

/// Seed used by `HashConfig::default`: the 64-bit golden-ratio constant, a
/// common odd mixing seed.
pub const DEFAULT_SEED: u64 = 0x9E37_79B9_7F4A_7C15;

/// The shared hash configuration: a seeded, deterministic mixer turning a key
/// into a 64-bit digest. One configuration is fixed at map construction and
/// shared read-only by every segment, so a key's digest — and therefore the
/// segment it routes to — is stable for the lifetime of the map.
#[derive(Clone, Copy, PartialEq, Eq, Structural)]
pub struct HashConfig {
    pub seed: u64,
}

impl HashConfig {
    /// The digest of `key`: the seed folded in, then xor-shift rounds in both
    /// directions so that the high bits (used for segment routing) depend on
    /// every input bit, not only on the high bits of the key.
    pub open spec fn spec_hash(self, key: u64) -> u64 {
        let h0 = key ^ self.seed;
        let h1 = h0 ^ (h0 >> 32);
        let h2 = h1 ^ (h1 << 25);
        h2 ^ (h2 >> 17)
    }

    pub fn new(seed: u64) -> (c: HashConfig)
        ensures
            c == (HashConfig { seed }),
    {
        HashConfig { seed }
    }

    /// Computes the digest of `key`; the result is exactly `spec_hash`.
    pub fn hash(&self, key: u64) -> (h: u64)
        ensures
            h == self.spec_hash(key),
    {
        let h0 = key ^ self.seed;
        let h1 = h0 ^ (h0 >> 32);
        let h2 = h1 ^ (h1 << 25);
        h2 ^ (h2 >> 17)
    }
}

impl Default for HashConfig {
    /// The default configuration, with a fixed seed.
    fn default() -> (c: HashConfig)
        ensures
            c == (HashConfig { seed: DEFAULT_SEED }),
    {
        HashConfig { seed: DEFAULT_SEED }
    }
}

} // verus!
