use vstd::prelude::*;
use crate::hashing::HashConfig;
use crate::map::{
    lemma_default_count_is_sixteen, ConcurrentHashMap, ConcurrentHashMapIntoIter,
    DEFAULT_SEGMENT_COUNT,
};

verus! {

/// A set of keys stored as a sharded map from key to a unit value: presence
/// in the backing map encodes membership, there is no separate storage, and
/// every concurrency property of the map carries over unchanged.
pub struct ConcurrentHashSet {
    table: ConcurrentHashMap,
}

impl View for ConcurrentHashSet {
    type V = Set<u64>;

    /// The abstract contents: the keys of the backing map.
    closed spec fn view(&self) -> Set<u64> {
        self.table@.dom()
    }
}

impl ConcurrentHashSet {
    /// The backing map's structural invariant.
    pub closed spec fn wf(&self) -> bool {
        self.table.wf()
    }

    /// How many segments the backing map was built with.
    pub closed spec fn spec_segment_count(&self) -> int {
        self.table.spec_segment_count()
    }

    /// The number of digest bits the backing map routes by.
    pub closed spec fn spec_segment_bits(&self) -> u32 {
        self.table.spec_segment_bits()
    }

    /// The backing map's hash configuration, immutable after construction.
    pub closed spec fn spec_hash_config(&self) -> HashConfig {
        self.table.spec_hash_config()
    }

    /// A set with the default capacity, hash configuration and segment count.
    pub fn new() -> (s: Self)
        ensures
            s.wf(),
            forall|k: u64| !s@.contains(k),
            s.spec_hash_config() == (HashConfig { seed: crate::hashing::DEFAULT_SEED }),
            s.spec_segment_count() == DEFAULT_SEGMENT_COUNT,
    {
        ConcurrentHashSet { table: ConcurrentHashMap::new() }
    }

    /// A set pre-sized for `capacity` keys, with the default hash
    /// configuration and segment count.
    pub fn with_capacity(capacity: usize) -> (s: Self)
        requires
            capacity <= usize::MAX / 2 + 1,
        ensures
            s.wf(),
            forall|k: u64| !s@.contains(k),
            s.spec_hash_config() == (HashConfig { seed: crate::hashing::DEFAULT_SEED }),
            s.spec_segment_count() == DEFAULT_SEGMENT_COUNT,
    {
        let s = ConcurrentHashSet {
            table: ConcurrentHashMap::with_options(
                capacity,
                HashConfig::default(),
                DEFAULT_SEGMENT_COUNT,
            ),
        };
        proof {
            lemma_default_count_is_sixteen(s.spec_segment_count(), s.spec_segment_bits());
        }
        s
    }

    /// A set pre-sized for `capacity` keys over `concurrency_level` segments,
    /// rounded up to the next power of two exactly as the map rounds it.
    pub fn with_capacity_and_concurrency_level(capacity: usize, concurrency_level: usize) -> (s:
        Self)
        requires
            capacity <= usize::MAX / 2 + 1,
            concurrency_level <= usize::MAX / 2 + 1,
        ensures
            s.wf(),
            forall|k: u64| !s@.contains(k),
            s.spec_hash_config() == (HashConfig { seed: crate::hashing::DEFAULT_SEED }),
            s.spec_segment_count() >= 1,
            s.spec_segment_count() >= concurrency_level,
            s.spec_segment_count() == 1 || s.spec_segment_count() < 2 * concurrency_level,
            s.spec_segment_count() == (1u64 << s.spec_segment_bits()) as int,
            s.spec_segment_bits() < 64,
    {
        ConcurrentHashSet {
            table: ConcurrentHashMap::with_options(
                capacity,
                HashConfig::default(),
                concurrency_level,
            ),
        }
    }

    /// A set pre-sized for `capacity` keys with the given hash configuration
    /// and the default segment count.
    pub fn with_capacity_and_hasher(capacity: usize, hash_config: HashConfig) -> (s: Self)
        requires
            capacity <= usize::MAX / 2 + 1,
        ensures
            s.wf(),
            forall|k: u64| !s@.contains(k),
            s.spec_hash_config() == hash_config,
            s.spec_segment_count() == DEFAULT_SEGMENT_COUNT,
    {
        let s = ConcurrentHashSet {
            table: ConcurrentHashMap::with_options(capacity, hash_config, DEFAULT_SEGMENT_COUNT),
        };
        proof {
            lemma_default_count_is_sixteen(s.spec_segment_count(), s.spec_segment_bits());
        }
        s
    }

    /// A set with every construction option spelled out, mirroring the map's
    /// constructor clause for clause.
    pub fn with_options(capacity: usize, hash_config: HashConfig, concurrency_level: usize) -> (s:
        Self)
        requires
            capacity <= usize::MAX / 2 + 1,
            concurrency_level <= usize::MAX / 2 + 1,
        ensures
            s.wf(),
            forall|k: u64| !s@.contains(k),
            s.spec_hash_config() == hash_config,
            s.spec_segment_count() >= 1,
            s.spec_segment_count() >= concurrency_level,
            s.spec_segment_count() == 1 || s.spec_segment_count() < 2 * concurrency_level,
            s.spec_segment_count() == (1u64 << s.spec_segment_bits()) as int,
            s.spec_segment_bits() < 64,
    {
        ConcurrentHashSet {
            table: ConcurrentHashMap::with_options(capacity, hash_config, concurrency_level),
        }
    }

    /// Adds `key` and reports whether it was newly added (`true`) or already
    /// present (`false`) — derived from whether the backing map held a
    /// previous value.
    pub fn insert(&mut self, key: u64) -> (newly: bool)
        requires
            old(self).wf(),
        ensures
            final(self).wf(),
            final(self)@ == old(self)@.insert(key),
            newly == !old(self)@.contains(key),
    {
        let prev = self.table.insert(key, 0);
        proof {
            assert(self@ =~= old(self)@.insert(key));
        }
        prev.is_none()
    }

    /// Whether `key` is a member.
    pub fn contains(&self, key: u64) -> (r: bool)
        requires
            self.wf(),
        ensures
            r == self@.contains(key),
    {
        self.table.contains(key)
    }

    /// Removes `key` and reports whether it was present.
    pub fn remove(&mut self, key: u64) -> (was_present: bool)
        requires
            old(self).wf(),
        ensures
            final(self).wf(),
            final(self)@ == old(self)@.remove(key),
            was_present == old(self)@.contains(key),
    {
        let prev = self.table.remove(key);
        proof {
            assert(self@ =~= old(self)@.remove(key));
        }
        prev.is_some()
    }

    /// Consumes the set and yields its keys, each exactly once: the key-only
    /// projection of the backing map's draining iterator.
    pub fn into_iter(self) -> (it: ConcurrentHashSetIntoIter)
        requires
            self.wf(),
        ensures
            it.wf(),
            seq_matches_set(it.remaining(), self@),
    {
        let ghost gs = self@;
        let inner = self.table.into_iter();
        let it = ConcurrentHashSetIntoIter { inner };
        proof {
            assert forall|k: u64| #[trigger] gs.contains(k) implies exists|i: int|
                0 <= i < it.remaining().len() && (#[trigger] it.remaining()[i]) == k by {
                let j = choose|j: int|
                    0 <= j < it.inner.remaining().len() && (#[trigger] it.inner.remaining()[j]).0
                        == k;
                assert(it.remaining()[j] == k);
            }
        }
        it
    }
}

impl Default for ConcurrentHashSet {
    /// Same defaults as `new`.
    fn default() -> (s: Self)
        ensures
            s.wf(),
            forall|k: u64| !s@.contains(k),
            s.spec_hash_config() == (HashConfig { seed: crate::hashing::DEFAULT_SEED }),
            s.spec_segment_count() == DEFAULT_SEGMENT_COUNT,
    {
        Self::new()
    }
}

/// `s` lists exactly the members of `st`, each once.
pub open spec fn seq_matches_set(s: Seq<u64>, st: Set<u64>) -> bool {
    &&& forall|i: int, j: int| 0 <= i < j < s.len() ==> s[i] != s[j]
    &&& forall|i: int| 0 <= i < s.len() ==> st.contains(#[trigger] s[i])
    &&& forall|k: u64| #[trigger] st.contains(k) ==> exists|i: int| 0 <= i < s.len() && s[i] == k
}

/// The draining iterator over a consumed set: the key projection of the
/// map's. Finite, single-pass, not restartable.
pub struct ConcurrentHashSetIntoIter {
    inner: ConcurrentHashMapIntoIter,
}

impl ConcurrentHashSetIntoIter {
    /// The keys not yet handed out.
    pub closed spec fn remaining(&self) -> Seq<u64> {
        self.inner.remaining().map_values(|p: (u64, u64)| p.0)
    }

    pub closed spec fn wf(&self) -> bool {
        self.inner.wf()
    }

    /// The next extracted key, or nothing once the iterator is exhausted.
    pub fn next(&mut self) -> (r: Option<u64>)
        requires
            old(self).wf(),
        ensures
            final(self).wf(),
            match r {
                Some(k) => old(self).remaining().len() > 0 && k == old(self).remaining()[0]
                    && final(self).remaining() == old(self).remaining().skip(1),
                None => old(self).remaining().len() == 0 && final(self).remaining() == old(
                    self,
                ).remaining(),
            },
    {
        let p = self.inner.next();
        match p {
            Some(pair) => {
                proof {
                    assert(self.remaining() =~= old(self).remaining().skip(1));
                }
                Some(pair.0)
            },
            None => None,
        }
    }
}

} // verus!
