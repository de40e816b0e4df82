use vstd::prelude::*;
use crate::hashing::HashConfig;
use crate::segment::Segment;
use crate::route::{spec_route, top_bits, lemma_route_in_range};

verus! {

broadcast use lemma_route_in_range;

/// Default capacity used by `new` and `default`.
pub const DEFAULT_INITIAL_CAPACITY: usize = 64;

/// Default segment count used by `new` and `default`.
pub const DEFAULT_SEGMENT_COUNT: usize = 16;

/// A key-value map sharded over independently locked segments. A key's seeded
/// 64-bit digest routes it to exactly one segment; every operation acquires
/// that one segment's lock and never nests another, so operations on keys in
/// different segments never contend.
pub struct ConcurrentHashMap {
    segments: Vec<Segment>,
    hash_config: HashConfig,
    segment_bits: u32,
}

impl View for ConcurrentHashMap {
    type V = Map<u64, u64>;

    /// The abstract contents: each key is looked up in the one segment it
    /// routes to.
    closed spec fn view(&self) -> Map<u64, u64> {
        Map::new(
            |k: u64| self.segments@[self.spec_segment_of(k)]@.contains_key(k),
            |k: u64| self.segments@[self.spec_segment_of(k)]@[k],
        )
    }
}

impl ConcurrentHashMap {
    /// The index of the segment that owns `key`: a pure function of the hash
    /// configuration and the segment count alone, stable for the lifetime of
    /// the map.
    pub closed spec fn spec_segment_of(&self, key: u64) -> int {
        spec_route(self.segment_bits, self.hash_config.spec_hash(key))
    }

    /// How many segments the map was built with.
    pub closed spec fn spec_segment_count(&self) -> int {
        self.segments@.len() as int
    }

    /// The number of digest bits used for routing: `log2` of the segment count.
    pub closed spec fn spec_segment_bits(&self) -> u32 {
        self.segment_bits
    }

    /// The shared hash configuration, immutable after construction.
    pub closed spec fn spec_hash_config(&self) -> HashConfig {
        self.hash_config
    }

    /// Structural invariant: the segment count is the power of two named by
    /// `segment_bits`, and a key is stored in at most one segment — the one
    /// its digest routes to.
    pub closed spec fn wf(&self) -> bool {
        &&& self.segment_bits < 64
        &&& self.segments@.len() == (1u64 << self.segment_bits) as int
        &&& forall|i: int, k: u64|
            0 <= i < self.segments@.len() && (#[trigger] self.segments@[i]@.contains_key(k))
                ==> self.spec_segment_of(k) == i
    }

    /// Builds a map with `concurrency_level` rounded up to the next power of
    /// two as segment count; each segment is pre-sized to its share of
    /// `capacity`. Construction never fails: degenerate inputs still yield at
    /// least one segment, and the map starts out holding nothing.
    pub fn with_options(capacity: usize, hash_config: HashConfig, concurrency_level: usize) -> (m:
        Self)
        requires
            capacity <= usize::MAX / 2 + 1,
            concurrency_level <= usize::MAX / 2 + 1,
        ensures
            m.wf(),
            forall|k: u64| !m@.contains_key(k),
            m.spec_hash_config() == hash_config,
            m.spec_segment_count() >= 1,
            m.spec_segment_count() >= concurrency_level,
            m.spec_segment_count() == 1 || m.spec_segment_count() < 2 * concurrency_level,
            m.spec_segment_count() == (1u64 << m.spec_segment_bits()) as int,
            m.spec_segment_bits() < 64,
    {
        let (count, bits) = round_up_pow2(concurrency_level);
        let (per_segment_capacity, _) = round_up_pow2(capacity / count);
        let mut segments: Vec<Segment> = Vec::new();
        let mut i: usize = 0;
        while i < count
            invariant
                i <= count,
                segments@.len() == i as int,
                forall|j: int, k: u64|
                    0 <= j < i as int ==> !(#[trigger] segments@[j]@.contains_key(k)),
            decreases count - i,
        {
            segments.push(Segment::with_capacity(per_segment_capacity));
            i = i + 1;
        }
        let m = ConcurrentHashMap { segments, hash_config, segment_bits: bits };
        proof {
            assert forall|k: u64| !m@.contains_key(k) by {
                lemma_route_in_range(m.segment_bits, m.hash_config.spec_hash(k));
            }
        }
        m
    }

    /// A map with the default capacity, hash configuration and segment count.
    pub fn new() -> (m: Self)
        ensures
            m.wf(),
            forall|k: u64| !m@.contains_key(k),
            m.spec_hash_config() == (HashConfig { seed: crate::hashing::DEFAULT_SEED }),
            m.spec_segment_count() == DEFAULT_SEGMENT_COUNT,
    {
        let m = Self::with_options(
            DEFAULT_INITIAL_CAPACITY,
            HashConfig::default(),
            DEFAULT_SEGMENT_COUNT,
        );
        proof {
            lemma_default_count_is_sixteen(m.spec_segment_count(), m.spec_segment_bits());
        }
        m
    }

    /// The digest of `key` under this map's configuration.
    fn hash(&self, key: u64) -> (h: u64)
        ensures
            h == self.spec_hash_config().spec_hash(key),
    {
        self.hash_config.hash(key)
    }

    /// Routes a digest to its segment index: the top `segment_bits` bits,
    /// which already lie in the segment range.
    fn get_segment(&self, hash: u64) -> (i: usize)
        requires
            self.wf(),
        ensures
            i as int == spec_route(self.spec_segment_bits(), hash),
            i < self.spec_segment_count(),
    {
        if self.segment_bits == 0 {
            proof {
                assert(1u64 << 0u32 == 1u64) by (bit_vector);
            }
            0
        } else {
            let b = self.segment_bits as u64;
            let shifted = hash >> (64 - b);
            let n = self.segments.len();
            proof {
                lemma_route_in_range(self.segment_bits, hash);
                assert(shifted == top_bits(self.segment_bits, hash));
                assert((shifted as int) < ((1u64 << self.segment_bits) as int));
                assert((shifted as int) < (n as int));
            }
            let idx = shifted as usize;
            proof {
                assert(idx as int == shifted as int);
                assert((idx as int) < self.spec_segment_count());
            }
            idx
        }
    }

    /// Segment isolation: two keys whose digests differ anywhere in the top
    /// `log2(N)` bits are owned by distinct segments, so the map never
    /// serializes them against each other — every operation on one takes a
    /// different segment's lock than any operation on the other.
    pub proof fn lemma_segment_isolation(&self, k1: u64, k2: u64)
        requires
            self.wf(),
            top_bits(self.spec_segment_bits(), self.spec_hash_config().spec_hash(k1)) != top_bits(
                self.spec_segment_bits(),
                self.spec_hash_config().spec_hash(k2),
            ),
        ensures
            self.spec_segment_of(k1) != self.spec_segment_of(k2),
            0 <= self.spec_segment_of(k1) < self.spec_segment_count(),
            0 <= self.spec_segment_of(k2) < self.spec_segment_count(),
    {
        lemma_route_in_range(self.segment_bits, self.hash_config.spec_hash(k1));
        lemma_route_in_range(self.segment_bits, self.hash_config.spec_hash(k2));
    }

    /// Stores `key -> value` in the owning segment under its write lock,
    /// overwriting in place, and returns the previous value if the key was
    /// present.
    pub fn insert(&mut self, key: u64, value: u64) -> (prev: Option<u64>)
        requires
            old(self).wf(),
        ensures
            final(self).wf(),
            final(self)@ == old(self)@.insert(key, value),
            final(self).spec_hash_config() == old(self).spec_hash_config(),
            final(self).spec_segment_bits() == old(self).spec_segment_bits(),
            final(self).spec_segment_count() == old(self).spec_segment_count(),
            prev == (if old(self)@.contains_key(key) {
                Some(old(self)@[key])
            } else {
                None::<u64>
            }),
    {
        let h = self.hash(key);
        let idx = self.get_segment(h);
        let seg = &mut self.segments[idx];
        let prev = seg.insert(key, value);
        proof {
            assert(old(self)@.contains_key(key) == old(self).segments@[idx as int]@.contains_key(
                key,
            ));
            assert(self@ =~= old(self)@.insert(key, value));
        }
        prev
    }

    /// Whether `key` is present, read under its segment's read lock.
    pub fn contains(&self, key: u64) -> (r: bool)
        requires
            self.wf(),
        ensures
            r == self@.contains_key(key),
    {
        let h = self.hash(key);
        let idx = self.get_segment(h);
        self.segments[idx].contains(key)
    }

    /// The value stored under `key`, copied out under its segment's read
    /// lock, or nothing if the key is absent. Absence is a normal outcome,
    /// never a fault.
    pub fn get(&self, key: u64) -> (r: Option<u64>)
        requires
            self.wf(),
        ensures
            r == (if self@.contains_key(key) {
                Some(self@[key])
            } else {
                None::<u64>
            }),
    {
        let h = self.hash(key);
        let idx = self.get_segment(h);
        self.segments[idx].get(key)
    }

    /// Takes `key`'s entry out of the owning segment under its write lock and
    /// returns the removed value if the key was present.
    pub fn remove(&mut self, key: u64) -> (prev: Option<u64>)
        requires
            old(self).wf(),
        ensures
            final(self).wf(),
            final(self)@ == old(self)@.remove(key),
            final(self).spec_hash_config() == old(self).spec_hash_config(),
            final(self).spec_segment_bits() == old(self).spec_segment_bits(),
            final(self).spec_segment_count() == old(self).spec_segment_count(),
            prev == (if old(self)@.contains_key(key) {
                Some(old(self)@[key])
            } else {
                None::<u64>
            }),
    {
        let h = self.hash(key);
        let idx = self.get_segment(h);
        let seg = &mut self.segments[idx];
        let prev = seg.remove(key);
        proof {
            assert(old(self)@.contains_key(key) == old(self).segments@[idx as int]@.contains_key(
                key,
            ));
            assert(self@ =~= old(self)@.remove(key));
        }
        prev
    }

    /// A write accessor for `key`: exclusive access to the stored value for
    /// as long as the borrow lives. The final map holds under `key` whatever
    /// the caller leaves behind the reference; no other entry changes.
    pub fn get_mut<'a>(&'a mut self, key: u64) -> (r: Option<&'a mut u64>)
        requires
            old(self).wf(),
        ensures
            final(self).wf(),
            final(self).spec_hash_config() == old(self).spec_hash_config(),
            final(self).spec_segment_bits() == old(self).spec_segment_bits(),
            final(self).spec_segment_count() == old(self).spec_segment_count(),
            match r {
                Some(v) => old(self)@.contains_key(key) && *v == old(self)@[key] && final(self)@
                    =~= old(self)@.insert(key, *final(v)),
                None => !old(self)@.contains_key(key) && final(self)@ =~= old(self)@,
            },
    {
        let h = self.hash(key);
        let idx = self.get_segment(h);
        let seg = &mut self.segments[idx];
        seg.get_mut(key)
    }

    /// Atomic upsert: if `key` is absent, stores `make_value()`, invoked
    /// once; if present, stores `update_value` applied once to the current
    /// value. Nothing can fall between the presence check and the store: the
    /// exclusive receiver shuts out every other holder for the whole call.
    pub fn insert_or_update<F: FnOnce() -> u64, G: FnOnce(u64) -> u64>(
        &mut self,
        key: u64,
        make_value: F,
        update_value: G,
    )
        requires
            old(self).wf(),
            !old(self)@.contains_key(key) ==> call_requires(make_value, ()),
            old(self)@.contains_key(key) ==> call_requires(update_value, (old(self)@[key],)),
        ensures
            final(self).wf(),
            final(self).spec_hash_config() == old(self).spec_hash_config(),
            final(self).spec_segment_bits() == old(self).spec_segment_bits(),
            final(self).spec_segment_count() == old(self).spec_segment_count(),
            old(self)@.contains_key(key) ==> exists|nv: u64|
                #[trigger] call_ensures(update_value, (old(self)@[key],), nv) && final(self)@
                    == old(self)@.insert(key, nv),
            !old(self)@.contains_key(key) ==> exists|nv: u64|
                #[trigger] call_ensures(make_value, (), nv) && final(self)@ == old(self)@.insert(
                    key,
                    nv,
                ),
    {
        let h = self.hash(key);
        let idx = self.get_segment(h);
        let seg = &mut self.segments[idx];
        let current = seg.get(key);
        match current {
            None => {
                let nv = make_value();
                let _ = seg.insert(key, nv);
                proof {
                    assert(self@ =~= old(self)@.insert(key, nv));
                }
            },
            Some(c) => {
                let nv = update_value(c);
                let _ = seg.insert(key, nv);
                proof {
                    assert(self@ =~= old(self)@.insert(key, nv));
                }
            },
        }
    }
}

impl ConcurrentHashMap {
    /// Consumes the map and yields its entries: segment by segment in index
    /// order, each segment's lock is unwrapped — no other holder can exist
    /// once the map is owned — and its pairs are collected. The result lists
    /// exactly the pairs present at the moment of consumption, each once.
    pub fn into_iter(self) -> (it: ConcurrentHashMapIntoIter)
        requires
            self.wf(),
        ensures
            it.wf(),
            crate::segment::seq_matches_map(it.remaining(), self@),
            forall|j: int, l: int|
                0 <= j < l < it.remaining().len() ==> self.spec_segment_of(
                    (#[trigger] it.remaining()[j]).0,
                ) <= self.spec_segment_of((#[trigger] it.remaining()[l]).0),
    {
        let ghost gm = self@;
        let ghost gsegs = self.segments@;
        let ghost gbits = self.segment_bits;
        let ghost gcfg = self.hash_config;
        let ConcurrentHashMap { mut segments, hash_config: _, segment_bits: _ } = self;
        let mut entries: Vec<(u64, u64)> = Vec::new();
        let ghost mut done: int = 0;
        while segments.len() > 0
            invariant
                gbits < 64,
                gsegs.len() == (1u64 << gbits) as int,
                0 <= done <= gsegs.len(),
                segments@ == gsegs.skip(done),
                forall|k: u64| #[trigger]
                    gm.contains_key(k) == (0 <= spec_route(gbits, gcfg.spec_hash(k))
                        < gsegs.len() && gsegs[spec_route(gbits, gcfg.spec_hash(k))]@.contains_key(
                        k,
                    )),
                forall|k: u64|
                    gm.contains_key(k) ==> gm[k] == gsegs[spec_route(
                        gbits,
                        gcfg.spec_hash(k),
                    )]@[k],
                forall|i: int, k: u64|
                    0 <= i < gsegs.len() && (#[trigger] gsegs[i]@.contains_key(k)) ==> spec_route(
                        gbits,
                        gcfg.spec_hash(k),
                    ) == i,
                forall|j: int, l: int|
                    0 <= j < l < entries@.len() ==> (#[trigger] entries@[j]).0 != (
                    #[trigger] entries@[l]).0,
                forall|j: int|
                    0 <= j < entries@.len() ==> gm.contains_key((#[trigger] entries@[j]).0)
                        && gm[entries@[j].0] == entries@[j].1 && spec_route(
                        gbits,
                        gcfg.spec_hash(entries@[j].0),
                    ) < done,
                forall|k: u64| #[trigger]
                    gm.contains_key(k) && spec_route(gbits, gcfg.spec_hash(k)) < done
                        ==> exists|j: int|
                        0 <= j < entries@.len() && (#[trigger] entries@[j]).0 == k,
                forall|j: int, l: int|
                    0 <= j < l < entries@.len() ==> spec_route(
                        gbits,
                        gcfg.spec_hash((#[trigger] entries@[j]).0),
                    ) <= spec_route(gbits, gcfg.spec_hash((#[trigger] entries@[l]).0)),
            decreases segments@.len(),
        {
            let seg = segments.remove(0);
            let ghost seg_table = seg@;
            let mut batch = seg.drain();
            let ghost batch_seq = batch@;
            let ghost old_entries = entries@;
            entries.append(&mut batch);
            proof {
                assert(seg == gsegs[done]);
                assert(entries@ == old_entries + batch_seq);
                // every drained pair belongs to the map and routes here
                assert forall|j: int| 0 <= j < batch_seq.len() implies gm.contains_key(
                    (#[trigger] batch_seq[j]).0,
                ) && gm[batch_seq[j].0] == batch_seq[j].1 && spec_route(
                    gbits,
                    gcfg.spec_hash(batch_seq[j].0),
                ) == done by {
                    let k = batch_seq[j].0;
                    assert(seg_table.contains_key(k) && seg_table[k] == batch_seq[j].1);
                    assert(gsegs[done]@.contains_key(k));
                }
                // every key routed to a finished segment has been listed
                assert forall|k: u64| #[trigger]
                    gm.contains_key(k) && spec_route(gbits, gcfg.spec_hash(k)) < done + 1
                        implies exists|j: int|
                        0 <= j < entries@.len() && (#[trigger] entries@[j]).0 == k by {
                    if spec_route(gbits, gcfg.spec_hash(k)) == done {
                        assert(gsegs[done]@.contains_key(k));
                        assert(seg_table.contains_key(k));
                        let j0 = choose|j0: int|
                            0 <= j0 < batch_seq.len() && (#[trigger] batch_seq[j0]).0 == k;
                        assert(entries@[old_entries.len() + j0].0 == k);
                    } else {
                        let j0 = choose|j0: int|
                            0 <= j0 < old_entries.len() && (#[trigger] old_entries[j0]).0 == k;
                        assert(entries@[j0].0 == k);
                    }
                }
                done = done + 1;
            }
        }
        let it = ConcurrentHashMapIntoIter { entries, cursor: 0 };
        proof {
            assert(it.remaining() =~= it.entries@);
            assert forall|k: u64| #[trigger] gm.contains_key(k) implies exists|j: int|
                0 <= j < it.remaining().len() && (#[trigger] it.remaining()[j]).0 == k by {
                lemma_route_in_range(gbits, gcfg.spec_hash(k));
            }
        }
        it
    }
}

/// The draining iterator over a consumed map: owns the extracted entries and
/// hands them out one at a time. Finite, single-pass, not restartable.
pub struct ConcurrentHashMapIntoIter {
    entries: Vec<(u64, u64)>,
    cursor: usize,
}

impl ConcurrentHashMapIntoIter {
    /// The pairs not yet handed out.
    pub closed spec fn remaining(&self) -> Seq<(u64, u64)> {
        self.entries@.skip(self.cursor as int)
    }

    /// The cursor never runs past the extracted entries.
    pub closed spec fn wf(&self) -> bool {
        self.cursor <= self.entries@.len()
    }

    /// The next extracted pair, or nothing once the iterator is exhausted.
    pub fn next(&mut self) -> (r: Option<(u64, u64)>)
        requires
            old(self).wf(),
        ensures
            final(self).wf(),
            match r {
                Some(p) => old(self).remaining().len() > 0 && p == old(self).remaining()[0]
                    && final(self).remaining() == old(self).remaining().skip(1),
                None => old(self).remaining().len() == 0 && final(self).remaining() == old(
                    self,
                ).remaining(),
            },
    {
        if self.cursor < self.entries.len() {
            let p = self.entries[self.cursor];
            self.cursor = self.cursor + 1;
            proof {
                assert(self.remaining() =~= old(self).remaining().skip(1));
            }
            Some(p)
        } else {
            None
        }
    }
}

impl Default for ConcurrentHashMap {
    /// Same defaults as `new`.
    fn default() -> (m: Self)
        ensures
            m.wf(),
            forall|k: u64| !m@.contains_key(k),
            m.spec_hash_config() == (HashConfig { seed: crate::hashing::DEFAULT_SEED }),
            m.spec_segment_count() == DEFAULT_SEGMENT_COUNT,
    {
        Self::new()
    }
}

/// A power of two that lies in `[16, 32)` is exactly 16: pins the segment
/// count of the constructors that round the default concurrency level.
pub(crate) proof fn lemma_default_count_is_sixteen(c: int, b: u32)
    requires
        b < 64,
        c == (1u64 << b) as int,
        16 <= c < 32,
    ensures
        c == 16,
{
    let b64 = b as u64;
    assert(16 <= (1u64 << b64) && (1u64 << b64) < 32 ==> (1u64 << b64) == 16) by (bit_vector)
        requires
            b64 < 64,
    ;
    assert((1u64 << b) == (1u64 << b64));
}

/// Rounds `n` up to the next power of two (at least 1), returning it together
/// with its bit width: the sizing rule that construction applies to the
/// concurrency level and to each segment's share of the capacity.
pub fn round_up_pow2(n: usize) -> (r: (usize, u32))
    requires
        n <= usize::MAX / 2 + 1,
    ensures
        ({
            let (count, bits) = r;
            &&& bits < 64
            &&& count as int == (1u64 << bits) as int
            &&& count >= 1
            &&& count >= n
            &&& count == 1 || count < 2 * n
        }),
{
    proof {
        vstd::arithmetic::power2::lemma2_to64();
    }
    let mut count: usize = 1;
    let mut bits: u32 = 0;
    while count < n
        invariant
            n <= usize::MAX / 2 + 1,
            bits < 64,
            count as nat == vstd::arithmetic::power2::pow2(bits as nat),
            count >= 1,
            count == 1 || count < 2 * n,
        decreases 2 * n - count,
    {
        proof {
            vstd::arithmetic::power2::lemma2_to64();
            vstd::arithmetic::power2::lemma2_to64_rest();
            // the exponent stays below 64: the count is bounded by
            // usize::MAX / 2, which is below 2^63
            if bits > 63 {
                vstd::arithmetic::power2::lemma_pow2_strictly_increases(63, bits as nat);
            }
            vstd::arithmetic::power2::lemma_pow2_unfold(bits as nat + 1);
        }
        count = count * 2;
        bits = bits + 1;
    }
    proof {
        vstd::bits::lemma_u64_pow2_no_overflow(bits as nat);
        vstd::bits::lemma_u64_shl_is_mul(1u64, bits as u64);
    }
    (count, bits)
}

} // verus!
