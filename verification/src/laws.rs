use vstd::prelude::*;

verus! {

/// The abstract effect of a finite sequence of inserts, applied in order:
/// the model that `ConcurrentHashMap::insert` realizes one step at a time.
pub open spec fn apply_inserts(m: Map<u64, u64>, ops: Seq<(u64, u64)>) -> Map<u64, u64>
    decreases ops.len(),
{
    if ops.len() == 0 {
        m
    } else {
        apply_inserts(m, ops.drop_last()).insert(ops.last().0, ops.last().1)
    }
}

/// Insert-then-contains: for every finite sequence of inserted pairs, each
/// key is contained immediately after its own insert, whatever was inserted
/// before it.
pub proof fn lemma_insert_then_contains(m: Map<u64, u64>, ops: Seq<(u64, u64)>, i: int)
    requires
        0 <= i < ops.len(),
    ensures
        apply_inserts(m, ops.take(i + 1)).contains_key(ops[i].0),
{
    let pre = ops.take(i + 1);
    assert(pre.len() == i + 1);
    assert(pre.last() == ops[i]);
}

/// Insert-returns-previous: after storing `key -> value`, the map contains
/// exactly that value under `key`; so by `insert`'s contract, a fresh key's
/// insert reports no previous value and a repeated insert reports the value
/// stored the time before.
pub proof fn lemma_insert_returns_previous(m: Map<u64, u64>, key: u64, value: u64)
    ensures
        m.insert(key, value).contains_key(key),
        m.insert(key, value)[key] == value,
{
}

/// Remove-then-absent: after removing `key`, the map no longer contains it;
/// so by the contracts of `contains` and `get`, the one reports false and the
/// other reports absence until the key is inserted again.
pub proof fn lemma_remove_then_absent(m: Map<u64, u64>, key: u64)
    ensures
        !m.remove(key).contains_key(key),
{
}

/// One counting upsert on the model: the view transformation that
/// `insert_or_update` performs when its procedures initialize a counter to 0
/// and increment it by 1.
pub open spec fn counting_upsert(m: Map<u64, u64>, key: u64) -> Map<u64, u64> {
    if m.contains_key(key) {
        m.insert(key, (m[key] + 1) as u64)
    } else {
        m.insert(key, 0)
    }
}

/// `n` counting upserts in a row.
pub open spec fn counting_upserts(m: Map<u64, u64>, key: u64, n: nat) -> Map<u64, u64>
    decreases n,
{
    if n == 0 {
        m
    } else {
        counting_upsert(counting_upserts(m, key, (n - 1) as nat), key)
    }
}

/// Atomic upsert loses no increment: starting from a map without `key`, the
/// first counting upsert stores 0 and each further one adds exactly 1, so
/// after `n` of them the counter reads `n - 1`. Other keys are untouched.
pub proof fn lemma_counting_upserts(m: Map<u64, u64>, key: u64, n: nat)
    requires
        !m.contains_key(key),
        1 <= n <= u64::MAX,
    ensures
        counting_upserts(m, key, n).contains_key(key),
        counting_upserts(m, key, n)[key] == n - 1,
        forall|k2: u64|
            k2 != key ==> counting_upserts(m, key, n).contains_key(k2) == m.contains_key(k2),
        forall|k2: u64|
            k2 != key && m.contains_key(k2) ==> counting_upserts(m, key, n)[k2] == m[k2],
    decreases n,
{
    if n == 1 {
        assert(counting_upserts(m, key, 0) == m);
        assert(counting_upserts(m, key, 1) == counting_upsert(m, key));
    } else {
        lemma_counting_upserts(m, key, (n - 1) as nat);
        let prev = counting_upserts(m, key, (n - 1) as nat);
        assert(prev[key] + 1 == n - 1);
        assert(counting_upserts(m, key, n) == counting_upsert(prev, key));
    }
}

} // verus!
