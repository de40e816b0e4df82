use vstd::prelude::*;
use std::collections::HashMap;

verus! {

// parking_lot's reader-writer lock (`parking_lot::RwLock<T>` is
// `lock_api::RwLock<parking_lot::RawRwLock, T>`). Declared opaquely: verified
// code never looks inside a lock, it goes through the trusted methods below.
#[verifier::external_type_specification]
#[verifier::external_body]
pub struct ExRawRwLock(parking_lot::RawRwLock);

#[verifier::external_type_specification]
#[verifier::external_body]
#[verifier::reject_recursive_types(R)]
#[verifier::reject_recursive_types(T)]
pub struct ExRwLock<R, T: ?Sized>(parking_lot::lock_api::RwLock<R, T>);

/// The abstract contents of a lock-protected table: the key-value pairs it
/// currently stores. The trusted methods of `Segment` state their effects in
/// terms of this map.
pub uninterp spec fn rwlock_table(
    l: parking_lot::lock_api::RwLock<parking_lot::RawRwLock, HashMap<u64, u64>>,
) -> Map<u64, u64>;

/// One lock domain: a single-writer/multi-reader protected hash table,
/// covering the subset of the key space that the router assigns to it. The
/// table is mutated only while its own lock is held, and the lock is never
/// nested inside another segment's lock.
pub struct Segment {
    pub(crate) table: parking_lot::RwLock<HashMap<u64, u64>>,
}

impl View for Segment {
    type V = Map<u64, u64>;

    closed spec fn view(&self) -> Map<u64, u64> {
        rwlock_table(self.table)
    }
}

impl Segment {
    /// Relies on `parking_lot::RwLock::new` and `HashMap::with_capacity`: a
    /// fresh lock around a fresh table that holds nothing.
    #[verifier::external_body]
    pub(crate) fn with_capacity(capacity: usize) -> (s: Segment)
        ensures
            forall|k: u64| !rwlock_table(s.table).contains_key(k),
            forall|k: u64| !s@.contains_key(k),
    {
        Segment { table: parking_lot::RwLock::new(HashMap::with_capacity(capacity)) }
    }

    /// Relies on `parking_lot::RwLock::write` and `HashMap::insert`: stores
    /// the pair under the write lock and returns the value the key held
    /// before, if any.
    #[verifier::external_body]
    pub(crate) fn insert(&mut self, key: u64, value: u64) -> (prev: Option<u64>)
        ensures
            final(self)@ == old(self)@.insert(key, value),
            prev == if old(self)@.contains_key(key) {
                Some(old(self)@[key])
            } else {
                None::<u64>
            },
    {
        self.table.write().insert(key, value)
    }

    /// Relies on `parking_lot::RwLock::write` and `HashMap::remove`: takes the
    /// key's entry out under the write lock and returns its value, if any.
    #[verifier::external_body]
    pub(crate) fn remove(&mut self, key: u64) -> (prev: Option<u64>)
        ensures
            final(self)@ == old(self)@.remove(key),
            prev == if old(self)@.contains_key(key) {
                Some(old(self)@[key])
            } else {
                None::<u64>
            },
    {
        self.table.write().remove(&key)
    }

    /// Relies on `parking_lot::RwLock::read` and `HashMap::get`: looks the key
    /// up under the read lock and copies the value out.
    #[verifier::external_body]
    pub(crate) fn get(&self, key: u64) -> (r: Option<u64>)
        ensures
            r == if self@.contains_key(key) {
                Some(self@[key])
            } else {
                None::<u64>
            },
    {
        self.table.read().get(&key).copied()
    }

    /// Relies on `parking_lot::RwLock::read` and `HashMap::contains_key`.
    #[verifier::external_body]
    pub(crate) fn contains(&self, key: u64) -> (r: bool)
        ensures
            r == self@.contains_key(key),
    {
        self.table.read().contains_key(&key)
    }

    /// Relies on `parking_lot::RwLock::get_mut` and `HashMap::get_mut`:
    /// exclusive access to the stored value. No lock needs to be taken:
    /// `&mut self` already excludes every other holder, which is how
    /// `parking_lot` itself specifies `get_mut`.
    #[verifier::external_body]
    pub(crate) fn get_mut<'a>(&'a mut self, key: u64) -> (r: Option<&'a mut u64>)
        ensures
            match r {
                Some(v) => old(self)@.contains_key(key) && *v == old(self)@[key] && final(self)@
                    == old(self)@.insert(key, *final(v)),
                None => !old(self)@.contains_key(key) && final(self)@ == old(self)@,
            },
    {
        self.table.get_mut().get_mut(&key)
    }

    /// Relies on `parking_lot::RwLock::into_inner` and `HashMap`'s consuming
    /// iterator: unwraps the lock — no other holder can exist once the segment
    /// itself is owned — and hands out exactly the stored pairs, each once, in
    /// whatever order the table enumerates them.
    #[verifier::external_body]
    pub(crate) fn drain(self) -> (r: Vec<(u64, u64)>)
        ensures
            seq_matches_map(r@, self@),
    {
        self.table.into_inner().into_iter().collect()
    }
}

/// `s` lists exactly the pairs of `m`: every listed pair is in `m`, no key is
/// listed twice, and every key of `m` is listed.
pub open spec fn seq_matches_map(s: Seq<(u64, u64)>, m: Map<u64, u64>) -> bool {
    &&& forall|i: int, j: int|
        0 <= i < j < s.len() ==> (#[trigger] s[i]).0 != (#[trigger] s[j]).0
    &&& forall|i: int|
        0 <= i < s.len() ==> m.contains_key((#[trigger] s[i]).0) && m[s[i].0] == s[i].1
    &&& forall|k: u64| #[trigger]
        m.contains_key(k) ==> exists|i: int| 0 <= i < s.len() && (#[trigger] s[i]).0 == k
}

} // verus!
