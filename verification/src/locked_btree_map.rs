//! The store shared between the polling tasks and the serving layer.
//!
//! One polling cycle fully aggregates one height before the next begins, so
//! the engine itself is sequential; the lock that guards the store in the
//! surrounding process is part of the unverified plumbing.  Here the store is
//! an ordered map from build number to value whose every operation succeeds;
//! the `Result` shape of a lock-guarded store is kept for its callers.

use vstd::prelude::*;

use crate::error::AggregatorError;
use crate::maps::HeightMap;

verus! {

/// An ordered map from build number to value, with a fallible-looking API.
pub struct LockedBTreeMap<V> {
    pub inner: HeightMap<V>,
}

impl<V> LockedBTreeMap<V> {
    /// The keys, in ascending order.
    pub open spec fn keys_view(&self) -> Seq<usize> {
        self.inner.keys_view()
    }

    /// The values, in the same order as `keys_view`.
    pub open spec fn vals_seq(&self) -> Seq<V> {
        self.inner.vals_seq()
    }

    /// Well-formedness: one value per key, keys strictly ascending.
    pub open spec fn wf(&self) -> bool {
        self.inner.wf()
    }

    /// Whether the map holds key `k`.
    pub open spec fn spec_contains(&self, k: usize) -> bool {
        self.inner.spec_contains(k)
    }

    /// The value stored under key `k` (meaningful only if present).
    pub open spec fn spec_get(&self, k: usize) -> V {
        self.inner.spec_get(k)
    }

    /// Creates an empty store.
    pub fn new() -> (r: Self)
        ensures
            r.wf(),
            r.keys_view() == Seq::<usize>::empty(),
            r.vals_seq() == Seq::<V>::empty(),
    {
        LockedBTreeMap { inner: HeightMap::new() }
    }

    /// Stores `value` under `key`, replacing any previous value.
    pub fn insert(&mut self, key: usize, value: V) -> (r: Result<(), AggregatorError>)
        requires
            old(self).wf(),
        ensures
            r is Ok,
            final(self).wf(),
            final(self).spec_contains(key),
            old(self).spec_contains(key) ==> {
                &&& final(self).keys_view() == old(self).keys_view()
                &&& final(self).vals_seq() == old(self).vals_seq().update(
                    old(self).inner.spec_find(key),
                    value,
                )
            },
            !old(self).spec_contains(key) ==> crate::maps::inserted_sorted(
                old(self).keys_view(),
                old(self).vals_seq(),
                final(self).keys_view(),
                final(self).vals_seq(),
                key,
                value,
            ),
    {
        self.inner.insert(key, value);
        Ok(())
    }

    /// The value stored under `key`, if any.
    pub fn get(&self, key: usize) -> (r: Result<Option<&V>, AggregatorError>)
        requires
            self.wf(),
        ensures
            match r {
                Ok(Some(v)) => self.spec_contains(key) && *v == self.spec_get(key),
                Ok(None) => !self.spec_contains(key),
                Err(_) => false,
            },
    {
        Ok(self.inner.get(key))
    }

    /// The value stored under the largest key, if any.
    pub fn get_latest_value(&self) -> (r: Result<Option<&V>, AggregatorError>)
        requires
            self.wf(),
        ensures
            match r {
                Ok(Some(v)) => self.keys_view().len() > 0 && *v == self.vals_seq().last(),
                Ok(None) => self.keys_view().len() == 0,
                Err(_) => false,
            },
    {
        match self.inner.last_entry() {
            Some((_, v)) => Ok(Some(v)),
            None => Ok(None),
        }
    }

    /// The `n` values with the largest keys, largest first.
    pub fn get_latest_n_values(&self, n: usize) -> (r: Result<Vec<&V>, AggregatorError>)
        requires
            self.wf(),
        ensures
            match r {
                Ok(vs) => {
                    &&& vs.len() == vstd::math::min(n as int, self.vals_seq().len() as int)
                    &&& forall|i: int|
                        0 <= i < vs.len() ==> *vs[i] == self.vals_seq()[self.vals_seq().len() - 1
                            - i]
                },
                Err(_) => false,
            },
    {
        let len = self.inner.len();
        let mut out: Vec<&V> = Vec::new();
        let mut taken: usize = 0;
        while taken < n && taken < len
            invariant
                self.wf(),
                len == self.vals_seq().len(),
                taken <= len,
                taken <= n,
                out.len() == taken,
                forall|i: int| 0 <= i < taken ==> *out[i] == self.vals_seq()[len - 1 - i],
            decreases len - taken,
        {
            out.push(self.inner.val_at(len - 1 - taken));
            taken = taken + 1;
        }
        Ok(out)
    }

    /// Number of entries.
    pub fn get_count(&self) -> (r: Result<usize, AggregatorError>)
        requires
            self.wf(),
        ensures
            match r {
                Ok(n) => n == self.keys_view().len(),
                Err(_) => false,
            },
    {
        Ok(self.inner.len())
    }

    /// The largest key, if any.
    pub fn get_latest_key(&self) -> (r: Result<Option<usize>, AggregatorError>)
        requires
            self.wf(),
        ensures
            match r {
                Ok(Some(k)) => self.keys_view().len() > 0 && k == self.keys_view().last(),
                Ok(None) => self.keys_view().len() == 0,
                Err(_) => false,
            },
    {
        match self.inner.last_entry() {
            Some((k, _)) => Ok(Some(k)),
            None => Ok(None),
        }
    }

    /// All values, in ascending key order.
    pub fn get_values(&self) -> (r: Result<Vec<&V>, AggregatorError>)
        requires
            self.wf(),
        ensures
            match r {
                Ok(vs) => {
                    &&& vs.len() == self.vals_seq().len()
                    &&& forall|i: int| 0 <= i < vs.len() ==> *vs[i] == self.vals_seq()[i]
                },
                Err(_) => false,
            },
    {
        let len = self.inner.len();
        let mut out: Vec<&V> = Vec::new();
        let mut i: usize = 0;
        while i < len
            invariant
                self.wf(),
                len == self.vals_seq().len(),
                i <= len,
                out.len() == i,
                forall|j: int| 0 <= j < i ==> *out[j] == self.vals_seq()[j],
            decreases len - i,
        {
            out.push(self.inner.val_at(i));
            i = i + 1;
        }
        Ok(out)
    }

    /// All entries as `(key, value)` pairs, in ascending key order.
    pub fn to_btreemap(&self) -> (r: Result<Vec<(usize, &V)>, AggregatorError>)
        requires
            self.wf(),
        ensures
            match r {
                Ok(es) => {
                    &&& es.len() == self.keys_view().len()
                    &&& forall|i: int|
                        0 <= i < es.len() ==> es[i].0 == self.keys_view()[i] && *es[i].1
                            == self.vals_seq()[i]
                },
                Err(_) => false,
            },
    {
        let len = self.inner.len();
        let mut out: Vec<(usize, &V)> = Vec::new();
        let mut i: usize = 0;
        while i < len
            invariant
                self.wf(),
                len == self.keys_view().len(),
                i <= len,
                out.len() == i,
                forall|j: int|
                    0 <= j < i ==> out[j].0 == self.keys_view()[j] && *out[j].1
                        == self.vals_seq()[j],
            decreases len - i,
        {
            out.push((self.inner.key_at(i), self.inner.val_at(i)));
            i = i + 1;
        }
        Ok(out)
    }
}

} // verus!
