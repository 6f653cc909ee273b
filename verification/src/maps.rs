//! Small verified map types used throughout the engine.
//!
//! `TagMap` maps string tags (node tags, block hashes) to values and keeps its
//! keys in insertion order; `HeightMap` maps unsigned integers (block heights,
//! build numbers) to values and keeps its keys strictly ascending.  Both are
//! backed by parallel vectors so that every operation carries an exact
//! contract.

use vstd::prelude::*;

verus! {

/// Index of the first occurrence of `k` in `s`, or `-1` if `k` is absent.
pub open spec fn find_first<T>(s: Seq<T>, k: T) -> int
    decreases s.len(),
{
    if s.len() == 0 {
        -1
    } else if s[0] == k {
        0
    } else {
        let r = find_first(s.drop_first(), k);
        if r < 0 {
            -1
        } else {
            r + 1
        }
    }
}

/// `find_first` returns `-1` exactly when the key is absent, and otherwise
/// the first position holding the key.
pub proof fn lemma_find_first<T>(s: Seq<T>, k: T)
    ensures
        s.contains(k) <==> 0 <= find_first(s, k) < s.len(),
        s.contains(k) ==> s[find_first(s, k)] == k,
        forall|i: int| 0 <= i < find_first(s, k) ==> s[i] != k,
        !s.contains(k) ==> find_first(s, k) == -1,
    decreases s.len(),
{
    if s.len() > 0 && s[0] != k {
        lemma_find_first(s.drop_first(), k);
        assert forall|i: int| 0 <= i < s.len() && s[i] == k implies 0 <= find_first(s, k) by {
            if i > 0 {
                assert(s.drop_first()[i - 1] == k);
                assert(s.drop_first().contains(k));
            }
        }
        if s.contains(k) {
            let j = choose|j: int| 0 <= j < s.len() && s[j] == k;
            assert(s.drop_first()[j - 1] == k);
            assert(s.drop_first().contains(k));
        }
        assert forall|i: int| 0 <= i < find_first(s, k) implies s[i] != k by {
            if i > 0 {
                assert(s.drop_first()[i - 1] != k);
            }
        }
    }
}

/// In a sequence without repeated elements, any position holding `k` is the
/// first one.
pub proof fn lemma_unique_find<T>(s: Seq<T>, i: int, k: T)
    requires
        forall|a: int, b: int| 0 <= a < b < s.len() ==> s[a] != s[b],
        0 <= i < s.len(),
        s[i] == k,
    ensures
        find_first(s, k) == i,
{
    lemma_find_first(s, k);
    assert(s.contains(k));
    let f = find_first(s, k);
    if f < i {
        assert(s[f] == k && s[i] == k);
    } else if f > i {
        assert(s[i] != k);
    }
}

/// Appending an element does not move the first occurrence of a key that is
/// already present.
pub proof fn lemma_find_first_stable_push<T>(s: Seq<T>, x: T, k: T)
    requires
        s.contains(k),
    ensures
        find_first(s.push(x), k) == find_first(s, k),
    decreases s.len(),
{
    let t = s.push(x);
    if s[0] == k {
    } else {
        assert(t[0] == s[0]);
        assert(t.drop_first() =~= s.drop_first().push(x));
        let j = choose|j: int| 0 <= j < s.len() && s[j] == k;
        assert(s.drop_first()[j - 1] == k);
        assert(s.drop_first().contains(k));
        lemma_find_first_stable_push(s.drop_first(), x, k);
        lemma_find_first(s.drop_first(), k);
    }
}

/// In a one-element sequence, the element's first occurrence is position
/// zero.
pub proof fn lemma_unique_find_single<T>(s: Seq<T>, k: T)
    requires
        s.len() == 1,
        s[0] == k,
    ensures
        find_first(s, k) == 0,
{
}

/// Appending a fresh key puts its first occurrence at the old length.
pub proof fn lemma_find_first_push<T>(s: Seq<T>, k: T)
    requires
        !s.contains(k),
    ensures
        find_first(s.push(k), k) == s.len(),
    decreases s.len(),
{
    let t = s.push(k);
    if s.len() == 0 {
        assert(t[0] == k);
    } else {
        assert(s[0] != k);
        assert(t[0] == s[0]);
        assert(t.drop_first() =~= s.drop_first().push(k));
        assert forall|i: int| 0 <= i < s.drop_first().len() implies s.drop_first()[i] != k by {
            assert(s[i + 1] != k);
        }
        if s.drop_first().contains(k) {
            let j = choose|j: int| 0 <= j < s.drop_first().len() && s.drop_first()[j] == k;
            assert(s.drop_first()[j] != k);
        }
        lemma_find_first_push(s.drop_first(), k);
    }
}

/// The keys of a tag map after inserting `k`.
pub open spec fn tag_insert_keys(keys: Seq<Seq<char>>, k: Seq<char>) -> Seq<Seq<char>> {
    if keys.contains(k) {
        keys
    } else {
        keys.push(k)
    }
}

/// The values of a tag map after inserting `v` under `k`.
pub open spec fn tag_insert_vals<T>(keys: Seq<Seq<char>>, vals: Seq<T>, k: Seq<char>, v: T) -> Seq<
    T,
> {
    if keys.contains(k) {
        vals.update(find_first(keys, k), v)
    } else {
        vals.push(v)
    }
}

/// A map from string tags to values, keys kept in first-insertion order.
#[derive(Debug, Clone)]
pub struct TagMap<V> {
    keys: Vec<String>,
    vals: Vec<V>,
}

impl<V> TagMap<V> {
    /// The keys, as character sequences, in insertion order.
    pub closed spec fn keys_view(&self) -> Seq<Seq<char>> {
        self.keys@.map_values(|k: String| k@)
    }

    /// The values, in the same order as `keys_view`.
    pub closed spec fn vals_seq(&self) -> Seq<V> {
        self.vals@
    }

    /// Well-formedness: one value per key, and no key occurs twice.
    pub open spec fn wf(&self) -> bool {
        &&& self.keys_view().len() == self.vals_seq().len()
        &&& forall|i: int, j: int|
            0 <= i < j < self.keys_view().len() ==> self.keys_view()[i] != self.keys_view()[j]
    }

    /// Number of entries.
    pub open spec fn spec_len(&self) -> nat {
        self.keys_view().len()
    }

    /// Whether the map holds key `k`.
    pub open spec fn spec_contains(&self, k: Seq<char>) -> bool {
        self.keys_view().contains(k)
    }

    /// Position of key `k`, or `-1` if absent.
    pub open spec fn spec_find(&self, k: Seq<char>) -> int {
        find_first(self.keys_view(), k)
    }

    /// The value stored under key `k` (meaningful only if present).
    pub open spec fn spec_get(&self, k: Seq<char>) -> V {
        self.vals_seq()[self.spec_find(k)]
    }

    /// Creates an empty map.
    pub fn new() -> (r: Self)
        ensures
            r.wf(),
            r.keys_view() == Seq::<Seq<char>>::empty(),
            r.vals_seq() == Seq::<V>::empty(),
    {
        TagMap { keys: Vec::new(), vals: Vec::new() }
    }

    /// Number of entries.
    pub fn len(&self) -> (r: usize)
        requires
            self.wf(),
        ensures
            r == self.spec_len(),
    {
        self.keys.len()
    }

    /// Position of key `k`, if present.
    pub fn index_of(&self, k: &String) -> (r: Option<usize>)
        requires
            self.wf(),
        ensures
            match r {
                Some(i) => self.spec_contains(k@) && i == self.spec_find(k@)
                    && i < self.spec_len(),
                None => !self.spec_contains(k@),
            },
    {
        proof {
            lemma_find_first(self.keys_view(), k@);
        }
        let n = self.keys.len();
        let mut i: usize = 0;
        while i < n
            invariant
                self.wf(),
                n == self.spec_len(),
                i <= n,
                forall|j: int| 0 <= j < i ==> self.keys_view()[j] != k@,
                self.spec_contains(k@) <==> 0 <= self.spec_find(k@) < n,
                self.spec_contains(k@) ==> self.keys_view()[self.spec_find(k@)] == k@,
                forall|j: int| 0 <= j < self.spec_find(k@) ==> self.keys_view()[j] != k@,
                !self.spec_contains(k@) ==> self.spec_find(k@) == -1,
            decreases n - i,
        {
            if self.keys[i].eq(k) {
                proof {
                    assert(self.keys_view()[i as int] == k@);
                    assert(self.keys_view().contains(k@));
                }
                return Some(i);
            }
            i = i + 1;
        }
        None
    }

    /// Whether the map holds key `k`.
    pub fn contains_key(&self, k: &String) -> (r: bool)
        requires
            self.wf(),
        ensures
            r == self.spec_contains(k@),
    {
        self.index_of(k).is_some()
    }

    /// The key at position `i`.
    pub fn key_at(&self, i: usize) -> (r: &String)
        requires
            self.wf(),
            i < self.spec_len(),
        ensures
            r@ == self.keys_view()[i as int],
    {
        &self.keys[i]
    }

    /// The value at position `i`.
    pub fn val_at(&self, i: usize) -> (r: &V)
        requires
            self.wf(),
            i < self.spec_len(),
        ensures
            *r == self.vals_seq()[i as int],
    {
        &self.vals[i]
    }

    /// Mutable access to the value at position `i`.
    pub fn val_at_mut(&mut self, i: usize) -> (r: &mut V)
        requires
            old(self).wf(),
            i < old(self).spec_len(),
        ensures
            *r == old(self).vals_seq()[i as int],
            final(self).keys_view() == old(self).keys_view(),
            final(self).vals_seq() == old(self).vals_seq().update(i as int, *final(r)),
            final(self).wf(),
    {
        vstd::std_specs::vec::vec_index_mut(&mut self.vals, i)
    }

    /// The value stored under key `k`, if present.
    pub fn get(&self, k: &String) -> (r: Option<&V>)
        requires
            self.wf(),
        ensures
            match r {
                Some(v) => self.spec_contains(k@) && 0 <= self.spec_find(k@) < self.spec_len()
                    && *v == self.spec_get(k@),
                None => !self.spec_contains(k@),
            },
    {
        match self.index_of(k) {
            Some(i) => Some(&self.vals[i]),
            None => None,
        }
    }

    /// Inserts `v` under `k`: replaces the value of an existing key in place,
    /// otherwise appends a new entry.
    pub fn insert(&mut self, k: String, v: V)
        requires
            old(self).wf(),
        ensures
            final(self).wf(),
            old(self).spec_contains(k@) ==> {
                &&& 0 <= old(self).spec_find(k@) < old(self).spec_len()
                &&& final(self).keys_view() == old(self).keys_view()
                &&& final(self).vals_seq() == old(self).vals_seq().update(
                    old(self).spec_find(k@),
                    v,
                )
            },
            !old(self).spec_contains(k@) ==> {
                &&& final(self).keys_view() == old(self).keys_view().push(k@)
                &&& final(self).vals_seq() == old(self).vals_seq().push(v)
            },
            final(self).spec_contains(k@),
            final(self).spec_get(k@) == v,
            forall|k2: Seq<char>|
                #![trigger old(self).spec_contains(k2)]
                #![trigger final(self).spec_contains(k2)]
                #![trigger final(self).spec_get(k2)]
                k2 != k@ && old(self).spec_contains(k2) ==> final(self).spec_contains(k2)
                    && final(self).spec_get(k2) == old(self).spec_get(k2),
            forall|k2: Seq<char>| #[trigger]
                final(self).spec_contains(k2) ==> k2 == k@ || old(self).spec_contains(k2),
            final(self).spec_len() == old(self).spec_len() + (if old(self).spec_contains(k@) {
                0int
            } else {
                1int
            }),
    {
        proof {
            lemma_find_first(self.keys_view(), k@);
        }
        match self.index_of(&k) {
            Some(i) => {
                self.vals[i] = v;
                proof {
                    assert(final(self).keys_view() =~= old(self).keys_view());
                }
            },
            None => {
                let ghost n = self.spec_len();
                self.keys.push(k);
                self.vals.push(v);
                proof {
                    assert(final(self).keys_view() =~= old(self).keys_view().push(k@));
                    assert(final(self).keys_view()[n as int] == k@);
                    assert(final(self).spec_contains(k@));
                }
            },
        }
        proof {
            lemma_tag_insert_lookup(old(self).keys_view(), old(self).vals_seq(), self.keys_view(), self.vals_seq(), k@, v);
        }
    }
}

/// After a tag-map insert, lookups behave as a map update: the inserted key
/// yields the new value, every other key is untouched, and no key appears
/// from nowhere.
proof fn lemma_tag_insert_lookup<V>(
    old_keys: Seq<Seq<char>>,
    old_vals: Seq<V>,
    new_keys: Seq<Seq<char>>,
    new_vals: Seq<V>,
    k: Seq<char>,
    v: V,
)
    requires
        old_keys.len() == old_vals.len(),
        forall|a: int, b: int| 0 <= a < b < old_keys.len() ==> old_keys[a] != old_keys[b],
        new_keys == tag_insert_keys(old_keys, k),
        new_vals == tag_insert_vals(old_keys, old_vals, k, v),
    ensures
        new_keys.contains(k),
        new_vals[find_first(new_keys, k)] == v,
        forall|k2: Seq<char>|
            k2 != k && old_keys.contains(k2) ==> new_keys.contains(k2) && new_vals[find_first(
                new_keys,
                k2,
            )] == old_vals[find_first(old_keys, k2)],
        forall|k2: Seq<char>| #[trigger] new_keys.contains(k2) ==> k2 == k || old_keys.contains(k2),
        new_keys.len() == old_keys.len() + (if old_keys.contains(k) {
            0int
        } else {
            1int
        }),
{
    lemma_find_first(old_keys, k);
    if old_keys.contains(k) {
        let f = find_first(old_keys, k);
        assert(new_keys == old_keys);
        assert(new_vals == old_vals.update(f, v));
        assert(new_vals[find_first(new_keys, k)] == v);
        assert forall|k2: Seq<char>| k2 != k && old_keys.contains(k2) implies new_keys.contains(
            k2,
        ) && new_vals[find_first(new_keys, k2)] == old_vals[find_first(old_keys, k2)] by {
            lemma_find_first(old_keys, k2);
            let f2 = find_first(old_keys, k2);
            assert(old_keys[f2] == k2);
            assert(f2 != f);
        }
    } else {
        assert(new_keys == old_keys.push(k));
        assert(new_vals == old_vals.push(v));
        lemma_find_first_push(old_keys, k);
        assert(new_keys[old_keys.len() as int] == k);
        assert(new_keys.contains(k));
        assert(new_vals[find_first(new_keys, k)] == v);
        assert forall|k2: Seq<char>| k2 != k && old_keys.contains(k2) implies new_keys.contains(
            k2,
        ) && new_vals[find_first(new_keys, k2)] == old_vals[find_first(old_keys, k2)] by {
            lemma_find_first(old_keys, k2);
            let f2 = find_first(old_keys, k2);
            assert(old_keys[f2] == k2);
            assert(new_keys[f2] == k2);
            assert(new_keys.contains(k2));
            assert forall|a: int, b: int|
                0 <= a < b < new_keys.len() implies new_keys[a] != new_keys[b] by {
                if b == new_keys.len() - 1 {
                    assert(new_keys[b] == k);
                    assert(new_keys[a] == old_keys[a]);
                    assert(old_keys.contains(k) <== old_keys[a] == k) by {
                        if old_keys[a] == k {
                            assert(old_keys.contains(k));
                        }
                    }
                }
            }
            lemma_unique_find(new_keys, f2, k2);
        }
        assert forall|k2: Seq<char>| #[trigger] new_keys.contains(k2) implies k2 == k
            || old_keys.contains(k2) by {
            let j = choose|j: int| 0 <= j < new_keys.len() && new_keys[j] == k2;
            if j < old_keys.len() {
                assert(old_keys[j] == k2);
            }
        }
    }
}

/// A one-longer prefix holds exactly the old elements and the next one.
pub proof fn lemma_contains_take_succ<T>(s: Seq<T>, j: int, x: T)
    requires
        0 <= j < s.len(),
    ensures
        s.take(j + 1).contains(x) <==> (s.take(j).contains(x) || x == s[j]),
{
    let t = s.take(j + 1);
    if t.contains(x) {
        let l = choose|l: int| 0 <= l < t.len() && t[l] == x;
        if l < j {
            assert(s.take(j)[l] == x);
        }
    }
    if s.take(j).contains(x) {
        let l = choose|l: int| 0 <= l < j && s.take(j)[l] == x;
        assert(s.take(j + 1)[l] == x);
    }
    if x == s[j] {
        assert(s.take(j + 1)[j] == x);
    }
}

/// The sorted-insert position of `k`: the number of leading elements
/// smaller than `k`.
pub open spec fn lower_bound_pos(s: Seq<usize>, k: usize) -> int
    decreases s.len(),
{
    if s.len() == 0 {
        0
    } else if s[0] < k {
        1 + lower_bound_pos(s.drop_first(), k)
    } else {
        0
    }
}

/// The sorted-insert position lies within the sequence bounds.
pub proof fn lemma_lower_bound_range(s: Seq<usize>, k: usize)
    ensures
        0 <= lower_bound_pos(s, k) <= s.len(),
    decreases s.len(),
{
    if s.len() > 0 && s[0] < k {
        lemma_lower_bound_range(s.drop_first(), k);
    }
}

/// A position below which everything is smaller than `k` and at which (if it
/// exists) nothing is, is the sorted-insert position.
pub proof fn lemma_lower_bound_pos(s: Seq<usize>, k: usize, p: int)
    requires
        0 <= p <= s.len(),
        forall|j: int| 0 <= j < p ==> s[j] < k,
        p < s.len() ==> s[p] >= k,
    ensures
        lower_bound_pos(s, k) == p,
    decreases s.len(),
{
    if s.len() > 0 {
        if p == 0 {
        } else {
            assert(s[0] < k);
            assert forall|j: int| 0 <= j < p - 1 implies s.drop_first()[j] < k by {
                assert(s[j + 1] < k);
            }
            if p - 1 < s.drop_first().len() {
                assert(s.drop_first()[p - 1] == s[p]);
            }
            lemma_lower_bound_pos(s.drop_first(), k, p - 1);
        }
    }
}

/// The relation between a sorted map's contents before and after a new key
/// `k` with value `v` was inserted at its sorted position.
pub open spec fn inserted_sorted<V>(
    old_keys: Seq<usize>,
    old_vals: Seq<V>,
    new_keys: Seq<usize>,
    new_vals: Seq<V>,
    k: usize,
    v: V,
) -> bool {
    exists|p: int|
        {
            &&& 0 <= p <= old_keys.len()
            &&& new_keys == #[trigger] old_keys.insert(p, k)
            &&& new_vals == old_vals.insert(p, v)
        }
}

/// A map from unsigned integers to values, keys kept strictly ascending.
#[derive(Debug, Clone)]
pub struct HeightMap<V> {
    keys: Vec<usize>,
    vals: Vec<V>,
}

impl<V> HeightMap<V> {
    /// The keys, in ascending order.
    pub closed spec fn keys_view(&self) -> Seq<usize> {
        self.keys@
    }

    /// The values, in the same order as `keys_view`.
    pub closed spec fn vals_seq(&self) -> Seq<V> {
        self.vals@
    }

    /// Well-formedness: one value per key, keys strictly ascending.
    pub open spec fn wf(&self) -> bool {
        &&& self.keys_view().len() == self.vals_seq().len()
        &&& forall|i: int, j: int|
            0 <= i < j < self.keys_view().len() ==> self.keys_view()[i] < self.keys_view()[j]
    }

    /// Number of entries.
    pub open spec fn spec_len(&self) -> nat {
        self.keys_view().len()
    }

    /// Whether the map holds key `k`.
    pub open spec fn spec_contains(&self, k: usize) -> bool {
        self.keys_view().contains(k)
    }

    /// Position of key `k`, or `-1` if absent.
    pub open spec fn spec_find(&self, k: usize) -> int {
        find_first(self.keys_view(), k)
    }

    /// The value stored under key `k` (meaningful only if present).
    pub open spec fn spec_get(&self, k: usize) -> V {
        self.vals_seq()[self.spec_find(k)]
    }

    /// Creates an empty map.
    pub fn new() -> (r: Self)
        ensures
            r.wf(),
            r.keys_view() == Seq::<usize>::empty(),
            r.vals_seq() == Seq::<V>::empty(),
    {
        HeightMap { keys: Vec::new(), vals: Vec::new() }
    }

    /// Number of entries.
    pub fn len(&self) -> (r: usize)
        requires
            self.wf(),
        ensures
            r == self.spec_len(),
    {
        self.keys.len()
    }

    /// Position of key `k`, if present.
    pub fn index_of(&self, k: usize) -> (r: Option<usize>)
        requires
            self.wf(),
        ensures
            match r {
                Some(i) => self.spec_contains(k) && i == self.spec_find(k)
                    && i < self.spec_len(),
                None => !self.spec_contains(k),
            },
    {
        proof {
            lemma_find_first(self.keys_view(), k);
        }
        let n = self.keys.len();
        let mut i: usize = 0;
        while i < n
            invariant
                self.wf(),
                n == self.spec_len(),
                i <= n,
                forall|j: int| 0 <= j < i ==> self.keys_view()[j] != k,
                self.spec_contains(k) <==> 0 <= self.spec_find(k) < n,
                self.spec_contains(k) ==> self.keys_view()[self.spec_find(k)] == k,
                forall|j: int| 0 <= j < self.spec_find(k) ==> self.keys_view()[j] != k,
                !self.spec_contains(k) ==> self.spec_find(k) == -1,
            decreases n - i,
        {
            if self.keys[i] == k {
                return Some(i);
            }
            i = i + 1;
        }
        None
    }

    /// The key at position `i`.
    pub fn key_at(&self, i: usize) -> (r: usize)
        requires
            self.wf(),
            i < self.spec_len(),
        ensures
            r == self.keys_view()[i as int],
    {
        self.keys[i]
    }

    /// The value at position `i`.
    pub fn val_at(&self, i: usize) -> (r: &V)
        requires
            self.wf(),
            i < self.spec_len(),
        ensures
            *r == self.vals_seq()[i as int],
    {
        &self.vals[i]
    }

    /// Mutable access to the value at position `i`.
    pub fn val_at_mut(&mut self, i: usize) -> (r: &mut V)
        requires
            old(self).wf(),
            i < old(self).spec_len(),
        ensures
            *r == old(self).vals_seq()[i as int],
            final(self).keys_view() == old(self).keys_view(),
            final(self).vals_seq() == old(self).vals_seq().update(i as int, *final(r)),
            final(self).wf(),
    {
        vstd::std_specs::vec::vec_index_mut(&mut self.vals, i)
    }

    /// The value stored under key `k`, if present.
    pub fn get(&self, k: usize) -> (r: Option<&V>)
        requires
            self.wf(),
        ensures
            match r {
                Some(v) => self.spec_contains(k) && 0 <= self.spec_find(k) < self.spec_len()
                    && *v == self.spec_get(k),
                None => !self.spec_contains(k),
            },
    {
        match self.index_of(k) {
            Some(i) => Some(&self.vals[i]),
            None => None,
        }
    }

    /// Inserts `v` under `k`: replaces the value of an existing key in place,
    /// otherwise inserts a new entry at its sorted position.
    pub fn insert(&mut self, k: usize, v: V)
        requires
            old(self).wf(),
        ensures
            final(self).wf(),
            old(self).spec_contains(k) ==> {
                &&& 0 <= old(self).spec_find(k) < old(self).spec_len()
                &&& final(self).keys_view() == old(self).keys_view()
                &&& final(self).vals_seq() == old(self).vals_seq().update(
                    old(self).spec_find(k),
                    v,
                )
            },
            !old(self).spec_contains(k) ==> {
                &&& final(self).keys_view() == old(self).keys_view().insert(
                    lower_bound_pos(old(self).keys_view(), k),
                    k,
                )
                &&& final(self).vals_seq() == old(self).vals_seq().insert(
                    lower_bound_pos(old(self).keys_view(), k),
                    v,
                )
                &&& inserted_sorted(
                    old(self).keys_view(),
                    old(self).vals_seq(),
                    final(self).keys_view(),
                    final(self).vals_seq(),
                    k,
                    v,
                )
            },
            final(self).spec_contains(k),
            final(self).spec_get(k) == v,
            forall|k2: usize|
                #![trigger old(self).spec_contains(k2)]
                #![trigger final(self).spec_contains(k2)]
                #![trigger final(self).spec_get(k2)]
                k2 != k && old(self).spec_contains(k2) ==> final(self).spec_contains(k2)
                    && final(self).spec_get(k2) == old(self).spec_get(k2),
            forall|k2: usize| #[trigger]
                final(self).spec_contains(k2) ==> k2 == k || old(self).spec_contains(k2),
            final(self).spec_len() == old(self).spec_len() + (if old(self).spec_contains(k) {
                0int
            } else {
                1int
            }),
    {
        let n = self.keys.len();
        let mut i: usize = 0;
        // find the first position whose key is >= k
        while i < n && self.keys[i] < k
            invariant
                self.wf(),
                n == self.spec_len(),
                i <= n,
                forall|j: int| 0 <= j < i ==> self.keys_view()[j] < k,
            decreases n - i,
        {
            i = i + 1;
        }
        proof {
            lemma_find_first(self.keys_view(), k);
        }
        if i < n && self.keys[i] == k {
            proof {
                assert forall|j: int| 0 <= j < i implies self.keys_view()[j] != k by {}
                assert(self.spec_find(k) == i);
            }
            self.vals[i] = v;
            proof {
                assert(final(self).keys_view() =~= old(self).keys_view());
                assert(final(self).spec_get(k) == v);
                assert forall|k2: usize|
                    k2 != k && old(self).spec_contains(k2) implies final(self).spec_contains(k2)
                    && final(self).spec_get(k2) == old(self).spec_get(k2) by {
                    lemma_find_first(old(self).keys_view(), k2);
                    let f2 = find_first(old(self).keys_view(), k2);
                    assert(old(self).keys_view()[f2] == k2);
                    assert(f2 != i);
                }
            }
        } else {
            proof {
                assert forall|j: int| 0 <= j < self.keys_view().len() implies self.keys_view()[j]
                    != k by {
                    if j >= i {
                        assert(self.keys_view()[i as int] <= self.keys_view()[j]);
                    }
                }
                assert(!self.spec_contains(k));
            }
            self.keys.insert(i, k);
            self.vals.insert(i, v);
            proof {
                assert(final(self).keys_view() == old(self).keys_view().insert(i as int, k));
                assert(final(self).vals_seq() == old(self).vals_seq().insert(i as int, v));
                assert(final(self).keys_view()[i as int] == k);
                assert(final(self).spec_contains(k));
                assert forall|a: int, b: int|
                    0 <= a < b < final(self).keys_view().len() implies final(self).keys_view()[a]
                    < final(self).keys_view()[b] by {
                    let kv = old(self).keys_view();
                    if a < i && b > i {
                        assert(final(self).keys_view()[a] == kv[a]);
                        assert(final(self).keys_view()[b] == kv[b - 1]);
                    }
                }
                assert(final(self).keys_view() == old(self).keys_view().insert(i as int, k));
                lemma_lower_bound_pos(old(self).keys_view(), k, i as int);
                let ok = old(self).keys_view();
                let nk = final(self).keys_view();
                assert forall|a: int, b: int| 0 <= a < b < ok.len() implies ok[a] != ok[b] by {}
                assert(nk[i as int] == k);
                assert(nk.contains(k));
                assert forall|a: int, b: int| 0 <= a < b < nk.len() implies nk[a] != nk[b] by {}
                lemma_unique_find(nk, i as int, k);
                assert(final(self).spec_get(k) == v);
                assert forall|k2: usize|
                    k2 != k && old(self).spec_contains(k2) implies final(self).spec_contains(k2)
                    && final(self).spec_get(k2) == old(self).spec_get(k2) by {
                    lemma_find_first(ok, k2);
                    let f2 = find_first(ok, k2);
                    assert(ok[f2] == k2);
                    let nf2 = if f2 < i as int {
                        f2
                    } else {
                        f2 + 1
                    };
                    assert(nk[nf2] == k2);
                    assert(nk.contains(k2));
                    lemma_unique_find(nk, nf2, k2);
                    assert(final(self).vals_seq()[nf2] == old(self).vals_seq()[f2]);
                }
                assert forall|k2: usize| #[trigger] final(self).spec_contains(k2) implies k2 == k
                    || old(self).spec_contains(k2) by {
                    let j = choose|j: int| 0 <= j < nk.len() && nk[j] == k2;
                    if j != i as int {
                        let oj = if j < i as int {
                            j
                        } else {
                            j - 1
                        };
                        assert(ok[oj] == k2);
                    }
                }
            }
        }
    }

    /// The largest key together with its value, if the map is not empty.
    pub fn last_entry(&self) -> (r: Option<(usize, &V)>)
        requires
            self.wf(),
        ensures
            match r {
                Some((k, v)) => self.spec_len() > 0 && k == self.keys_view().last() && *v
                    == self.vals_seq().last(),
                None => self.spec_len() == 0,
            },
    {
        let n = self.keys.len();
        if n == 0 {
            None
        } else {
            Some((self.keys[n - 1], &self.vals[n - 1]))
        }
    }
}

} // verus!
