//! A bijective surrogate-key allocator: business objects are paired with
//! dense integer primary keys in a bidirectional map, and the always-valid
//! `next_key` cursor points at the lowest key not in use.
//!
//! The pairing itself lives in a [`bimap::BiMap`], reached only through the
//! trusted wrappers at the top of this file; everything proved about the
//! allocator rests on their contracts.

use vstd::prelude::*;
use vstd::set_lib::{lemma_int_range, lemma_len_subset, set_int_range};

verus! {

#[verifier::external_type_specification]
#[verifier::external_body]
#[verifier::reject_recursive_types(L)]
#[verifier::reject_recursive_types(R)]
#[verifier::reject_recursive_types(LS)]
#[verifier::reject_recursive_types(RS)]
pub struct ExBiHashMap<L, R, LS, RS>(bimap::BiHashMap<L, R, LS, RS>);

/// The pairs a bidirectional map holds, read as a map from key to object.
pub uninterp spec fn bi_entries(m: bimap::BiMap<u64, String>) -> Map<int, Seq<char>>;

/// No two keys are paired with the same object.
pub open spec fn bij(m: Map<int, Seq<char>>) -> bool {
    forall|k1: int, k2: int|
        m.dom().contains(k1) && m.dom().contains(k2) && m[k1] == m[k2] ==> k1 == k2
}

/// What `bimap`'s `insert` leaves behind: any pair sharing the object goes,
/// any pair sharing the key is overwritten, and the new pair is present.
pub open spec fn bi_insert_model(m: Map<int, Seq<char>>, k: int, v: Seq<char>) -> Map<
    int,
    Seq<char>,
> {
    m.remove_keys(Set::new(|j: int| m.dom().contains(j) && m[j] == v)).insert(k, v)
}

/// The empty key-to-object map.
pub open spec fn no_entries() -> Map<int, Seq<char>> {
    Map::<int, Seq<char>>::empty()
}

/// Relies on `bimap::BiHashMap::new`: the fresh map holds no pairs.
#[verifier::external_body]
fn bi_new() -> (r: bimap::BiMap<u64, String>)
    ensures
        bi_entries(r) == no_entries(),
{
    bimap::BiMap::new()
}

/// `n` is the number of pairs of a map that has the shape every bimap has
/// by construction: finitely many pairs, no object in two of them.
pub open spec fn bi_shape(m: Map<int, Seq<char>>, n: nat) -> bool {
    &&& n == m.len()
    &&& m.dom().finite()
    &&& bij(m)
}

/// Relies on `bimap::BiHashMap::len`: the number of pairs held. A bimap is a
/// finite collection in which each left value and each right value appears
/// in at most one pair, so its entries are a finite, injective map.
#[verifier::external_body]
fn bi_len(m: &bimap::BiMap<u64, String>) -> (r: usize)
    ensures
        bi_shape(bi_entries(*m), r as nat),
{
    m.len()
}

/// Relies on `bimap::BiHashMap::contains_left`: whether some pair holds the
/// given key.
#[verifier::external_body]
fn bi_contains_left(m: &bimap::BiMap<u64, String>, k: u64) -> (r: bool)
    ensures
        r == bi_entries(*m).dom().contains(k as int),
{
    m.contains_left(&k)
}

/// Relies on `bimap::BiHashMap::get_by_right`: the key paired with the given
/// object, if any pair holds it.
#[verifier::external_body]
fn bi_get_by_right(m: &bimap::BiMap<u64, String>, v: &String) -> (r: Option<u64>)
    ensures
        match r {
            Some(k) => bi_entries(*m).contains_pair(k as int, v@),
            None => forall|k: int|
                bi_entries(*m).dom().contains(k) ==> bi_entries(*m)[k] != v@,
        },
{
    m.get_by_right(v).copied()
}

/// Relies on `bimap::BiHashMap::insert`: the pair goes in, displacing any
/// pair that held the same key and any pair that held the same object.
#[verifier::external_body]
fn bi_insert(m: &mut bimap::BiMap<u64, String>, k: u64, v: String)
    ensures
        bi_entries(*final(m)) == bi_insert_model(bi_entries(*old(m)), k as int, v@),
{
    m.insert(k, v);
}

/// Relies on `bimap::BiHashMap::iter`: every pair is yielded exactly once,
/// in no promised order.
#[verifier::external_body]
fn bi_pairs(m: &bimap::BiMap<u64, String>) -> (r: Vec<(u64, String)>)
    ensures
        r@.len() == bi_entries(*m).len(),
        forall|i: int|
            0 <= i < r@.len() ==> bi_entries(*m).contains_pair(
                #[trigger] r@[i].0 as int,
                r@[i].1@,
            ),
        forall|i: int, j: int| 0 <= i < j < r@.len() ==> r@[i].0 != r@[j].0,
        forall|k: int|
            bi_entries(*m).dom().contains(k) ==> exists|i: int|
                0 <= i < r@.len() && #[trigger] r@[i].0 as int == k,
{
    m.iter().map(|p| (*p.0, p.1.clone())).collect()
}

/// `k` is the smallest nonnegative integer not used as a key.
pub open spec fn is_lowest_free(m: Map<int, Seq<char>>, k: int) -> bool {
    &&& k >= 0
    &&& !m.dom().contains(k)
    &&& forall|j: int| 0 <= j < k ==> m.dom().contains(j)
}

/// Some key is paired with the object `v`.
pub open spec fn has_obj(m: Map<int, Seq<char>>, v: Seq<char>) -> bool {
    exists|k: int| m.contains_pair(k, v)
}

/// The key paired with the object `v`.
pub open spec fn key_of(m: Map<int, Seq<char>>, v: Seq<char>) -> int {
    choose|k: int| m.contains_pair(k, v)
}

/// If keys `0, 1, ..., next - 1` are all in use, at most `len` keys below
/// `next` exist, so `next` cannot pass the number of pairs.
proof fn lemma_prefix_bound(m: Map<int, Seq<char>>, next: int)
    requires
        m.dom().finite(),
        next >= 0,
        forall|j: int| 0 <= j < next ==> m.dom().contains(j),
    ensures
        next <= m.len(),
{
    let s = set_int_range(0, next);
    lemma_int_range(0, next);
    assert(s.subset_of(m.dom()));
    lemma_len_subset(s, m.dom());
}

/// Tracks used primary keys and hands out the next available one.
///
/// The bidirectional map pairs each key with one object and each object with
/// one key; `next_key` is kept at the lowest unused nonnegative key.
#[derive(Debug)]
pub struct KeyMap {
    pub bimap: bimap::BiMap<u64, String>,
    pub next_key: u64,
}

impl KeyMap {
    /// The pairs currently held, key to object.
    pub open spec fn entries(self) -> Map<int, Seq<char>> {
        bi_entries(self.bimap)
    }

    /// The allocator's invariant: the pairing is a finite bijection and
    /// `next_key` is the lowest free key.
    pub open spec fn wf(self) -> bool {
        &&& self.entries().dom().finite()
        &&& bij(self.entries())
        &&& is_lowest_free(self.entries(), self.next_key as int)
    }

    /// An empty allocator: no keys in use, so the next key is zero.
    pub fn new() -> (r: KeyMap)
        ensures
            r.wf(),
            r.entries() == no_entries(),
            r.next_key == 0,
    {
        let bimap = bi_new();
        KeyMap { bimap, next_key: 0 }
    }

    /// Finds the lowest available key, starting from zero.
    pub fn calc_lowest_key(map: &bimap::BiMap<u64, String>) -> (k: u64)
        ensures
            is_lowest_free(bi_entries(*map), k as int),
    {
        let ghost len = bi_entries(*map).len();
        let _ = bi_len(map);
        let mut next: u64 = 0;
        while bi_contains_left(map, next)
            invariant
                bi_entries(*map).dom().finite(),
                bi_entries(*map).len() == len,
                len <= u64::MAX,
                forall|j: int| 0 <= j < next ==> bi_entries(*map).dom().contains(j),
            decreases len - next as int,
        {
            proof {
                lemma_prefix_bound(bi_entries(*map), next as int + 1);
            }
            next = next + 1;
        }
        next
    }

    /// Wrap a prepared bidirectional map, recomputing the free-key cursor.
    pub fn from(bimap: bimap::BiMap<u64, String>) -> (r: KeyMap)
        ensures
            r.wf(),
            r.entries() == bi_entries(bimap),
    {
        let _ = bi_len(&bimap);
        let starting_key = Self::calc_lowest_key(&bimap);
        KeyMap { bimap, next_key: starting_key }
    }

    /// Move the cursor up to the next free key. Scanning starts at the
    /// current cursor, so this finds the lowest free key of the whole map
    /// only when no key below the cursor is free — which the caller states.
    pub fn calc_next_key(&mut self)
        requires
            old(self).entries().dom().finite(),
            forall|j: int| 0 <= j < old(self).next_key ==> old(self).entries().dom().contains(j),
        ensures
            final(self).bimap == old(self).bimap,
            is_lowest_free(final(self).entries(), final(self).next_key as int),
            final(self).next_key >= old(self).next_key,
    {
        let ghost len = self.entries().len();
        let _ = bi_len(&self.bimap);
        while bi_contains_left(&self.bimap, self.next_key)
            invariant
                self.bimap == old(self).bimap,
                self.entries().dom().finite(),
                self.entries().len() == len,
                len <= u64::MAX,
                self.next_key >= old(self).next_key,
                forall|j: int| 0 <= j < self.next_key ==> self.entries().dom().contains(j),
            decreases len - self.next_key as int,
        {
            proof {
                lemma_prefix_bound(self.entries(), self.next_key as int + 1);
            }
            self.next_key = self.next_key + 1;
        }
    }

    /// Show the next available key without allocating it.
    pub fn see_next_key(&self) -> (r: &u64)
        ensures
            *r == self.next_key,
    {
        &self.next_key
    }

    /// Look the object up; if it is already paired, return its key and
    /// change nothing. Otherwise pair it with the next free key, move the
    /// cursor to the new lowest free key, and return the key just used.
    pub fn transact(&mut self, value: String) -> (key: u64)
        requires
            old(self).wf(),
        ensures
            final(self).wf(),
            final(self).entries().contains_pair(key as int, value@),
            has_obj(old(self).entries(), value@) ==> {
                &&& *final(self) == *old(self)
                &&& key as int == key_of(old(self).entries(), value@)
            },
            !has_obj(old(self).entries(), value@) ==> {
                &&& key == old(self).next_key
                &&& final(self).entries() == old(self).entries().insert(key as int, value@)
            },
    {
        if let Some(key) = bi_get_by_right(&self.bimap, &value) {
            proof {
                let m = self.entries();
                assert(m.contains_pair(key as int, value@));
                let w = key_of(m, value@);
                assert(m.contains_pair(w, value@));
                assert(w == key as int);
            }
            key
        } else {
            let key = self.next_key;
            let ghost m0 = self.entries();
            bi_insert(&mut self.bimap, key, value);
            proof {
                let removed = Set::new(|j: int| m0.dom().contains(j) && m0[j] == value@);
                assert(removed =~= Set::<int>::empty());
                assert(m0.remove_keys(removed) =~= m0);
                assert(self.entries() =~= m0.insert(key as int, value@));
                assert(self.entries().dom() =~= m0.dom().insert(key as int));
                assert forall|j: int| 0 <= j <= key as int implies self.entries()
                    .dom()
                    .contains(j) by {}
                assert(bij(self.entries())) by {
                    assert forall|k1: int, k2: int|
                        self.entries().dom().contains(k1) && self.entries().dom().contains(k2)
                            && self.entries()[k1] == self.entries()[k2] implies k1 == k2 by {
                        if k1 != key as int && k2 != key as int {
                            assert(m0[k1] == m0[k2]);
                        } else if k1 == key as int && k2 != key as int {
                            assert(m0.contains_pair(k2, value@));
                        } else if k1 != key as int && k2 == key as int {
                            assert(m0.contains_pair(k1, value@));
                        }
                    }
                }
            }
            self.calc_next_key();
            key
        }
    }
}

/// The map that inserting the listed pairs, first to last, leaves in a
/// fresh bidirectional map.
pub open spec fn pairs_map(s: Seq<(u64, String)>) -> Map<int, Seq<char>>
    decreases s.len(),
{
    if s.len() == 0 {
        no_entries()
    } else {
        bi_insert_model(pairs_map(s.drop_last()), s.last().0 as int, s.last().1@)
    }
}

impl KeyMap {
    /// Every pair currently held, in no promised order: the rows that
    /// persisting the allocator writes, one statement execution per pair.
    pub fn pairs(&self) -> (r: Vec<(u64, String)>)
        ensures
            r@.len() == self.entries().len(),
            forall|i: int|
                0 <= i < r@.len() ==> self.entries().contains_pair(
                    #[trigger] r@[i].0 as int,
                    r@[i].1@,
                ),
            forall|i: int, j: int| 0 <= i < j < r@.len() ==> r@[i].0 != r@[j].0,
            forall|k: int|
                self.entries().dom().contains(k) ==> exists|i: int|
                    0 <= i < r@.len() && #[trigger] r@[i].0 as int == k,
    {
        bi_pairs(&self.bimap)
    }

    /// Build an allocator from fetched rows of two columns each, key then
    /// object, inserting them in row order and recomputing the cursor.
    pub fn from_pairs(rows: &Vec<(u64, String)>) -> (r: KeyMap)
        ensures
            r.wf(),
            r.entries() == pairs_map(rows@),
    {
        let mut bimap = bi_new();
        let mut i: usize = 0;
        proof {
            assert(rows@.subrange(0, 0) =~= Seq::<(u64, String)>::empty());
        }
        while i < rows.len()
            invariant
                i <= rows@.len(),
                bi_entries(bimap) == pairs_map(rows@.subrange(0, i as int)),
            decreases rows@.len() - i as int,
        {
            let p = &rows[i];
            let k = p.0;
            let v = p.1.clone();
            bi_insert(&mut bimap, k, v);
            proof {
                let t = rows@.subrange(0, i as int + 1);
                assert(t.drop_last() =~= rows@.subrange(0, i as int));
                assert(t.last() == rows@[i as int]);
            }
            i = i + 1;
        }
        proof {
            assert(rows@.subrange(0, rows@.len() as int) =~= rows@);
        }
        KeyMap::from(bimap)
    }
}

/// There is only one lowest free key.
pub proof fn lemma_lowest_free_unique(m: Map<int, Seq<char>>, a: int, b: int)
    requires
        is_lowest_free(m, a),
        is_lowest_free(m, b),
    ensures
        a == b,
{
    if a < b {
        assert(m.dom().contains(a));
    }
    if b < a {
        assert(m.dom().contains(b));
    }
}

/// Round-trip persistence: a listing that holds exactly the pairs of a
/// bijection, each key once, rebuilds that bijection exactly — so a persist
/// followed by a reload restores the entries, and with them the lowest free
/// key.
pub proof fn lemma_round_trip(m: Map<int, Seq<char>>, s: Seq<(u64, String)>)
    requires
        m.dom().finite(),
        bij(m),
        forall|i: int|
            0 <= i < s.len() ==> m.contains_pair(#[trigger] s[i].0 as int, s[i].1@),
        forall|i: int, j: int| 0 <= i < j < s.len() ==> s[i].0 != s[j].0,
        forall|k: int|
            m.dom().contains(k) ==> exists|i: int| 0 <= i < s.len() && #[trigger] s[i].0 as int
                == k,
    ensures
        pairs_map(s) == m,
    decreases s.len(),
{
    if s.len() == 0 {
        assert forall|k: int| !m.dom().contains(k) by {}
        assert(m =~= no_entries());
    } else {
        let p = s.last();
        let key = p.0 as int;
        let m2 = m.remove(key);
        let s2 = s.drop_last();
        assert(m.contains_pair(key, p.1@));
        assert(m2.dom() =~= m.dom().remove(key));
        assert forall|i: int|
            0 <= i < s2.len() implies m2.contains_pair(#[trigger] s2[i].0 as int, s2[i].1@) by {
            assert(s2[i] == s[i]);
            assert(s[i].0 != p.0);
        }
        assert forall|k: int| m2.dom().contains(k) implies exists|i: int|
            0 <= i < s2.len() && #[trigger] s2[i].0 as int == k by {
            let i = choose|i: int| 0 <= i < s.len() && #[trigger] s[i].0 as int == k;
            assert(i < s.len() - 1);
            assert(s2[i] == s[i]);
        }
        lemma_round_trip(m2, s2);
        let removed = Set::new(|j: int| m2.dom().contains(j) && m2[j] == p.1@);
        assert forall|j: int| !removed.contains(j) by {
            if m2.dom().contains(j) && m2[j] == p.1@ {
                assert(m.contains_pair(j, p.1@));
                assert(j == key);
            }
        }
        assert(removed =~= Set::<int>::empty());
        assert(m2.remove_keys(removed) =~= m2);
        assert(pairs_map(s) =~= m2.insert(key, p.1@));
        assert(m2.insert(key, p.1@) =~= m);
    }
}

/// Two back-to-back `transact` calls with one object return the same key
/// and allocate only once: the first call that inserts the pair leaves a
/// map in which the object is present, and the only key paired with it is
/// the one just allocated, so the second call finds it and changes nothing.
pub proof fn lemma_transact_idempotent(m: Map<int, Seq<char>>, next: int, v: Seq<char>)
    requires
        !has_obj(m, v),
    ensures
        has_obj(m.insert(next, v), v),
        key_of(m.insert(next, v), v) == next,
{
    assert(m.insert(next, v).contains_pair(next, v));
    let w = key_of(m.insert(next, v), v);
    assert(m.insert(next, v).contains_pair(w, v));
    if w != next {
        assert(m.contains_pair(w, v));
    }
}

} // verus!
