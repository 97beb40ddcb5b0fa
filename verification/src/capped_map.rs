//! A size-capped map with first-in, first-out eviction.

use vstd::prelude::*;
use crate::text::str_eq;

verus! {

broadcast use vstd::seq::group_seq_axioms;

/// Keys that can be compared; two keys are the same where their views are.
pub trait MapKey: View + Sized {
    fn same(&self, other: &Self) -> (r: bool)
        ensures
            r == (self@ == other@),
    ;
}

impl<'a> MapKey for &'a str {
    fn same(&self, other: &Self) -> (r: bool) {
        str_eq(self, other)
    }
}

impl MapKey for String {
    fn same(&self, other: &Self) -> (r: bool) {
        str_eq(self.as_str(), other.as_str())
    }
}

impl MapKey for (String, String) {
    fn same(&self, other: &Self) -> (r: bool) {
        str_eq(self.0.as_str(), other.0.as_str()) && str_eq(self.1.as_str(), other.1.as_str())
    }
}

/// The index of the pair with the given key, or the number of pairs.
pub open spec fn key_index<K, V>(pairs: Seq<(K, V)>, key: K) -> int
    decreases pairs.len(),
{
    if pairs.len() == 0 {
        0
    } else if pairs[0].0 == key {
        0
    } else {
        1 + key_index(pairs.drop_first(), key)
    }
}

/// Whether there is a pair with the given key.
pub open spec fn has_key<K, V>(pairs: Seq<(K, V)>, key: K) -> bool {
    exists|i: int| 0 <= i < pairs.len() && (#[trigger] pairs[i]).0 == key
}

/// The value of the pair with the given key.
pub open spec fn value_of<K, V>(pairs: Seq<(K, V)>, key: K) -> Option<V> {
    if has_key(pairs, key) {
        Some(pairs[key_index(pairs, key)].1)
    } else {
        None
    }
}

/// The pairs without the one with the given key.
pub open spec fn without_key<K, V>(pairs: Seq<(K, V)>, key: K) -> Seq<(K, V)> {
    if has_key(pairs, key) {
        pairs.remove(key_index(pairs, key))
    } else {
        pairs
    }
}

/// No two pairs have the same key.
pub open spec fn distinct_keys<K, V>(pairs: Seq<(K, V)>) -> bool {
    forall|i: int, j: int|
        0 <= i < j < pairs.len() ==> (#[trigger] pairs[i]).0 != (#[trigger] pairs[j]).0
}

pub proof fn lemma_key_index<K, V>(pairs: Seq<(K, V)>, key: K)
    ensures
        0 <= key_index(pairs, key) <= pairs.len(),
        has_key(pairs, key) <==> key_index(pairs, key) < pairs.len(),
        has_key(pairs, key) ==> pairs[key_index(pairs, key)].0 == key,
        forall|i: int| 0 <= i < key_index(pairs, key) ==> (#[trigger] pairs[i]).0 != key,
    decreases pairs.len(),
{
    if pairs.len() > 0 {
        let rest = pairs.drop_first();
        lemma_key_index(rest, key);
        if pairs[0].0 != key {
            if has_key(pairs, key) {
                let i = choose|i: int| 0 <= i < pairs.len() && (#[trigger] pairs[i]).0 == key;
                assert(rest[i - 1].0 == key);
                assert(has_key(rest, key));
            }
            if has_key(rest, key) {
                let i = choose|i: int| 0 <= i < rest.len() && (#[trigger] rest[i]).0 == key;
                assert(pairs[i + 1].0 == key);
            }
            assert forall|i: int| 0 <= i < key_index(pairs, key) implies (
            #[trigger] pairs[i]).0 != key by {
                if i > 0 {
                    assert(rest[i - 1] == pairs[i]);
                }
            }
        } else {
            assert(pairs[0].0 == key);
        }
    }
}

/// Where keys are distinct, an index with the key is the index of the key.
pub proof fn lemma_key_at<K, V>(pairs: Seq<(K, V)>, key: K, i: int)
    requires
        distinct_keys(pairs),
        0 <= i < pairs.len(),
        pairs[i].0 == key,
    ensures
        key_index(pairs, key) == i,
        has_key(pairs, key),
{
    lemma_key_index(pairs, key);
    assert(has_key(pairs, key));
}

/// What a capped map holds.
pub struct CappedState<K, V> {
    /// The pairs, in the order in which their keys came in, the oldest first.
    pub pairs: Seq<(K, V)>,
    pub cap: nat,
}

impl<K, V> CappedState<K, V> {
    /// No key is held twice, and no more pairs are held than the cap allows.
    pub open spec fn inv(self) -> bool {
        &&& distinct_keys(self.pairs)
        &&& self.pairs.len() <= self.cap
    }

    /// The state after the insertion of a pair: a key that is there keeps its
    /// place, a new one comes last, and on overflow the oldest pair leaves.
    pub open spec fn insert(self, key: K, value: V) -> CappedState<K, V> {
        if has_key(self.pairs, key) {
            CappedState {
                pairs: self.pairs.update(key_index(self.pairs, key), (key, value)),
                ..self
            }
        } else {
            let pairs = self.pairs.push((key, value));
            if pairs.len() > self.cap {
                CappedState { pairs: pairs.drop_first(), ..self }
            } else {
                CappedState { pairs, ..self }
            }
        }
    }
}

/// A map with a maximum capacity that evicts the oldest entry on overflow.
/// Inserting a key that is there updates its value and not its turn.
pub struct CappedMap<K, V> {
    entries: Vec<(K, V)>,
    cap: usize,
}

impl<K: MapKey, V> CappedMap<K, V> {
    /// What the map holds.
    pub closed spec fn state(self) -> CappedState<K::V, V> {
        CappedState { pairs: pair_views(self.entries@), cap: self.cap as nat }
    }

    pub fn new(cap: usize) -> (r: CappedMap<K, V>)
        ensures
            r.state().inv(),
            r.state().pairs.len() == 0,
            r.state().cap == cap,
    {
        CappedMap { entries: Vec::new(), cap }
    }

    /// The index of the entry with the given key, or the number of entries.
    fn index_of(&self, key: &K) -> (r: usize)
        requires
            distinct_keys(self.state().pairs),
        ensures
            r == key_index(self.state().pairs, key@),
            r <= self.entries@.len(),
            r < self.entries@.len() <==> has_key(self.state().pairs, key@),
    {
        let ghost pairs = self.state().pairs;
        proof {
            lemma_key_index(pairs, key@);
        }
        let mut i: usize = 0;
        while i < self.entries.len()
            invariant
                i <= self.entries@.len(),
                pairs == self.state().pairs,
                distinct_keys(pairs),
                forall|k: int| 0 <= k < i ==> (#[trigger] pairs[k]).0 != key@,
            decreases self.entries@.len() - i,
        {
            assert(pairs[i as int].0 == self.entries@[i as int].0@);
            if self.entries[i].0.same(key) {
                proof {
                    lemma_key_at(pairs, key@, i as int);
                }
                return i;
            }
            i = i + 1;
        }
        proof {
            lemma_key_index(pairs, key@);
        }
        i
    }

    pub fn get(&self, key: &K) -> (r: Option<&V>)
        requires
            self.state().inv(),
        ensures
            match r {
                Some(v) => value_of(self.state().pairs, key@) == Some(*v),
                None => value_of(self.state().pairs, key@) is None,
            },
    {
        let i: usize = self.index_of(key);
        if i < self.entries.len() {
            Some(&self.entries[i].1)
        } else {
            None
        }
    }

    /// Inserts or updates a key. Returns whether the key was new.
    pub fn insert(&mut self, key: K, value: V) -> (r: bool)
        requires
            old(self).state().inv(),
        ensures
            final(self).state() == old(self).state().insert(key@, value),
            final(self).state().inv(),
            r == !has_key(old(self).state().pairs, key@),
    {
        let ghost start = self.state();
        let i: usize = self.index_of(&key);
        if i < self.entries.len() {
            self.entries.set(i, (key, value));
            proof {
                let end = self.state();
                assert(end.pairs =~= start.pairs.update(i as int, (key@, value)));
                lemma_key_index(start.pairs, key@);
                assert forall|a: int, b: int| 0 <= a < b < end.pairs.len() implies (
                #[trigger] end.pairs[a]).0 != (#[trigger] end.pairs[b]).0 by {
                    assert(start.pairs[a].0 != start.pairs[b].0);
                }
            }
            return false;
        }
        self.entries.push((key, value));
        let ghost middle = self.state();
        proof {
            assert(middle.pairs =~= start.pairs.push((key@, value)));
            lemma_pushed(start.pairs, key@, value);
        }
        if self.entries.len() > self.cap {
            let _ = self.entries.remove(0);
            assert(self.state().pairs =~= middle.pairs.drop_first());
        }
        true
    }

    pub fn contains_key(&self, key: &K) -> (r: bool)
        requires
            self.state().inv(),
        ensures
            r == has_key(self.state().pairs, key@),
    {
        self.index_of(key) < self.entries.len()
    }

    /// Removes a key. It no longer counts toward the cap.
    pub fn remove(&mut self, key: &K) -> (r: Option<V>)
        requires
            old(self).state().inv(),
        ensures
            r == value_of(old(self).state().pairs, key@),
            final(self).state() == (CappedState {
                pairs: without_key(old(self).state().pairs, key@),
                ..old(self).state()
            }),
            final(self).state().inv(),
    {
        let i: usize = self.index_of(key);
        if i < self.entries.len() {
            let ghost before = self.state().pairs;
            let entry: (K, V) = self.entries.remove(i);
            assert(self.state().pairs =~= before.remove(i as int));
            Some(entry.1)
        } else {
            None
        }
    }

    pub fn len(&self) -> (r: usize)
        ensures
            r == self.state().pairs.len(),
    {
        self.entries.len()
    }

    pub fn is_empty(&self) -> (r: bool)
        ensures
            r == (self.state().pairs.len() == 0),
    {
        self.entries.len() == 0
    }

    pub fn clear(&mut self)
        ensures
            final(self).state().inv(),
            final(self).state().pairs.len() == 0,
            final(self).state().cap == old(self).state().cap,
    {
        self.entries = Vec::new();
    }

    /// The values, in the order in which their keys came in.
    pub fn values(&self) -> (r: Vec<&V>)
        ensures
            r@ == Seq::new(self.state().pairs.len(), |i: int| &self.state().pairs[i].1),
    {
        let ghost all = Seq::new(self.state().pairs.len(), |i: int| &self.state().pairs[i].1);
        let mut list: Vec<&V> = Vec::new();
        let mut i: usize = 0;
        assert(list@ =~= all.take(0));
        while i < self.entries.len()
            invariant
                i <= self.entries@.len(),
                all == Seq::new(self.state().pairs.len(), |i: int| &self.state().pairs[i].1),
                list@ == all.take(i as int),
            decreases self.entries@.len() - i,
        {
            list.push(&self.entries[i].1);
            assert(all.take(i + 1) =~= all.take(i as int).push(&self.entries@[i as int].1));
            i = i + 1;
        }
        assert(all.take(self.entries@.len() as int) =~= all);
        list
    }

    /// Keeps only the entries for which the predicate returns true, with the
    /// values that it left. The keys of the others no longer count toward the
    /// cap.
    pub fn retain<F: Fn(&K, &mut V) -> bool>(&mut self, f: F)
        requires
            old(self).state().inv(),
            forall|k: &K, v: &mut V| #[trigger] call_requires(f, (k, v)),
        ensures
            final(self).state().inv(),
            final(self).state().cap == old(self).state().cap,
            exists|keep: Seq<bool>, left: Seq<V>| #[trigger]
                kept_by(keep, left, old(self).state().pairs, final(self).state().pairs)
                    && forall|i: int| #[trigger]
                    is_decided(keep, i) ==> exists|k: &K, v: &mut V| #[trigger]
                        call_ensures(f, (k, v), keep[i]) && k@ == old(self).state().pairs[i].0 && *v
                            == old(self).state().pairs[i].1 && *final(v) == left[i],
    {
        let ghost start = self.state();
        let ghost entries = self.entries@;
        let mut kept: Vec<(K, V)> = Vec::new();
        let mut rest: Vec<(K, V)> = Vec::new();
        std::mem::swap(&mut rest, &mut self.entries);
        let n: usize = rest.len();
        let mut i: usize = 0;
        let ghost mut keep: Seq<bool> = Seq::empty();
        let ghost mut left: Seq<V> = Seq::empty();
        proof {
            assert(rest@ =~= entries.skip(0));
            assert(pair_views(kept@) =~= kept_pairs(keep, left, start.pairs));
        }
        while i < n
            invariant
                i <= n == entries.len(),
                keep.len() == i,
                left.len() == i,
                rest@ == entries.skip(i as int),
                self.cap == old(self).cap,
                start.pairs == pair_views(entries),
                pair_views(kept@) == kept_pairs(keep, left, start.pairs),
                forall|k: &K, v: &mut V| #[trigger] call_requires(f, (k, v)),
                forall|j: int| #[trigger]
                    is_decided(keep, j) ==> exists|k: &K, v: &mut V| #[trigger]
                        call_ensures(f, (k, v), keep[j]) && k@ == start.pairs[j].0 && *v
                            == start.pairs[j].1 && *final(v) == left[j],
            decreases n - i,
        {
            let mut entry: (K, V) = rest.remove(0);
            assert(entry == entries[i as int]);
            assert(rest@ =~= entries.skip(i + 1));
            let stays: bool = decide(&f, &entry.0, &mut entry.1);
            proof {
                let value = entry.1;
                let before = (keep, left);
                keep = keep.push(stays);
                left = left.push(value);
                assert(keep.drop_last() =~= before.0);
                assert(left.drop_last() =~= before.1);
                assert forall|j: int| #[trigger]
                    is_decided(keep, j) implies exists|k: &K, v: &mut V| #[trigger]
                    call_ensures(f, (k, v), keep[j]) && k@ == start.pairs[j].0 && *v
                        == start.pairs[j].1 && *final(v) == left[j] by {
                    if j < i {
                        assert(is_decided(before.0, j));
                        assert(before.0[j] == keep[j]);
                    } else {
                        assert(keep[j] == stays);
                        assert(left[j] == value);
                        assert(start.pairs[j] == (entries[j].0@, entries[j].1));
                    }
                }
            }
            if stays {
                assert(pair_views(kept@.push(entry)) =~= pair_views(kept@).push(
                    (start.pairs[i as int].0, entry.1),
                ));
                kept.push(entry);
            }
            i = i + 1;
        }
        self.entries = kept;
        proof {
            lemma_kept(keep, left, start.pairs);
            assert(kept_by(keep, left, start.pairs, self.state().pairs));
        }
    }
}

/// Whether there is a decision with this index.
pub open spec fn is_decided(keep: Seq<bool>, i: int) -> bool {
    0 <= i < keep.len()
}

/// What the predicate says of an entry, whose value it may change.
fn decide<K, V, F: Fn(&K, &mut V) -> bool>(f: &F, key: &K, value: &mut V) -> (r: bool)
    requires
        forall|v: &mut V| #[trigger] call_requires(*f, (key, v)),
    ensures
        exists|v: &mut V| #[trigger]
            call_ensures(*f, (key, v), r) && *v == *old(value) && *final(v) == *final(value),
{
    f(key, value)
}

/// Entries with the views of their keys.
pub open spec fn pair_views<K: View, V>(entries: Seq<(K, V)>) -> Seq<(K::V, V)> {
    Seq::new(entries.len(), |i: int| (entries[i].0@, entries[i].1))
}

/// The pairs whose decision is to keep them, with the values that were left.
pub open spec fn kept_pairs<K, V>(keep: Seq<bool>, left: Seq<V>, pairs: Seq<(K, V)>) -> Seq<(K, V)>
    decreases keep.len(),
{
    if keep.len() == 0 {
        Seq::empty()
    } else {
        let before = kept_pairs(keep.drop_last(), left.drop_last(), pairs);
        if keep.last() {
            before.push((pairs[keep.len() - 1].0, left.last()))
        } else {
            before
        }
    }
}

/// Whether `after` are the pairs of `before` whose decision is to keep them, with
/// the values that were left.
pub open spec fn kept_by<K, V>(
    keep: Seq<bool>,
    left: Seq<V>,
    before: Seq<(K, V)>,
    after: Seq<(K, V)>,
) -> bool {
    &&& keep.len() == before.len()
    &&& left.len() == before.len()
    &&& after == kept_pairs(keep, left, before)
}

/// The keys that are kept were there before, and stay distinct.
pub proof fn lemma_kept<K, V>(keep: Seq<bool>, left: Seq<V>, pairs: Seq<(K, V)>)
    requires
        keep.len() <= pairs.len(),
        left.len() == keep.len(),
    ensures
        forall|i: int|
            0 <= i < kept_pairs(keep, left, pairs).len() ==> has_key(
                pairs.take(keep.len() as int),
                (#[trigger] kept_pairs(keep, left, pairs)[i]).0,
            ),
        distinct_keys(pairs) ==> distinct_keys(kept_pairs(keep, left, pairs)),
        kept_pairs(keep, left, pairs).len() <= keep.len(),
    decreases keep.len(),
{
    if keep.len() > 0 {
        let n = keep.len() as int;
        lemma_kept(keep.drop_last(), left.drop_last(), pairs);
        let rest = kept_pairs(keep.drop_last(), left.drop_last(), pairs);
        let all = kept_pairs(keep, left, pairs);
        let head = pairs.take(n - 1);
        assert forall|i: int| 0 <= i < all.len() implies has_key(
            pairs.take(n),
            (#[trigger] all[i]).0,
        ) by {
            if i < rest.len() {
                assert(all[i] == rest[i]);
                let k = choose|k: int| 0 <= k < head.len() && (#[trigger] head[k]).0 == rest[i].0;
                assert(pairs.take(n)[k].0 == rest[i].0);
            } else {
                assert(pairs.take(n)[n - 1].0 == all[i].0);
            }
        }
        if distinct_keys(pairs) && keep.last() {
            assert forall|a: int, b: int| 0 <= a < b < all.len() implies (
            #[trigger] all[a]).0 != (#[trigger] all[b]).0 by {
                if b == rest.len() {
                    assert(all[a] == rest[a]);
                    let k = choose|k: int|
                        0 <= k < head.len() && (#[trigger] head[k]).0 == rest[a].0;
                    assert(head[k] == pairs[k]);
                    assert(pairs[k].0 != pairs[n - 1].0);
                }
            }
        }
    }
}

/// A new key keeps the keys distinct.
proof fn lemma_pushed<K, V>(pairs: Seq<(K, V)>, key: K, value: V)
    requires
        distinct_keys(pairs),
        !has_key(pairs, key),
    ensures
        distinct_keys(pairs.push((key, value))),
{
    let all = pairs.push((key, value));
    assert forall|a: int, b: int| 0 <= a < b < all.len() implies (#[trigger] all[a]).0 != (
    #[trigger] all[b]).0 by {
        assert(all[a] == pairs[a]);
        if b < pairs.len() {
            assert(all[b] == pairs[b]);
        }
    }
}

/// A capped map never holds more pairs than its cap.
pub proof fn law_len_within_cap<K, V>(s: CappedState<K, V>, key: K, value: V)
    requires
        s.inv(),
    ensures
        s.insert(key, value).inv(),
        s.insert(key, value).pairs.len() <= s.cap,
{
    if has_key(s.pairs, key) {
        let end = s.insert(key, value);
        lemma_key_index(s.pairs, key);
        assert forall|a: int, b: int| 0 <= a < b < end.pairs.len() implies (
        #[trigger] end.pairs[a]).0 != (#[trigger] end.pairs[b]).0 by {
            assert(s.pairs[a].0 != s.pairs[b].0);
        }
    } else {
        lemma_pushed(s.pairs, key, value);
    }
}

/// Updating a key that is there evicts nothing and changes no turn.
pub proof fn law_update_keeps_order<K, V>(s: CappedState<K, V>, key: K, value: V)
    requires
        s.inv(),
        has_key(s.pairs, key),
    ensures
        s.insert(key, value).pairs.len() == s.pairs.len(),
        forall|i: int|
            0 <= i < s.pairs.len() ==> (#[trigger] s.insert(key, value).pairs[i]).0
                == s.pairs[i].0,
        value_of(s.insert(key, value).pairs, key) == Some(value),
{
    lemma_key_index(s.pairs, key);
    let pairs = s.insert(key, value).pairs;
    let at = key_index(s.pairs, key);
    assert(pairs[at].0 == key);
    assert(has_key(pairs, key));
    lemma_key_index(pairs, key);
    assert forall|i: int| 0 <= i < at implies (#[trigger] pairs[i]).0 != key by {
        assert(s.pairs[i].0 != key);
    }
}

/// A new key comes last, and evicts a pair only where as many pairs are held as
/// the cap allows: the oldest one, and no other.
pub proof fn law_evicts_oldest<K, V>(s: CappedState<K, V>, key: K, value: V)
    requires
        s.inv(),
        !has_key(s.pairs, key),
    ensures
        s.pairs.len() < s.cap ==> s.insert(key, value).pairs == s.pairs.push((key, value)),
        s.pairs.len() == s.cap && s.cap > 0 ==> s.insert(key, value).pairs
            == s.pairs.drop_first().push((key, value)),
        s.cap == 0 ==> s.insert(key, value).pairs.len() == 0,
{
    if s.cap > 0 {
        assert(s.pairs.push((key, value)).drop_first() =~= s.pairs.drop_first().push((key, value))
            || s.pairs.len() == 0);
    }
}

/// What was inserted last for a key is what is found for it, unless the cap is
/// zero.
pub proof fn law_insert_get<K, V>(s: CappedState<K, V>, key: K, value: V)
    requires
        s.inv(),
        s.cap > 0,
    ensures
        value_of(s.insert(key, value).pairs, key) == Some(value),
{
    if has_key(s.pairs, key) {
        law_update_keeps_order(s, key, value);
    } else {
        let pairs = s.insert(key, value).pairs;
        lemma_pushed(s.pairs, key, value);
        assert(pairs[pairs.len() - 1] == (key, value));
        lemma_key_at(pairs, key, pairs.len() - 1);
    }
}

/// A key that was removed can be inserted again as if it had never been there.
pub proof fn law_removed_counts_not<K, V>(s: CappedState<K, V>, removed: K, key: K, value: V)
    requires
        s.inv(),
        has_key(s.pairs, removed),
    ensures
        (CappedState { pairs: without_key(s.pairs, removed), ..s }).inv(),
        without_key(s.pairs, removed).len() < s.cap,
        !has_key(without_key(s.pairs, removed), key) ==> (CappedState {
            pairs: without_key(s.pairs, removed),
            ..s
        }).insert(key, value).pairs == without_key(s.pairs, removed).push((key, value)),
{
    lemma_key_index(s.pairs, removed);
}

/// A set with a maximum capacity and first-in, first-out eviction.
pub struct CappedSet<K> {
    inner: CappedMap<K, ()>,
}

impl<K: MapKey> CappedSet<K> {
    /// What the set holds.
    pub closed spec fn state(self) -> CappedState<K::V, ()> {
        self.inner.state()
    }

    pub fn new(cap: usize) -> (r: CappedSet<K>)
        ensures
            r.state().inv(),
            r.state().pairs.len() == 0,
            r.state().cap == cap,
    {
        CappedSet { inner: CappedMap::new(cap) }
    }

    /// Inserts a key. Returns whether the key was new.
    pub fn insert(&mut self, key: K) -> (r: bool)
        requires
            old(self).state().inv(),
        ensures
            final(self).state() == old(self).state().insert(key@, ()),
            final(self).state().inv(),
            r == !has_key(old(self).state().pairs, key@),
    {
        self.inner.insert(key, ())
    }

    pub fn contains(&self, key: &K) -> (r: bool)
        requires
            self.state().inv(),
        ensures
            r == has_key(self.state().pairs, key@),
    {
        self.inner.contains_key(key)
    }

    pub fn len(&self) -> (r: usize)
        ensures
            r == self.state().pairs.len(),
    {
        self.inner.len()
    }

    pub fn is_empty(&self) -> (r: bool)
        ensures
            r == (self.state().pairs.len() == 0),
    {
        self.inner.is_empty()
    }

    /// Keeps only the keys for which the predicate returns true.
    pub fn retain<F: Fn(&K) -> bool>(&mut self, f: F)
        requires
            old(self).state().inv(),
            forall|k: &K| #[trigger] call_requires(f, (k,)),
        ensures
            final(self).state().inv(),
            final(self).state().cap == old(self).state().cap,
            exists|keep: Seq<bool>, left: Seq<()>| #[trigger]
                kept_by(keep, left, old(self).state().pairs, final(self).state().pairs)
                    && forall|i: int|
                    0 <= i < keep.len() ==> exists|k: &K|
                        k@ == old(self).state().pairs[i].0 && call_ensures(
                            f,
                            (k,),
                            #[trigger] keep[i],
                        ),
    {
        let ghost before = self.state().pairs;
        let predicate = &f;
        let stays = |k: &K, _unit: &mut ()| -> (r: bool)
            ensures
                call_ensures(predicate, (k,), r),
            { predicate(k) };
        self.inner.retain(stays);
        proof {
            let after = self.state().pairs;
            let (keep, left) = choose|keep: Seq<bool>, left: Seq<()>| #[trigger]
                kept_by(keep, left, before, after) && forall|i: int| #[trigger]
                    is_decided(keep, i) ==> exists|k: &K, v: &mut ()| #[trigger]
                        call_ensures(stays, (k, v), keep[i]) && k@ == before[i].0 && *v
                            == before[i].1 && *final(v) == left[i];
            assert forall|i: int| 0 <= i < keep.len() implies exists|k: &K|
                k@ == before[i].0 && call_ensures(f, (k,), #[trigger] keep[i]) by {
                assert(is_decided(keep, i));
                let (k, v) = choose|k: &K, v: &mut ()| #[trigger]
                    call_ensures(stays, (k, v), keep[i]) && k@ == before[i].0 && *v == before[i].1
                        && *final(v) == left[i];
                assert(k@ == before[i].0 && call_ensures(f, (k,), keep[i]));
            }
        }
    }
}

/// What stays of pairs are those that are kept, with the values that were left to them,
/// in their order: `at` gives the place of each.
pub proof fn law_kept_in_order<K, V>(keep: Seq<bool>, left: Seq<V>, pairs: Seq<(K, V)>) -> (at: Seq<
    int,
>)
    requires
        keep.len() <= pairs.len(),
        left.len() == keep.len(),
    ensures
        ({
            let kept = kept_pairs(keep, left, pairs);
            &&& kept.len() == at.len()
            &&& forall|k: int|
                0 <= k < at.len() ==> 0 <= #[trigger] at[k] < keep.len() && keep[at[k]] && kept[k]
                    == (pairs[at[k]].0, left[at[k]])
            &&& forall|k: int, l: int| 0 <= k < l < at.len() ==> #[trigger] at[k] < #[trigger] at[l]
            &&& forall|i: int| 0 <= i < keep.len() && #[trigger] keep[i] ==> at.contains(i)
        }),
    decreases keep.len(),
{
    if keep.len() == 0 {
        Seq::empty()
    } else {
        let fewer = keep.drop_last();
        let before = law_kept_in_order(fewer, left.drop_last(), pairs);
        let n = keep.len() - 1;
        if keep.last() {
            let at = before.push(n);
            assert forall|i: int| 0 <= i < keep.len() && #[trigger] keep[i] implies at.contains(
                i,
            ) by {
                if i < n {
                    assert(fewer[i]);
                    let k = before.index_of(i);
                    assert(at[k] == i);
                } else {
                    assert(at[before.len() as int] == i);
                }
            }
            at
        } else {
            assert forall|i: int| 0 <= i < keep.len() && #[trigger] keep[i] implies before.contains(
                i,
            ) by {
                assert(fewer[i]);
            }
            before
        }
    }
}

/// What stays when a key is removed is every pair with another key, in its order.
pub proof fn law_removed_alone<K, V>(pairs: Seq<(K, V)>, key: K)
    requires
        distinct_keys(pairs),
    ensures
        without_key(pairs, key) == pairs.filter(|p: (K, V)| p.0 != key),
    decreases pairs.len(),
{
    reveal(Seq::filter);
    let test = |p: (K, V)| p.0 != key;
    if pairs.len() > 0 {
        let rest = pairs.drop_last();
        assert forall|i: int, j: int| 0 <= i < j < rest.len() implies (#[trigger] rest[i]).0 != (
        #[trigger] rest[j]).0 by {
            assert(pairs[i].0 != pairs[j].0);
        }
        law_removed_alone(rest, key);
        let n = rest.len() as int;
        if pairs.last().0 == key {
            assert(!has_key(rest, key)) by {
                if has_key(rest, key) {
                    let i = choose|i: int| 0 <= i < rest.len() && (#[trigger] rest[i]).0 == key;
                    assert(pairs[i].0 != pairs[n].0);
                }
            }
            assert(pairs[n].0 == key);
            lemma_key_at(pairs, key, n);
            assert(pairs.remove(n) =~= rest);
        } else if has_key(rest, key) {
            let i = choose|i: int| 0 <= i < rest.len() && (#[trigger] rest[i]).0 == key;
            assert(pairs[i].0 == key);
            lemma_key_at(pairs, key, i);
            lemma_key_at(rest, key, i);
            assert(pairs.remove(i) =~= rest.remove(i).push(pairs.last()));
        } else {
            assert(!has_key(pairs, key)) by {
                if has_key(pairs, key) {
                    let i = choose|i: int| 0 <= i < pairs.len() && (#[trigger] pairs[i]).0 == key;
                    assert(i < n);
                    assert(rest[i].0 == key);
                }
            }
            assert(rest.push(pairs.last()) =~= pairs);
        }
    }
}

} // verus!
