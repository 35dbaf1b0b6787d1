//! A map kept as a vector of entries in ascending order of their keys.
use vstd::prelude::*;

use crate::order::{before, rank_of, Parts, Rank};

verus! {

/// A key of a [`SortedMap`]: its model is ordered by what its components rank by.
pub trait OrderedKey: View + Sized {
    /// What the key is ordered by.
    spec fn ranked_by(key: Self::V) -> Seq<Parts>;

    /// Keys that rank alike are equal.
    proof fn lemma_ranked_by_injective(a: Self::V, b: Self::V)
        requires
            Self::ranked_by(a) == Self::ranked_by(b),
        ensures
            a == b,
    ;

    fn compare(&self, other: &Self) -> (rank: Rank)
        ensures
            rank == rank_of(Self::ranked_by(self@), Self::ranked_by(other@)),
    ;
}

/// `keys` runs from smaller to larger keys, each once.
pub open spec fn ascending<K: OrderedKey>(keys: Seq<K::V>) -> bool {
    forall|i: int, j: int|
        0 <= i < j < keys.len() ==> before(
            K::ranked_by(#[trigger] keys[i]),
            K::ranked_by(#[trigger] keys[j]),
        )
}

/// The members of a finite set of keys, in ascending order.
pub open spec fn in_order<K: OrderedKey>(keys: Set<K::V>) -> Seq<K::V> {
    choose|s: Seq<K::V>| #[trigger] ascending::<K>(s) && s.to_set() == keys
}

/// A key stands in an ascending sequence at one place only.
pub proof fn lemma_ascending_no_duplicates<K: OrderedKey>(s: Seq<K::V>)
    requires
        ascending::<K>(s),
    ensures
        s.no_duplicates(),
{
    assert forall|i: int, j: int| 0 <= i < s.len() && 0 <= j < s.len() && i != j implies s[i]
        != s[j] by {
        if s[i] == s[j] {
            let lo = if i < j { i } else { j };
            let hi = if i < j { j } else { i };
            assert(before(K::ranked_by(s[lo]), K::ranked_by(s[hi])));
            crate::order::lemma_before_irreflexive(K::ranked_by(s[lo]));
        }
    }
}

/// Two ascending sequences with the same members are the same sequence.
pub proof fn lemma_ascending_unique<K: OrderedKey>(s: Seq<K::V>, t: Seq<K::V>)
    requires
        ascending::<K>(s),
        ascending::<K>(t),
        s.to_set() == t.to_set(),
    ensures
        s == t,
    decreases s.len(),
{
    assert(forall|k: K::V| s.contains(k) <==> s.to_set().contains(k));
    assert(forall|k: K::V| t.contains(k) <==> t.to_set().contains(k));
    if s.len() == 0 {
        if t.len() > 0 {
            assert(t.contains(t[0]));
        }
        assert(s =~= t);
    } else {
        assert(s.contains(s.last()));
        assert(t.len() > 0);
        assert(t.contains(t.last()));
        let i = choose|i: int| 0 <= i < t.len() && t[i] == s.last();
        let j = choose|j: int| 0 <= j < s.len() && s[j] == t.last();
        if s.last() != t.last() {
            assert(before(K::ranked_by(t[i]), K::ranked_by(t.last())));
            assert(before(K::ranked_by(s[j]), K::ranked_by(s.last())));
            crate::order::lemma_before_transitive(
                K::ranked_by(s.last()),
                K::ranked_by(t.last()),
                K::ranked_by(s.last()),
            );
            crate::order::lemma_before_irreflexive(K::ranked_by(s.last()));
        }
        let s1 = s.drop_last();
        let t1 = t.drop_last();
        lemma_ascending_no_duplicates::<K>(s);
        lemma_ascending_no_duplicates::<K>(t);
        assert forall|k: K::V| s1.to_set().contains(k) == t1.to_set().contains(k) by {
            lemma_drop_last_members(s, k);
            lemma_drop_last_members(t, k);
        }
        assert(s1.to_set() =~= t1.to_set());
        lemma_ascending_unique::<K>(s1, t1);
        assert(s =~= s1.push(s.last()));
        assert(t =~= t1.push(t.last()));
    }
}

proof fn lemma_drop_last_members<T>(s: Seq<T>, k: T)
    requires
        s.len() > 0,
        s.no_duplicates(),
    ensures
        s.drop_last().contains(k) <==> s.contains(k) && k != s.last(),
{
    if s.contains(k) && k != s.last() {
        let i = choose|i: int| 0 <= i < s.len() && s[i] == k;
        assert(s.drop_last()[i] == k);
    }
    if s.drop_last().contains(k) {
        let i = choose|i: int| 0 <= i < s.len() - 1 && s.drop_last()[i] == k;
        assert(s[i] == k);
    }
}

/// An ascending sequence is its members in order.
pub proof fn lemma_in_order<K: OrderedKey>(s: Seq<K::V>)
    requires
        ascending::<K>(s),
    ensures
        in_order::<K>(s.to_set()) == s,
{
    let t = in_order::<K>(s.to_set());
    assert(ascending::<K>(s) && s.to_set() == s.to_set());
    lemma_ascending_unique::<K>(t, s);
}

/// A key can be put in its place in an ascending sequence.
proof fn lemma_place<K: OrderedKey>(s: Seq<K::V>, key: K::V) -> (t: Seq<K::V>)
    requires
        ascending::<K>(s),
        !s.contains(key),
    ensures
        ascending::<K>(t),
        forall|k: K::V| #[trigger] t.contains(k) <==> s.contains(k) || k == key,
    decreases s.len(),
{
    if s.len() == 0 || before(K::ranked_by(s.last()), K::ranked_by(key)) {
        let t = s.push(key);
        assert forall|i: int, j: int| 0 <= i < j < t.len() implies before(
            K::ranked_by(#[trigger] t[i]),
            K::ranked_by(#[trigger] t[j]),
        ) by {
            if j == s.len() && i < s.len() - 1 {
                crate::order::lemma_before_transitive(
                    K::ranked_by(s[i]),
                    K::ranked_by(s.last()),
                    K::ranked_by(key),
                );
            }
        }
        lemma_push_members(s, key);
        t
    } else {
        let rest = s.drop_last();
        assert forall|k: K::V| #[trigger] rest.contains(k) implies s.contains(k) by {
            let i = choose|i: int| 0 <= i < rest.len() && rest[i] == k;
            assert(s[i] == k);
        }
        let u = lemma_place::<K>(rest, key);
        let t = u.push(s.last());
        assert(s.contains(s.last()));
        if K::ranked_by(s.last()) == K::ranked_by(key) {
            K::lemma_ranked_by_injective(s.last(), key);
        }
        crate::order::lemma_before_total(K::ranked_by(s.last()), K::ranked_by(key));
        assert forall|i: int, j: int| 0 <= i < j < t.len() implies before(
            K::ranked_by(#[trigger] t[i]),
            K::ranked_by(#[trigger] t[j]),
        ) by {
            if j == u.len() {
                assert(u.contains(u[i]));
                if u[i] != key {
                    let m = choose|m: int| 0 <= m < rest.len() && rest[m] == u[i];
                    assert(s[m] == u[i]);
                }
            }
        }
        lemma_push_members(u, s.last());
        lemma_push_members(rest, s.last());
        assert(rest.push(s.last()) =~= s);
        t
    }
}

/// What a sequence holds once an element was added to it.
pub proof fn lemma_push_members<T>(s: Seq<T>, x: T)
    ensures
        forall|y: T| #[trigger] s.push(x).contains(y) <==> s.contains(y) || y == x,
        s.push(x).to_set() == s.to_set().insert(x),
{
    assert forall|y: T| #[trigger] s.push(x).contains(y) <==> s.contains(y) || y == x by {
        if s.contains(y) {
            let i = choose|i: int| 0 <= i < s.len() && s[i] == y;
            assert(s.push(x)[i] == y);
        }
        if y == x {
            assert(s.push(x)[s.len() as int] == y);
        }
    }
    assert(s.push(x).to_set() =~= s.to_set().insert(x)) by {
        assert forall|y: T| s.push(x).to_set().contains(y) == s.to_set().insert(x).contains(y) by {
            assert(s.push(x).contains(y) <==> s.contains(y) || y == x);
        }
    }
}

/// A finite set of keys can be put in order.
pub proof fn lemma_in_order_members<K: OrderedKey>(keys: Set<K::V>)
    requires
        keys.finite(),
    ensures
        ascending::<K>(in_order::<K>(keys)),
        in_order::<K>(keys).to_set() == keys,
        forall|k: K::V| #[trigger] in_order::<K>(keys).contains(k) <==> keys.contains(k),
    decreases keys.len(),
{
    if keys.len() == 0 {
        let none = Seq::<K::V>::empty();
        assert(keys =~= none.to_set());
        lemma_in_order::<K>(none);
    } else {
        let key = keys.choose();
        let rest = keys.remove(key);
        lemma_in_order_members::<K>(rest);
        let s = in_order::<K>(rest);
        assert(!s.contains(key));
        let t = lemma_place::<K>(s, key);
        assert forall|k: K::V| t.to_set().contains(k) == keys.contains(k) by {
            assert(t.contains(k) <==> s.contains(k) || k == key);
            assert(s.contains(k) <==> rest.contains(k));
        }
        assert(t.to_set() =~= keys);
        lemma_in_order::<K>(t);
    }
    assert forall|k: K::V| #[trigger] in_order::<K>(keys).contains(k) <==> keys.contains(k) by {
        assert(in_order::<K>(keys).to_set().contains(k) <==> in_order::<K>(keys).contains(k));
    }
}

/// A map from keys to values that hands its entries out in ascending order of the keys.
#[verifier::reject_recursive_types(K)]
pub struct SortedMap<K: OrderedKey, V> {
    entries: Vec<(K, V)>,
}

impl<K: OrderedKey, V> SortedMap<K, V> {
    /// The keys, as they stand in the map.
    pub closed spec fn keys(self) -> Seq<K::V> {
        Seq::new(self.entries@.len(), |i: int| self.entries@[i].0@)
    }

    /// The values, as they stand in the map.
    pub closed spec fn vals(self) -> Seq<V> {
        Seq::new(self.entries@.len(), |i: int| self.entries@[i].1)
    }

    pub closed spec fn wf(self) -> bool {
        ascending::<K>(self.keys())
    }
}

impl<K: OrderedKey, V> View for SortedMap<K, V> {
    type V = Map<K::V, V>;

    closed spec fn view(&self) -> Map<K::V, V> {
        Map::new(|k: K::V| self.keys().contains(k), |k: K::V| self.vals()[self.keys().index_of(k)])
    }
}

impl<K: OrderedKey, V> SortedMap<K, V> {
    /// The entry at a position is the one that the map has under its key.
    proof fn lemma_entry(self, i: int)
        requires
            self.wf(),
            0 <= i < self.entries@.len(),
        ensures
            self@.contains_key(self.entries@[i].0@),
            self@[self.entries@[i].0@] == self.entries@[i].1,
    {
        lemma_ascending_no_duplicates::<K>(self.keys());
        assert(self.keys()[i] == self.entries@[i].0@);
        assert(self.keys().contains(self.keys()[i]));
        let j = self.keys().index_of(self.keys()[i]);
        assert(self.keys()[j] == self.keys()[i]);
    }

    /// A map is known by its entries.
    pub proof fn lemma_entries(self)
        requires
            self.wf(),
        ensures
            ascending::<K>(self.keys()),
            self.keys().to_set() == self@.dom(),
            self.keys() == in_order::<K>(self@.dom()),
            self@.dom().finite(),
            self.vals().len() == self.keys().len(),
            forall|i: int|
                0 <= i < self.keys().len() ==> self@.contains_key(#[trigger] self.keys()[i])
                    && self@[self.keys()[i]] == self.vals()[i],
    {
        assert(self.keys().to_set() =~= self@.dom());
        lemma_in_order::<K>(self.keys());
        vstd::seq_lib::seq_to_set_is_finite(self.keys());
        assert forall|i: int| 0 <= i < self.keys().len() implies self@.contains_key(
            #[trigger] self.keys()[i],
        ) && self@[self.keys()[i]] == self.vals()[i] by {
            self.lemma_entry(i);
        }
    }

    pub fn new() -> (map: Self)
        ensures
            map.wf(),
            map@ == Map::<K::V, V>::empty(),
    {
        let map = SortedMap { entries: Vec::new() };
        assert(map@ =~= Map::<K::V, V>::empty());
        map
    }

    pub fn len(&self) -> (n: usize)
        ensures
            n == self.keys().len(),
    {
        self.entries.len()
    }

    pub fn is_empty(&self) -> (empty: bool)
        requires
            self.wf(),
        ensures
            empty == self@.is_empty(),
    {
        proof {
            self.lemma_entries();
            if self.keys().len() > 0 {
                assert(self@.contains_key(self.keys()[0]));
            } else {
                assert(self@ =~= Map::<K::V, V>::empty());
            }
        }
        self.entries.len() == 0
    }

    /// The key at a position.
    pub fn key_at(&self, i: usize) -> (key: &K)
        requires
            i < self.keys().len(),
        ensures
            key@ == self.keys()[i as int],
    {
        &self.entries[i].0
    }

    /// The value at a position.
    pub fn value_at(&self, i: usize) -> (value: &V)
        requires
            i < self.keys().len(),
        ensures
            value == self.vals()[i as int],
    {
        &self.entries[i].1
    }

    /// The position of the first entry whose key is not before `key`.
    fn lower_bound(&self, key: &K) -> (at: usize)
        requires
            self.wf(),
        ensures
            at <= self.entries@.len(),
            forall|i: int|
                0 <= i < at ==> before(K::ranked_by(#[trigger] self.keys()[i]), K::ranked_by(key@)),
            forall|i: int|
                at <= i < self.entries@.len() ==> !before(
                    K::ranked_by(#[trigger] self.keys()[i]),
                    K::ranked_by(key@),
                ),
    {
        let mut lo: usize = 0;
        let mut hi: usize = self.entries.len();
        while lo < hi
            invariant
                self.wf(),
                lo <= hi <= self.entries@.len(),
                forall|i: int|
                    0 <= i < lo ==> before(
                        K::ranked_by(#[trigger] self.keys()[i]),
                        K::ranked_by(key@),
                    ),
                forall|i: int|
                    hi <= i < self.entries@.len() ==> !before(
                        K::ranked_by(#[trigger] self.keys()[i]),
                        K::ranked_by(key@),
                    ),
            decreases hi - lo,
        {
            let mid: usize = lo + (hi - lo) / 2;
            let rank = self.entries[mid].0.compare(key);
            let ghost r = K::ranked_by(key@);
            assert(self.keys()[mid as int] == self.entries@[mid as int].0@);
            match rank {
                Rank::Less => {
                    proof {
                        assert forall|i: int| 0 <= i < mid + 1 implies before(
                            K::ranked_by(#[trigger] self.keys()[i]),
                            r,
                        ) by {
                            if i < mid {
                                crate::order::lemma_before_transitive(
                                    K::ranked_by(self.keys()[i]),
                                    K::ranked_by(self.keys()[mid as int]),
                                    r,
                                );
                            }
                        }
                    }
                    lo = mid + 1;
                },
                _ => {
                    proof {
                        crate::order::lemma_before_irreflexive(r);
                        assert forall|i: int| mid <= i < self.entries@.len() implies !before(
                            K::ranked_by(#[trigger] self.keys()[i]),
                            r,
                        ) by {
                            if mid < i && before(K::ranked_by(self.keys()[i]), r) {
                                crate::order::lemma_before_transitive(
                                    K::ranked_by(self.keys()[mid as int]),
                                    K::ranked_by(self.keys()[i]),
                                    r,
                                );
                            }
                        }
                    }
                    hi = mid;
                },
            }
        }
        lo
    }

    /// The position of `key`, or where it would have to stand.
    fn find(&self, key: &K) -> (found: Result<usize, usize>)
        requires
            self.wf(),
        ensures
            match found {
                Ok(i) => i < self.entries@.len() && self.keys()[i as int] == key@
                    && self@.contains_key(key@),
                Err(i) => {
                    &&& i <= self.entries@.len()
                    &&& !self@.contains_key(key@)
                    &&& forall|j: int|
                        0 <= j < i ==> before(
                            K::ranked_by(#[trigger] self.keys()[j]),
                            K::ranked_by(key@),
                        )
                    &&& forall|j: int|
                        i <= j < self.entries@.len() ==> before(
                            K::ranked_by(key@),
                            K::ranked_by(#[trigger] self.keys()[j]),
                        )
                },
            },
    {
        let at: usize = self.lower_bound(key);
        let ghost r = K::ranked_by(key@);
        if at < self.entries.len() {
            match self.entries[at].0.compare(key) {
                Rank::Equal => {
                    proof {
                        assert(self.keys()[at as int] == self.entries@[at as int].0@);
                        K::lemma_ranked_by_injective(self.keys()[at as int], key@);
                        self.lemma_entry(at as int);
                    }
                    return Ok(at);
                },
                _ => {},
            }
        }
        proof {
            assert forall|j: int| at <= j < self.entries@.len() implies before(
                r,
                K::ranked_by(#[trigger] self.keys()[j]),
            ) by {
                assert(self.keys()[at as int] == self.entries@[at as int].0@);
                crate::order::lemma_before_total(K::ranked_by(self.keys()[at as int]), r);
                if at < j {
                    crate::order::lemma_before_transitive(
                        r,
                        K::ranked_by(self.keys()[at as int]),
                        K::ranked_by(self.keys()[j]),
                    );
                }
            }
            crate::order::lemma_before_irreflexive(r);
            if self.keys().contains(key@) {
                let j = choose|j: int| 0 <= j < self.keys().len() && self.keys()[j] == key@;
                assert(self.keys()[j] == key@);
            }
        }
        Err(at)
    }

    pub fn contains_key(&self, key: &K) -> (found: bool)
        requires
            self.wf(),
        ensures
            found == self@.contains_key(key@),
    {
        match self.find(key) {
            Ok(_) => true,
            Err(_) => false,
        }
    }

    pub fn get(&self, key: &K) -> (value: Option<&V>)
        requires
            self.wf(),
        ensures
            match value {
                Some(v) => self@.contains_key(key@) && *v == self@[key@],
                None => !self@.contains_key(key@),
            },
    {
        match self.find(key) {
            Ok(i) => {
                proof {
                    self.lemma_entry(i as int);
                }
                Some(&self.entries[i].1)
            },
            Err(_) => None,
        }
    }

    /// Adds an entry, in place of the one that had its key.
    pub fn insert(&mut self, key: K, value: V)
        requires
            old(self).wf(),
        ensures
            final(self).wf(),
            final(self)@ == old(self)@.insert(key@, value),
    {
        let ghost before_keys = self.keys();
        let ghost old_map = *self;
        let ghost k = key@;
        let at: usize = match self.find(&key) {
            Ok(i) => {
                self.entries.remove(i);
                i
            },
            Err(i) => i,
        };
        let ghost mid_keys = self.keys();
        let ghost mid_map = *self;
        proof {
            if old_map@.contains_key(k) {
                assert(mid_keys =~= before_keys.remove(at as int));
                assert(forall|j: int| 0 <= j < at ==> mid_keys[j] == before_keys[j]);
                assert(forall|j: int|
                    at <= j < mid_keys.len() ==> mid_keys[j] == before_keys[j + 1]);
            } else {
                assert(mid_keys =~= before_keys);
            }
            assert(ascending::<K>(mid_keys));
            assert forall|j: int| 0 <= j < at implies before(
                K::ranked_by(#[trigger] mid_keys[j]),
                K::ranked_by(k),
            ) by {
                assert(mid_keys[j] == before_keys[j]);
            }
            assert forall|j: int| at <= j < mid_keys.len() implies before(
                K::ranked_by(k),
                K::ranked_by(#[trigger] mid_keys[j]),
            ) by {
                if old_map@.contains_key(k) {
                    assert(mid_keys[j] == before_keys[j + 1]);
                    assert(before_keys[at as int] == k);
                }
            }
        }
        self.entries.insert(at, (key, value));
        proof {
            let keys = self.keys();
            assert(keys =~= mid_keys.insert(at as int, k));
            assert(forall|j: int| 0 <= j < at ==> keys[j] == mid_keys[j]);
            assert(keys[at as int] == k);
            assert(forall|j: int| at < j < keys.len() ==> keys[j] == mid_keys[j - 1]);
            assert forall|i: int, j: int| 0 <= i < j < keys.len() implies before(
                K::ranked_by(#[trigger] keys[i]),
                K::ranked_by(#[trigger] keys[j]),
            ) by {
                if i < at && j > at {
                    assert(keys[i] == mid_keys[i] && keys[j] == mid_keys[j - 1]);
                } else if i > at {
                    assert(keys[i] == mid_keys[i - 1] && keys[j] == mid_keys[j - 1]);
                } else if i < at && j < at {
                    assert(keys[i] == mid_keys[i] && keys[j] == mid_keys[j]);
                }
            }
            assert(self.wf());
            self.lemma_entry(at as int);
            assert forall|q: K::V| #[trigger]
                self@.contains_key(q) == old_map@.insert(k, value).contains_key(q) by {
                if keys.contains(q) && q != k {
                    let j = choose|j: int| 0 <= j < keys.len() && keys[j] == q;
                    let m = if j < at { j } else { j - 1 };
                    assert(mid_keys[m] == q);
                    let o = if old_map@.contains_key(k) && m >= at { m + 1 } else { m };
                    assert(before_keys[o] == q);
                    assert(before_keys.contains(q));
                }
                if before_keys.contains(q) && q != k {
                    let o = choose|o: int| 0 <= o < before_keys.len() && before_keys[o] == q;
                    let m = if old_map@.contains_key(k) && o > at { o - 1 } else { o };
                    assert(mid_keys[m] == q);
                    let j = if m < at { m } else { m + 1 };
                    assert(keys[j] == q);
                    assert(keys.contains(q));
                }
            }
            assert forall|q: K::V| #[trigger]
                old_map@.insert(k, value).contains_key(q) implies self@[q] == old_map@.insert(
                k,
                value,
            )[q] by {
                if q != k {
                    let o = choose|o: int| 0 <= o < before_keys.len() && before_keys[o] == q;
                    let m = if old_map@.contains_key(k) && o > at { o - 1 } else { o };
                    assert(mid_keys[m] == q);
                    let j = if m < at { m } else { m + 1 };
                    assert(keys[j] == q);
                    old_map.lemma_entry(o);
                    self.lemma_entry(j);
                }
            }
            assert(self@ =~= old_map@.insert(k, value));
        }
    }

    /// Takes the entry with a key out of the map.
    pub fn remove(&mut self, key: &K) -> (removed: Option<V>)
        requires
            old(self).wf(),
        ensures
            final(self).wf(),
            final(self)@ == old(self)@.remove(key@),
            match removed {
                Some(v) => old(self)@.contains_key(key@) && v == old(self)@[key@],
                None => !old(self)@.contains_key(key@),
            },
    {
        let ghost old_map = *self;
        let ghost before_keys = self.keys();
        match self.find(key) {
            Err(_) => {
                assert(self@ =~= old_map@.remove(key@));
                None
            },
            Ok(at) => {
                proof {
                    self.lemma_entry(at as int);
                }
                let (_, value) = self.entries.remove(at);
                proof {
                    let keys = self.keys();
                    let k = key@;
                    lemma_ascending_no_duplicates::<K>(before_keys);
                    assert(keys =~= before_keys.remove(at as int));
                    assert(forall|j: int| 0 <= j < at ==> keys[j] == before_keys[j]);
                    assert(forall|j: int| at <= j < keys.len() ==> keys[j] == before_keys[j + 1]);
                    assert(self.wf());
                    assert forall|q: K::V| #[trigger]
                        self@.contains_key(q) == old_map@.remove(k).contains_key(q) by {
                        if keys.contains(q) {
                            let j = choose|j: int| 0 <= j < keys.len() && keys[j] == q;
                            let o = if j < at { j } else { j + 1 };
                            assert(before_keys[o] == q);
                            assert(before_keys.contains(q));
                            assert(q != k);
                        }
                        if before_keys.contains(q) && q != k {
                            let o = choose|o: int|
                                0 <= o < before_keys.len() && before_keys[o] == q;
                            let j = if o < at { o } else { o - 1 };
                            assert(keys[j] == q);
                            assert(keys.contains(q));
                        }
                    }
                    assert forall|q: K::V| #[trigger]
                        old_map@.remove(k).contains_key(q) implies self@[q] == old_map@.remove(
                        k,
                    )[q] by {
                        let o = choose|o: int| 0 <= o < before_keys.len() && before_keys[o] == q;
                        let j = if o < at { o } else { o - 1 };
                        assert(keys[j] == q);
                        old_map.lemma_entry(o);
                        self.lemma_entry(j);
                    }
                    assert(self@ =~= old_map@.remove(k));
                }
                Some(value)
            },
        }
    }
}

} // verus!
