//! Tables: values in the order of their keys.

use vstd::prelude::*;

verus! {

/// Whether one sequence of numbers comes before another: at the first place where they differ,
/// the number is less, or there is none.
pub open spec fn before(a: Seq<int>, b: Seq<int>) -> bool
    decreases a.len(),
{
    if a.len() == 0 {
        b.len() > 0
    } else if b.len() == 0 {
        false
    } else if a[0] == b[0] {
        before(a.skip(1), b.skip(1))
    } else {
        a[0] < b[0]
    }
}

/// Of two sequences one comes before the other, unless they are the same.
pub proof fn lemma_before_total(a: Seq<int>, b: Seq<int>)
    ensures
        before(a, b) || before(b, a) || a == b,
        !(before(a, b) && before(b, a)),
        a == b ==> !before(a, b),
    decreases a.len(),
{
    if a.len() > 0 && b.len() > 0 {
        lemma_before_total(a.skip(1), b.skip(1));
        if a[0] == b[0] && a.skip(1) == b.skip(1) {
            assert forall|i: int| 0 <= i < a.len() implies a[i] == b[i] by {
                if i > 0 {
                    assert(a[i] == a.skip(1)[i - 1]);
                    assert(b[i] == b.skip(1)[i - 1]);
                }
            }
            assert(a.len() == a.skip(1).len() + 1);
            assert(b.len() == b.skip(1).len() + 1);
            assert(a =~= b);
        }
    } else if a.len() == 0 && b.len() == 0 {
        assert(a =~= b);
    }
}

/// What comes before something that comes before a third comes before the third.
pub proof fn lemma_before_transitive(a: Seq<int>, b: Seq<int>, c: Seq<int>)
    requires
        before(a, b),
        before(b, c),
    ensures
        before(a, c),
    decreases a.len(),
{
    if a.len() > 0 && b.len() > 0 && c.len() > 0 && a[0] == b[0] && b[0] == c[0] {
        lemma_before_transitive(a.skip(1), b.skip(1), c.skip(1));
    }
}

/// A key of a table: it has a place in an order.
pub trait TableKey: Copy {
    /// The numbers that give the key its place in the order.
    spec fn rank(key: Self) -> Seq<int>;

    /// Keys of the same rank are the same.
    proof fn lemma_rank(a: Self, b: Self)
        requires
            Self::rank(a) == Self::rank(b),
        ensures
            a == b,
    ;

    /// Whether this key comes before another.
    fn comes_before(&self, other: &Self) -> (r: bool)
        ensures
            r == before(Self::rank(*self), Self::rank(*other)),
    ;
}

/// The map that a list of entries describes; of two entries with the same key the later one
/// counts.
pub open spec fn map_of<K, V>(entries: Seq<(K, V)>) -> Map<K, V>
    decreases entries.len(),
{
    if entries.len() == 0 {
        Map::empty()
    } else {
        map_of(entries.drop_last()).insert(entries.last().0, entries.last().1)
    }
}

/// An entry of a table.
pub struct Entry<K, V> {
    pub key: K,
    pub value: V,
}

/// What a list of entries stands for.
pub open spec fn pairs<K, V: View>(entries: Seq<Entry<K, V>>) -> Seq<(K, V::V)> {
    entries.map_values(|e: Entry<K, V>| (e.key, e.value@))
}

/// Values in the order of their keys, each key once.
pub struct Table<K: TableKey, V: View> {
    entries: Vec<Entry<K, V>>,
}

/// Whether the keys of a list stand in their order, each once.
pub open spec fn ordered<K: TableKey, T>(entries: Seq<(K, T)>) -> bool {
    forall|i: int, j: int|
        0 <= i < j < entries.len() ==> before(
            K::rank((#[trigger] entries[i]).0),
            K::rank((#[trigger] entries[j]).0),
        )
}

/// Changing the value of a key that occurs once changes the map in that key alone.
proof fn lemma_map_update<K: TableKey, T>(s: Seq<(K, T)>, i: int, v: T)
    requires
        0 <= i < s.len(),
        ordered::<K, T>(s),
    ensures
        map_of(s.update(i, (s[i].0, v))) == map_of(s).insert(s[i].0, v),
    decreases s.len(),
{
    let k = s[i].0;
    let t = s.update(i, (k, v));
    if i == s.len() - 1 {
        assert(t.drop_last() =~= s.drop_last());
        assert(map_of(t) =~= map_of(s).insert(k, v));
    } else {
        lemma_before_total(K::rank(s[i].0), K::rank(s.last().0));
        assert(before(K::rank(s[i].0), K::rank(s[s.len() - 1].0)));
        assert(s.drop_last()[i] == s[i]);
        assert(t.drop_last() =~= s.drop_last().update(i, (k, v)));
        lemma_map_update::<K, T>(s.drop_last(), i, v);
        assert(map_of(t) =~= map_of(s).insert(k, v));
    }
}

/// Adding a key that did not occur adds it to the map, wherever it is added.
proof fn lemma_map_insert<K: TableKey, T>(s: Seq<(K, T)>, i: int, k: K, v: T)
    requires
        0 <= i <= s.len(),
        forall|j: int| 0 <= j < s.len() ==> (#[trigger] s[j]).0 != k,
    ensures
        map_of(s.insert(i, (k, v))) == map_of(s).insert(k, v),
    decreases s.len(),
{
    let t = s.insert(i, (k, v));
    if i == s.len() {
        assert(t.drop_last() =~= s);
    } else {
        assert(t.last() == s.last());
        assert(t.drop_last() =~= s.drop_last().insert(i, (k, v)));
        lemma_map_insert::<K, T>(s.drop_last(), i, k, v);
        assert(s[s.len() - 1].0 != k);
        assert(map_of(t) =~= map_of(s).insert(k, v));
    }
}

impl<K: TableKey, V: View> Table<K, V> {
    #[verifier::type_invariant]
    spec fn valid(self) -> bool {
        ordered::<K, V::V>(pairs(self.entries@))
    }

    /// The entries, in the order of their keys.
    pub closed spec fn pair_seq(self) -> Seq<(K, V::V)> {
        pairs(self.entries@)
    }

    /// The values by their keys.
    pub open spec fn map(self) -> Map<K, V::V> {
        map_of(self.pair_seq())
    }

    /// A table without entries.
    pub fn new() -> (r: Table<K, V>)
        ensures
            r.pair_seq() == Seq::<(K, V::V)>::empty(),
    {
        let entries: Vec<Entry<K, V>> = Vec::new();
        assert(pairs(entries@) =~= Seq::empty());
        Table { entries }
    }

    /// Sets the value of a key.
    pub fn insert(&mut self, key: K, value: V)
        ensures
            final(self).map() == old(self).map().insert(key, value@),
    {
        proof {
            use_type_invariant(&*self);
        }
        let ghost pair = (key, value@);
        let mut entries: Vec<Entry<K, V>> = Vec::new();
        assert(pairs(entries@) =~= Seq::empty());
        std::mem::swap(&mut entries, &mut self.entries);
        let ghost s = pairs(entries@);
        let mut i: usize = entries.len();
        while i > 0 && key.comes_before(&entries[i - 1].key)
            invariant
                i <= entries@.len(),
                s == pairs(entries@),
                forall|j: int|
                    i <= j < s.len() ==> before(K::rank(key), K::rank((#[trigger] s[j]).0)),
            decreases i,
        {
            proof {
                assert(s[i - 1].0 == entries@[i - 1].key);
            }
            i = i - 1;
        }
        let found: bool = i > 0 && !entries[i - 1].key.comes_before(&key);
        proof {
            if i > 0 {
                assert(s[i - 1].0 == entries@[i - 1].key);
                lemma_before_total(K::rank(key), K::rank(s[i - 1].0));
                if found {
                    K::lemma_rank(key, s[i - 1].0);
                }
            }
        }
        if found {
            entries.set(i - 1, Entry { key, value });
            proof {
                lemma_map_update::<K, V::V>(s, i - 1, pair.1);
                assert(pairs(entries@) =~= s.update(i - 1, pair));
            }
        } else {
            proof {
                assert forall|j: int| 0 <= j < i implies before(
                    K::rank((#[trigger] s[j]).0),
                    K::rank(key),
                ) by {
                    if j < i - 1 {
                        assert(before(K::rank(s[j].0), K::rank(s[i - 1].0)));
                        lemma_before_transitive(
                            K::rank(s[j].0),
                            K::rank(s[i - 1].0),
                            K::rank(key),
                        );
                    }
                }
                assert forall|j: int| 0 <= j < s.len() implies (#[trigger] s[j]).0 != key by {
                    lemma_before_total(K::rank(s[j].0), K::rank(key));
                }
                lemma_map_insert::<K, V::V>(s, i as int, pair.0, pair.1);
            }
            entries.insert(i, Entry { key, value });
            assert(pairs(entries@) =~= s.insert(i as int, pair));
        }
        self.entries = entries;
    }

    /// The value of a key, if it has one.
    pub fn get(&self, key: &K) -> (r: Option<&V>)
        ensures
            match r {
                Some(value) => self.map().dom().contains(*key) && value@ == self.map()[*key],
                None => !self.map().dom().contains(*key),
            },
    {
        proof {
            use_type_invariant(self);
        }
        let ghost s = pairs(self.entries@);
        let mut i: usize = self.entries.len();
        assert(s.take(i as int) =~= s);
        while i > 0
            invariant
                i <= self.entries@.len(),
                s == pairs(self.entries@),
                map_of(s.take(i as int)).dom().contains(*key) == map_of(s).dom().contains(*key),
                map_of(s).dom().contains(*key) ==> map_of(s.take(i as int))[*key] == map_of(s)[*key],
            decreases i,
        {
            let at: usize = i - 1;
            proof {
                assert(s[at as int].0 == self.entries@[at as int].key);
                assert(s.take(i as int).drop_last() =~= s.take(at as int));
                lemma_before_total(K::rank(*key), K::rank(s[at as int].0));
            }
            if !key.comes_before(&self.entries[at].key) && !self.entries[at].key.comes_before(key) {
                proof {
                    K::lemma_rank(*key, s[at as int].0);
                }
                return Some(&self.entries[at].value);
            }
            i = i - 1;
        }
        None
    }

    /// The number of entries.
    pub fn len(&self) -> (r: usize)
        ensures
            r == self.pair_seq().len(),
    {
        self.entries.len()
    }

    /// Whether there are no entries.
    pub fn is_empty(&self) -> (r: bool)
        ensures
            r == (self.pair_seq().len() == 0),
    {
        self.entries.len() == 0
    }

    /// The entries, in the order of their keys.
    pub fn entries(&self) -> (r: &Vec<Entry<K, V>>)
        ensures
            pairs(r@) == self.pair_seq(),
            r@.len() == self.pair_seq().len(),
            ordered::<K, V::V>(self.pair_seq()),
    {
        proof {
            use_type_invariant(self);
        }
        &self.entries
    }
}

} // verus!
