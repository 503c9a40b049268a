//! Maps from texts, in the order of their keys.

use crate::text::{before, before_is_an_order, is_before, same};
use vstd::prelude::*;

verus! {

/// A map from texts to values, held in the order of the keys.
#[derive(Clone, Debug)]
pub struct TextMap<T> {
    entries: Vec<(String, T)>,
}

impl<T> TextMap<T> {
    /// The keys, in order.
    pub closed spec fn keys(&self) -> Seq<Seq<char>> {
        Seq::new(self.entries@.len(), |i: int| self.entries@[i].0@)
    }

    /// The values, in the order of their keys.
    pub closed spec fn values(&self) -> Seq<T> {
        Seq::new(self.entries@.len(), |i: int| self.entries@[i].1)
    }

    /// Whether each key stands before the next one.
    pub open spec fn wf(&self) -> bool {
        &&& self.keys().len() == self.values().len()
        &&& ascending(self.keys())
    }

    /// A map without entries.
    pub fn new() -> (r: Self)
        ensures
            r.wf(),
            r.keys() == Seq::<Seq<char>>::empty(),
            r.values() == Seq::<T>::empty(),
    {
        TextMap { entries: Vec::new() }
    }

    /// How many entries there are.
    pub fn len(&self) -> (n: usize)
        ensures
            n == self.keys().len(),
            n == self.values().len(),
    {
        self.entries.len()
    }

    /// The key at place `i`.
    pub fn key(&self, i: usize) -> (r: &String)
        requires
            i < self.keys().len(),
        ensures
            r@ == self.keys()[i as int],
    {
        &self.entries[i].0
    }

    /// The value at place `i`.
    pub fn value(&self, i: usize) -> (r: &T)
        requires
            i < self.values().len(),
        ensures
            *r == self.values()[i as int],
    {
        &self.entries[i].1
    }

    /// The place of a key, if it is there.
    pub fn place(&self, key: &str) -> (r: Option<usize>)
        ensures
            match r {
                Some(i) => i < self.keys().len() && self.keys()[i as int] == key@,
                None => !self.keys().contains(key@),
            },
    {
        let mut i: usize = 0;
        while i < self.entries.len()
            invariant
                i <= self.entries.len(),
                forall|j: int| 0 <= j < i ==> #[trigger] self.keys()[j] != key@,
            decreases self.entries.len() - i,
        {
            if same(self.entries[i].0.as_str(), key) {
                return Some(i);
            }
            i = i + 1;
        }
        None
    }

    /// The value of a key.
    pub fn get(&self, key: &str) -> (r: Option<&T>)
        requires
            self.wf(),
        ensures
            lookup(self.keys(), self.values(), key@) == (match r {
                Some(v) => Some(*v),
                None => None,
            }),
    {
        match self.place(key) {
            Some(i) => {
                proof {
                    lookup_at(self.keys(), self.values(), i as int);
                }
                Some(&self.entries[i].1)
            },
            None => {
                proof {
                    lookup_nothing(self.keys(), self.values(), key@);
                }
                None
            },
        }
    }

    /// Puts a value at a key, in place of the one that may be there.
    pub fn insert(&mut self, key: String, value: T)
        requires
            old(self).wf(),
        ensures
            final(self).wf(),
            final(self).keys() == keys_with(old(self).keys(), key@),
            final(self).values() == values_with(old(self).keys(), old(self).values(), key@, value),
    {
        let ghost ks = self.keys();
        let ghost vs = self.values();
        let mut i: usize = 0;
        while i < self.entries.len() && is_before(self.entries[i].0.as_str(), key.as_str())
            invariant
                self.wf(),
                ks == self.keys(),
                vs == self.values(),
                i <= self.entries.len(),
                forall|j: int| 0 <= j < i ==> before(#[trigger] ks[j], key@),
            decreases self.entries.len() - i,
        {
            i = i + 1;
        }
        proof {
            rank_is(ks, key@, i as int);
        }
        if i < self.entries.len() && same(self.entries[i].0.as_str(), key.as_str()) {
            self.entries.set(i, (key, value));
            assert(self.keys() =~= ks);
            assert(self.values() =~= vs.update(i as int, value));
        } else {
            self.entries.insert(i, (key, value));
            assert(self.keys() =~= ks.insert(i as int, key@));
            assert(self.values() =~= vs.insert(i as int, value));
            proof {
                insert_keeps_order(ks, key@, i as int);
            }
        }
    }
}

/// Whether each key stands before all that follow it.
pub open spec fn ascending(keys: Seq<Seq<char>>) -> bool {
    forall|i: int, j: int| 0 <= i < j < keys.len() ==> before(#[trigger] keys[i], #[trigger] keys[j])
}

/// How many keys stand before `key`.
pub open spec fn rank(keys: Seq<Seq<char>>, key: Seq<char>) -> int
    decreases keys.len(),
{
    if keys.len() == 0 || !before(keys[0], key) {
        0
    } else {
        1 + rank(keys.drop_first(), key)
    }
}

/// Whether `key` stands at its place among `keys`.
pub open spec fn at_rank(keys: Seq<Seq<char>>, key: Seq<char>) -> bool {
    rank(keys, key) < keys.len() && keys[rank(keys, key)] == key
}

/// The keys once `key` is one of them.
pub open spec fn keys_with(keys: Seq<Seq<char>>, key: Seq<char>) -> Seq<Seq<char>> {
    if at_rank(keys, key) {
        keys
    } else {
        keys.insert(rank(keys, key), key)
    }
}

/// The values once `value` is that of `key`.
pub open spec fn values_with<T>(
    keys: Seq<Seq<char>>,
    values: Seq<T>,
    key: Seq<char>,
    value: T,
) -> Seq<T> {
    if at_rank(keys, key) {
        values.update(rank(keys, key), value)
    } else {
        values.insert(rank(keys, key), value)
    }
}

/// The value that `key` has among `keys` and `values`.
pub open spec fn lookup<T>(keys: Seq<Seq<char>>, values: Seq<T>, key: Seq<char>) -> Option<T> {
    if at_rank(keys, key) {
        Some(values[rank(keys, key)])
    } else {
        None
    }
}

/// Ranks are places, or the end.
pub proof fn rank_bounds(keys: Seq<Seq<char>>, key: Seq<char>)
    ensures
        0 <= rank(keys, key) <= keys.len(),
        forall|j: int| 0 <= j < rank(keys, key) ==> before(#[trigger] keys[j], key),
        rank(keys, key) < keys.len() ==> !before(keys[rank(keys, key)], key),
    decreases keys.len(),
{
    if keys.len() > 0 && before(keys[0], key) {
        let rest = keys.drop_first();
        rank_bounds(rest, key);
        assert forall|j: int| 0 <= j < rank(keys, key) implies before(#[trigger] keys[j], key) by {
            if j > 0 {
                assert(rest[j - 1] == keys[j]);
            }
        }
    }
}

/// A key is found at its place.
pub proof fn lookup_at<T>(keys: Seq<Seq<char>>, values: Seq<T>, i: int)
    requires
        ascending(keys),
        0 <= i < keys.len(),
    ensures
        rank(keys, keys[i]) == i,
        lookup(keys, values, keys[i]) == Some(values[i]),
{
    before_is_an_order(keys[i], keys[i], keys[i]);
    rank_is(keys, keys[i], i);
}

/// A key that is not there has no value.
pub proof fn lookup_nothing<T>(keys: Seq<Seq<char>>, values: Seq<T>, key: Seq<char>)
    requires
        !keys.contains(key),
    ensures
        lookup(keys, values, key) is None,
{
    rank_bounds(keys, key);
}

/// What is put at a key is found there, and every other key has the value that it had.
pub proof fn what_is_put_is_found<T>(
    keys: Seq<Seq<char>>,
    values: Seq<T>,
    key: Seq<char>,
    value: T,
    other: Seq<char>,
)
    requires
        ascending(keys),
        keys.len() == values.len(),
    ensures
        ascending(keys_with(keys, key)),
        keys_with(keys, key).len() == values_with(keys, values, key, value).len(),
        lookup(keys_with(keys, key), values_with(keys, values, key, value), key) == Some(value),
        other != key ==> lookup(
            keys_with(keys, key),
            values_with(keys, values, key, value),
            other,
        ) == lookup(keys, values, other),
{
    let r = rank(keys, key);
    let ks = keys_with(keys, key);
    let vs = values_with(keys, values, key, value);
    rank_bounds(keys, key);
    if at_rank(keys, key) {
        lookup_at(ks, vs, r);
        if other != key {
            rank_bounds(keys, other);
        }
    } else {
        insert_keeps_order(keys, key, r);
        assert(ks[r] == key);
        lookup_at(ks, vs, r);
        if other != key {
            if keys.contains(other) {
                let i = choose|i: int| 0 <= i < keys.len() && keys[i] == other;
                lookup_at(keys, values, i);
                let k = if i < r {
                    i
                } else {
                    i + 1
                };
                assert(ks[k] == other && vs[k] == values[i]);
                lookup_at(ks, vs, k);
            } else {
                lookup_nothing(keys, values, other);
                assert forall|i: int| 0 <= i < ks.len() implies ks[i] != other by {
                    if i != r {
                        let k = if i < r {
                            i
                        } else {
                            i - 1
                        };
                        assert(ks[i] == keys[k]);
                    }
                }
                lookup_nothing(ks, vs, other);
            }
        }
    }
}

/// Putting a value at a key brings in that key and no other one.
pub proof fn only_the_key_is_new(keys: Seq<Seq<char>>, key: Seq<char>, other: Seq<char>)
    requires
        keys_with(keys, key).contains(other),
    ensures
        other == key || keys.contains(other),
{
    rank_bounds(keys, key);
    let r = rank(keys, key);
    let new = keys_with(keys, key);
    let i = choose|i: int| 0 <= i < new.len() && new[i] == other;
    if !at_rank(keys, key) && i != r {
        let k = if i < r {
            i
        } else {
            i - 1
        };
        assert(new[i] == keys[k]);
    }
}

proof fn rank_is(keys: Seq<Seq<char>>, key: Seq<char>, i: int)
    requires
        0 <= i <= keys.len(),
        forall|j: int| 0 <= j < i ==> before(#[trigger] keys[j], key),
        i < keys.len() ==> !before(keys[i], key),
    ensures
        rank(keys, key) == i,
    decreases keys.len(),
{
    if keys.len() > 0 && i > 0 {
        assert(before(keys[0], key));
        let rest = keys.drop_first();
        assert forall|j: int| 0 <= j < i - 1 implies before(#[trigger] rest[j], key) by {
            assert(rest[j] == keys[j + 1]);
        }
        rank_is(rest, key, i - 1);
    }
}

proof fn insert_keeps_order(keys: Seq<Seq<char>>, key: Seq<char>, i: int)
    requires
        ascending(keys),
        0 <= i <= keys.len(),
        forall|j: int| 0 <= j < i ==> before(#[trigger] keys[j], key),
        i < keys.len() ==> !before(keys[i], key) && keys[i] != key,
    ensures
        ascending(keys.insert(i, key)),
{
    let new = keys.insert(i, key);
    assert forall|a: int, b: int| 0 <= a < b < new.len() implies before(
        #[trigger] new[a],
        #[trigger] new[b],
    ) by {
        if a == i {
            before_is_an_order(key, keys[i], keys[b - 1]);
        } else if b == i {
            assert(before(keys[a], key));
        } else {
            let x = if a < i { a } else { a - 1 };
            let y = if b < i { b } else { b - 1 };
            assert(new[a] == keys[x] && new[b] == keys[y]);
        }
    }
}

} // verus!
