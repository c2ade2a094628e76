//! The client cache: a mapping from logical `i64` keys to current `String`
//! values, an observed projection of the log restricted to the map's key
//! space. One sync worker writes it; the map API reads it.

use std::collections::HashMap;
use vstd::prelude::*;

verus! {

broadcast use vstd::std_specs::hash::group_hash_axioms;

/// In-memory cache of the live map state.
pub struct Cache {
    inner: HashMap<i64, String>,
}

impl View for Cache {
    type V = Map<i64, Seq<char>>;

    closed spec fn view(&self) -> Map<i64, Seq<char>> {
        Map::new(|k: i64| self.inner@.contains_key(k), |k: i64| self.inner@[k]@)
    }
}

/// Entries applied one after the other, first to last.
pub open spec fn spec_insert_all(m: Map<i64, Seq<char>>, es: Seq<(i64, Seq<char>)>) -> Map<
    i64,
    Seq<char>,
>
    decreases es.len(),
{
    if es.len() == 0 {
        m
    } else {
        spec_insert_all(m, es.drop_last()).insert(es.last().0, es.last().1)
    }
}

/// The textual contents of a list of key-value entries.
pub open spec fn entry_pairs_view(v: Seq<(i64, String)>) -> Seq<(i64, Seq<char>)> {
    Seq::new(v.len(), |i: int| (v[i].0, v[i].1@))
}

impl Cache {
    pub fn new() -> (c: Cache)
        ensures
            c@ == Map::<i64, Seq<char>>::empty(),
    {
        let c = Cache { inner: HashMap::new() };
        proof {
            assert(c@ =~= Map::<i64, Seq<char>>::empty());
        }
        c
    }

    /// The current value for a key, if the key is live.
    pub fn get(&self, key: &i64) -> (r: Option<String>)
        ensures
            match r {
                Some(v) => self@.contains_key(*key) && v@ == self@[*key],
                None => !self@.contains_key(*key),
            },
    {
        match self.inner.get(key) {
            Some(v) => Some(v.clone()),
            None => None,
        }
    }

    pub fn insert(&mut self, key: i64, value: String)
        ensures
            final(self)@ == old(self)@.insert(key, value@),
    {
        self.inner.insert(key, value);
        proof {
            assert(self@ =~= old(self)@.insert(key, value@));
        }
    }

    pub fn remove(&mut self, key: &i64)
        ensures
            final(self)@ == old(self)@.remove(*key),
    {
        self.inner.remove(key);
        proof {
            assert(self@ =~= old(self)@.remove(*key));
        }
    }

    pub fn contains_key(&self, key: &i64) -> (r: bool)
        ensures
            r == self@.contains_key(*key),
    {
        self.inner.contains_key(key)
    }

    pub fn len(&self) -> (n: usize)
        ensures
            n == self@.len(),
    {
        proof {
            assert(self@.dom() =~= self.inner@.dom());
        }
        self.inner.len()
    }

    pub fn is_empty(&self) -> (r: bool)
        ensures
            r == (self@.len() == 0),
    {
        proof {
            assert(self@.dom() =~= self.inner@.dom());
        }
        self.inner.is_empty()
    }

    /// Bulk insertion, used by the bootstrap path: entries take effect in
    /// order, later entries overriding earlier ones with the same key.
    pub fn insert_all(&mut self, entries: &Vec<(i64, String)>)
        ensures
            final(self)@ == spec_insert_all(old(self)@, entry_pairs_view(entries@)),
    {
        let ghost ev = entry_pairs_view(entries@);
        let n = entries.len();
        let mut i: usize = 0;
        while i < n
            invariant
                i <= n,
                n == entries@.len(),
                ev == entry_pairs_view(entries@),
                self@ == spec_insert_all(old(self)@, ev.take(i as int)),
            decreases n - i,
        {
            self.insert(entries[i].0, entries[i].1.clone());
            proof {
                assert(ev.take(i + 1).drop_last() =~= ev.take(i as int));
                assert(ev.take(i + 1).last() == ev[i as int]);
            }
            i = i + 1;
        }
        proof {
            assert(ev.take(n as int) =~= ev);
        }
    }
}

impl Default for Cache {
    fn default() -> (c: Self)
        ensures
            c@ == Map::<i64, Seq<char>>::empty(),
    {
        Cache::new()
    }
}

} // verus!
