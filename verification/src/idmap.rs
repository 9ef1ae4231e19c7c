//! Small maps keyed by identifiers.

use vstd::prelude::*;
use crate::ids::{ChannelId, GenericId, GetPrefix};

verus! {

/// Whether no key occurs twice.
pub open spec fn unique_keys<K, V>(entries: Seq<(K, V)>) -> bool {
    forall|i: int, j: int| 0 <= i < j < entries.len() ==> entries[i].0 != entries[j].0
}

/// The map held by a list of entries with unique keys.
pub open spec fn entries_map<K, V>(entries: Seq<(K, V)>) -> Map<K, V>
    decreases entries.len(),
{
    if entries.len() == 0 {
        Map::empty()
    } else {
        entries_map(entries.drop_last()).insert(entries.last().0, entries.last().1)
    }
}

/// A map held by entries with unique keys maps each entry's key to the entry's value.
pub proof fn lemma_entries_map<K, V>(entries: Seq<(K, V)>)
    requires
        unique_keys(entries),
    ensures
        forall|k: K| #[trigger] entries_map(entries).contains_key(k) <==> exists|i: int|
            0 <= i < entries.len() && entries[i].0 == k,
        forall|i: int| 0 <= i < entries.len() ==> #[trigger] entries_map(entries)[entries[i].0] == entries[i].1,
        entries_map(entries).dom().finite(),
    decreases entries.len(),
{
    if entries.len() > 0 {
        let t = entries.drop_last();
        assert(unique_keys(t));
        lemma_entries_map(t);
        assert forall|k: K| #[trigger] entries_map(entries).contains_key(k) <==> exists|i: int|
            0 <= i < entries.len() && entries[i].0 == k by {
            if exists|i: int| 0 <= i < entries.len() && entries[i].0 == k {
                let i = choose|i: int| 0 <= i < entries.len() && entries[i].0 == k;
                if i < t.len() {
                    assert(t[i].0 == k);
                }
            }
            if entries_map(t).contains_key(k) {
                let i = choose|i: int| 0 <= i < t.len() && t[i].0 == k;
                assert(entries[i].0 == k);
            }
        }
        assert forall|i: int| 0 <= i < entries.len() implies #[trigger] entries_map(entries)[entries[i].0] == entries[i].1 by {
            if i < t.len() {
                assert(t[i] == entries[i]);
                assert(entries[i].0 != entries.last().0);
            }
        }
    }
}

/// A map from identifiers of one kind to values, kept in order of first insertion
pub struct IdMap<T: GetPrefix, V: Copy> {
    entries: Vec<(GenericId<T>, V)>,
}

impl<T: GetPrefix, V: Copy> IdMap<T, V> {
    pub closed spec fn entries(&self) -> Seq<(GenericId<T>, V)> {
        self.entries@
    }

    pub closed spec fn wf(&self) -> bool {
        unique_keys(self.entries@)
    }

    /// The map
    pub open spec fn view(&self) -> Map<GenericId<T>, V> {
        entries_map(self.entries())
    }

    /// The keys, in order of first insertion
    pub open spec fn keys(&self) -> Seq<GenericId<T>> {
        self.entries().map_values(|e: (GenericId<T>, V)| e.0)
    }

    /// The values, in the order of the keys
    pub open spec fn values(&self) -> Seq<V> {
        self.entries().map_values(|e: (GenericId<T>, V)| e.1)
    }

    pub fn new() -> (r: Self)
        ensures
            r.wf(),
            r@ == Map::<GenericId<T>, V>::empty(),
            r.entries().len() == 0,
    {
        IdMap { entries: Vec::new() }
    }

    fn position(&self, key: GenericId<T>) -> (r: Option<usize>)
        requires
            self.wf(),
        ensures
            match r {
                Some(i) => i < self.entries().len() && self.entries()[i as int].0 == key,
                None => forall|i: int| 0 <= i < self.entries().len() ==> self.entries()[i].0 != key,
            },
    {
        let mut i: usize = 0;
        while i < self.entries.len()
            invariant
                i <= self.entries@.len(),
                forall|k: int| 0 <= k < i ==> self.entries@[k].0 != key,
            decreases self.entries@.len() - i,
        {
            proof {
                GenericId::lemma_value_injective(self.entries@[i as int].0, key);
            }
            if self.entries[i].0.id() == key.id() {
                return Some(i);
            }
            i = i + 1;
        }
        None
    }

    /// The map given by `pairs`, where a later pair of the same key wins.
    pub fn from_pairs(pairs: &Vec<(GenericId<T>, V)>) -> (r: Self)
        ensures
            r.wf(),
            r@ == entries_map(pairs@),
    {
        let mut r = IdMap::new();
        let mut i: usize = 0;
        while i < pairs.len()
            invariant
                i <= pairs@.len(),
                r.wf(),
                r@ == entries_map(pairs@.take(i as int)),
            decreases pairs@.len() - i,
        {
            let (k, v) = pairs[i];
            r.insert(k, v);
            assert(pairs@.take(i + 1).drop_last() =~= pairs@.take(i as int));
            i = i + 1;
        }
        assert(pairs@.take(i as int) =~= pairs@);
        r
    }

    /// The keys, in order of first insertion.
    pub fn key_list(&self) -> (r: Vec<GenericId<T>>)
        ensures
            r@ == self.keys(),
    {
        let mut out: Vec<GenericId<T>> = Vec::new();
        let mut i: usize = 0;
        while i < self.entries.len()
            invariant
                i <= self.entries@.len(),
                out@ == self.entries@.take(i as int).map_values(|e: (GenericId<T>, V)| e.0),
            decreases self.entries@.len() - i,
        {
            out.push(self.entries[i].0);
            assert(self.entries@.take(i + 1).map_values(|e: (GenericId<T>, V)| e.0)
                =~= self.entries@.take(i as int).map_values(|e: (GenericId<T>, V)| e.0).push(self.entries@[i as int].0));
            i = i + 1;
        }
        assert(self.entries@.take(i as int) =~= self.entries@);
        out
    }

    /// The values, in the order of their keys.
    pub fn value_list(&self) -> (r: Vec<V>)
        ensures
            r@ == self.values(),
    {
        let mut out: Vec<V> = Vec::new();
        let mut i: usize = 0;
        while i < self.entries.len()
            invariant
                i <= self.entries@.len(),
                out@ == self.entries@.take(i as int).map_values(|e: (GenericId<T>, V)| e.1),
            decreases self.entries@.len() - i,
        {
            out.push(self.entries[i].1);
            assert(self.entries@.take(i + 1).map_values(|e: (GenericId<T>, V)| e.1)
                =~= self.entries@.take(i as int).map_values(|e: (GenericId<T>, V)| e.1).push(self.entries@[i as int].1));
            i = i + 1;
        }
        assert(self.entries@.take(i as int) =~= self.entries@);
        out
    }

    /// The keys are distinct and are exactly the keys of the map; each value is the
    /// map's value of the key at the same position.
    pub proof fn lemma_keys(&self)
        requires
            self.wf(),
        ensures
            forall|i: int, j: int| 0 <= i < j < self.keys().len() ==> self.keys()[i] != self.keys()[j],
            forall|k: GenericId<T>| #[trigger] self.keys().contains(k) <==> self@.contains_key(k),
            self.values().len() == self.keys().len(),
            forall|i: int| 0 <= i < self.keys().len() ==> #[trigger] self@[self.keys()[i]] == self.values()[i],
            self@.dom().finite(),
    {
        lemma_entries_map(self.entries@);
        assert forall|k: GenericId<T>| #[trigger] self.keys().contains(k) <==> self@.contains_key(k) by {
            if self.keys().contains(k) {
                let i = choose|i: int| 0 <= i < self.keys().len() && self.keys()[i] == k;
                assert(self.entries@[i].0 == k);
            }
            if self@.contains_key(k) {
                let i = choose|i: int| 0 <= i < self.entries@.len() && self.entries@[i].0 == k;
                assert(self.keys()[i] == k);
            }
        }
        assert forall|i: int| 0 <= i < self.keys().len() implies #[trigger] self@[self.keys()[i]] == self.values()[i] by {
            assert(self.keys()[i] == self.entries@[i].0);
        }
    }

    /// The value of `key`.
    pub fn get(&self, key: GenericId<T>) -> (r: Option<V>)
        requires
            self.wf(),
        ensures
            match r {
                Some(v) => self@.contains_key(key) && self@[key] == v,
                None => !self@.contains_key(key),
            },
    {
        proof {
            lemma_entries_map(self.entries@);
        }
        match self.position(key) {
            Some(i) => Some(self.entries[i].1),
            None => None,
        }
    }

    /// Sets the value of `key`.
    pub fn insert(&mut self, key: GenericId<T>, value: V)
        requires
            old(self).wf(),
        ensures
            final(self).wf(),
            final(self)@ == old(self)@.insert(key, value),
    {
        proof {
            lemma_entries_map(self.entries@);
        }
        match self.position(key) {
            Some(i) => {
                let ghost pre = self.entries@;
                self.entries.set(i, (key, value));
                proof {
                    lemma_entries_map(self.entries@);
                    assert(self@ =~= old(self)@.insert(key, value)) by {
                        assert forall|k: GenericId<T>| #[trigger] self@.contains_key(k) <==> old(self)@.insert(key, value).contains_key(k) by {
                            if exists|j: int| 0 <= j < pre.len() && pre[j].0 == k {
                                let j = choose|j: int| 0 <= j < pre.len() && pre[j].0 == k;
                                assert(self.entries@[j].0 == k);
                            }
                        }
                        assert forall|k: GenericId<T>| #[trigger] self@.contains_key(k) implies self@[k] == old(self)@.insert(key, value)[k] by {
                            let j = choose|j: int| 0 <= j < self.entries@.len() && self.entries@[j].0 == k;
                            if j != i {
                                assert(pre[j] == self.entries@[j]);
                            }
                        }
                    }
                }
            },
            None => {
                self.entries.push((key, value));
                proof {
                    assert(self.entries@.drop_last() =~= old(self).entries@);
                    assert forall|i: int, j: int| 0 <= i < j < self.entries@.len() implies self.entries@[i].0 != self.entries@[j].0 by {
                        assert(self.entries@[i] == old(self).entries@[i]);
                        if j < self.entries@.len() - 1 {
                            assert(self.entries@[j] == old(self).entries@[j]);
                        } else {
                            assert(self.entries@[j] == (key, value));
                            assert(old(self).entries()[i].0 != key);
                        }
                    }
                }
            },
        }
    }
}

/// A map from channel identifiers to connection tokens
pub struct ChannelTokenMap {
    entries: Vec<(ChannelId, usize)>,
}

/// Whether two channel identifiers are equal.
pub fn channel_eq(a: ChannelId, b: ChannelId) -> (r: bool)
    ensures
        r == (a == b),
{
    match (a, b) {
        (ChannelId::Activity(x), ChannelId::Activity(y)) => {
            proof {
                GenericId::lemma_value_injective(x, y);
            }
            x.id() == y.id()
        },
        (ChannelId::Agent(x), ChannelId::Agent(y)) => {
            proof {
                GenericId::lemma_value_injective(x, y);
            }
            x.id() == y.id()
        },
        (ChannelId::Worker(x), ChannelId::Worker(y)) => {
            proof {
                GenericId::lemma_value_injective(x, y);
            }
            x.id() == y.id()
        },
        (ChannelId::Relay(x), ChannelId::Relay(y)) => {
            proof {
                GenericId::lemma_value_injective(x, y);
            }
            x.id() == y.id()
        },
        _ => false,
    }
}

impl ChannelTokenMap {
    pub closed spec fn entries(&self) -> Seq<(ChannelId, usize)> {
        self.entries@
    }

    pub closed spec fn wf(&self) -> bool {
        unique_keys(self.entries@)
    }

    pub open spec fn view(&self) -> Map<ChannelId, usize> {
        entries_map(self.entries())
    }

    pub fn new() -> (r: Self)
        ensures
            r.wf(),
            r@ == Map::<ChannelId, usize>::empty(),
    {
        ChannelTokenMap { entries: Vec::new() }
    }

    fn position(&self, key: ChannelId) -> (r: Option<usize>)
        requires
            self.wf(),
        ensures
            match r {
                Some(i) => i < self.entries().len() && self.entries()[i as int].0 == key,
                None => forall|i: int| 0 <= i < self.entries().len() ==> self.entries()[i].0 != key,
            },
    {
        let mut i: usize = 0;
        while i < self.entries.len()
            invariant
                i <= self.entries@.len(),
                forall|k: int| 0 <= k < i ==> self.entries@[k].0 != key,
            decreases self.entries@.len() - i,
        {
            if channel_eq(self.entries[i].0, key) {
                return Some(i);
            }
            i = i + 1;
        }
        None
    }

    /// The token of `key`.
    pub fn get(&self, key: ChannelId) -> (r: Option<usize>)
        requires
            self.wf(),
        ensures
            match r {
                Some(v) => self@.contains_key(key) && self@[key] == v,
                None => !self@.contains_key(key),
            },
    {
        proof {
            lemma_entries_map(self.entries@);
        }
        match self.position(key) {
            Some(i) => Some(self.entries[i].1),
            None => None,
        }
    }

    /// Sets the token of `key`.
    pub fn insert(&mut self, key: ChannelId, value: usize)
        requires
            old(self).wf(),
        ensures
            final(self).wf(),
            final(self)@ == old(self)@.insert(key, value),
    {
        proof {
            lemma_entries_map(self.entries@);
        }
        match self.position(key) {
            Some(i) => {
                let ghost pre = self.entries@;
                self.entries.set(i, (key, value));
                proof {
                    lemma_entries_map(self.entries@);
                    assert forall|k: ChannelId| #[trigger] self@.contains_key(k) <==> old(self)@.insert(key, value).contains_key(k) by {
                        if exists|j: int| 0 <= j < pre.len() && pre[j].0 == k {
                            let j = choose|j: int| 0 <= j < pre.len() && pre[j].0 == k;
                            assert(self.entries@[j].0 == k);
                        }
                    }
                    assert forall|k: ChannelId| #[trigger] self@.contains_key(k) implies self@[k] == old(self)@.insert(key, value)[k] by {
                        let j = choose|j: int| 0 <= j < self.entries@.len() && self.entries@[j].0 == k;
                        if j != i {
                            assert(pre[j] == self.entries@[j]);
                        }
                    }
                    assert(self@ =~= old(self)@.insert(key, value));
                }
            },
            None => {
                self.entries.push((key, value));
                proof {
                    assert(self.entries@.drop_last() =~= old(self).entries@);
                    assert forall|i: int, j: int| 0 <= i < j < self.entries@.len() implies self.entries@[i].0 != self.entries@[j].0 by {
                        assert(self.entries@[i] == old(self).entries@[i]);
                        if j < self.entries@.len() - 1 {
                            assert(self.entries@[j] == old(self).entries@[j]);
                        } else {
                            assert(self.entries@[j] == (key, value));
                            assert(old(self).entries()[i].0 != key);
                        }
                    }
                }
            },
        }
    }
}

} // verus!
