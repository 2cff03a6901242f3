//! A small map: pairs of a key and a value, in the order of insertion. It is
//! for keys that are not integers: addresses, and ids with a side.
use vstd::prelude::*;
use vstd::seq_lib::*;

verus! {

/// Values that can serve as keys.
pub trait TableKey: Sized {
    /// Whether two keys are equal.
    fn same_key(&self, other: &Self) -> (r: bool)
        ensures
            r == (*self == *other),
    ;

    /// The key once more.
    fn copy_key(&self) -> (r: Self)
        ensures
            r == *self,
    ;
}

impl TableKey for [u8; 32] {
    fn same_key(&self, other: &Self) -> (r: bool) {
        crate::decoder::leader_lock::same_pubkey(self, other)
    }

    fn copy_key(&self) -> (r: Self) {
        *self
    }
}

impl TableKey for (u32, crate::planner::Direction) {
    fn same_key(&self, other: &Self) -> (r: bool) {
        self.0 == other.0 && self.1 == other.1
    }

    fn copy_key(&self) -> (r: Self) {
        (self.0, self.1)
    }
}

impl TableKey for (u32, crate::planner::Direction, i64) {
    fn same_key(&self, other: &Self) -> (r: bool) {
        self.0 == other.0 && self.1 == other.1 && self.2 == other.2
    }

    fn copy_key(&self) -> (r: Self) {
        (self.0, self.1, self.2)
    }
}

/// No key occurs twice.
pub open spec fn distinct_keys<K, V>(items: Seq<(K, V)>) -> bool {
    forall|i: int, j: int|
        #![trigger items[i], items[j]]
        0 <= i < j < items.len() ==> items[i].0 != items[j].0
}

/// The map that the pairs make up; of two pairs with one key the later counts.
pub open spec fn map_of<K, V>(items: Seq<(K, V)>) -> Map<K, V>
    decreases items.len(),
{
    if items.len() == 0 {
        Map::empty()
    } else {
        map_of(items.drop_last()).insert(items.last().0, items.last().1)
    }
}

/// A key is in the map when a pair has it, and then the pair's value is its value.
pub proof fn lemma_map_of<K, V>(items: Seq<(K, V)>)
    requires
        distinct_keys(items),
    ensures
        forall|i: int|
            #![trigger items[i]]
            0 <= i < items.len() ==> map_of(items).contains_key(items[i].0) && map_of(
                items,
            )[items[i].0] == items[i].1,
        forall|k: K| #[trigger]
            map_of(items).contains_key(k) ==> exists|i: int|
                #![trigger items[i]]
                0 <= i < items.len() && items[i].0 == k,
    decreases items.len(),
{
    if items.len() > 0 {
        let rest = items.drop_last();
        assert forall|i: int, j: int|
            #![trigger rest[i], rest[j]]
            0 <= i < j < rest.len() implies rest[i].0 != rest[j].0 by {
            assert(items[i].0 != items[j].0);
        }
        lemma_map_of(rest);
        assert forall|i: int|
            #![trigger items[i]]
            0 <= i < items.len() implies map_of(items).contains_key(items[i].0) && map_of(
            items,
        )[items[i].0] == items[i].1 by {
            if i < rest.len() {
                assert(rest[i] == items[i]);
                assert(items[i].0 != items[items.len() - 1].0);
            }
        }
        assert forall|k: K| #[trigger] map_of(items).contains_key(k) implies exists|i: int|
            #![trigger items[i]]
            0 <= i < items.len() && items[i].0 == k by {
            if k == items.last().0 {
                assert(items[items.len() - 1].0 == k);
            } else {
                assert(map_of(rest).contains_key(k));
                let i = choose|i: int|
                    #![trigger rest[i]]
                    0 <= i < rest.len() && rest[i].0 == k;
                assert(items[i].0 == k);
            }
        }
    }
}

/// A map has as many keys as there are pairs.
pub proof fn lemma_map_of_len<K, V>(items: Seq<(K, V)>)
    requires
        distinct_keys(items),
    ensures
        map_of(items).dom().finite(),
        map_of(items).len() == items.len(),
    decreases items.len(),
{
    if items.len() > 0 {
        let rest = items.drop_last();
        assert forall|i: int, j: int|
            #![trigger rest[i], rest[j]]
            0 <= i < j < rest.len() implies rest[i].0 != rest[j].0 by {
            assert(items[i].0 != items[j].0);
        }
        lemma_map_of_len(rest);
        lemma_map_of(rest);
        let k = items.last().0;
        assert(!map_of(rest).contains_key(k)) by {
            if map_of(rest).contains_key(k) {
                let i = choose|i: int|
                    #![trigger rest[i]]
                    0 <= i < rest.len() && rest[i].0 == k;
                assert(items[i].0 != items[items.len() - 1].0);
            }
        }
        assert(map_of(items).dom() =~= map_of(rest).dom().insert(k));
    }
}

/// Two maps with the same pairs are the same map.
proof fn lemma_map_equal<K, V>(items: Seq<(K, V)>, m: Map<K, V>)
    requires
        distinct_keys(items),
        forall|i: int|
            #![trigger items[i]]
            0 <= i < items.len() ==> m.contains_key(items[i].0) && m[items[i].0] == items[i].1,
        forall|k: K| #[trigger]
            m.contains_key(k) ==> exists|i: int|
                #![trigger items[i]]
                0 <= i < items.len() && items[i].0 == k,
    ensures
        map_of(items) == m,
{
    lemma_map_of(items);
    assert forall|k: K| map_of(items).contains_key(k) == m.contains_key(k) by {
        if m.contains_key(k) {
            let i = choose|i: int|
                #![trigger items[i]]
                0 <= i < items.len() && items[i].0 == k;
            assert(map_of(items).contains_key(items[i].0));
        }
        if map_of(items).contains_key(k) {
            let i = choose|i: int|
                #![trigger items[i]]
                0 <= i < items.len() && items[i].0 == k;
            assert(m.contains_key(items[i].0));
        }
    }
    assert forall|k: K| map_of(items).contains_key(k) implies map_of(items)[k] == m[k] by {
        let i = choose|i: int|
            #![trigger items[i]]
            0 <= i < items.len() && items[i].0 == k;
        assert(map_of(items)[items[i].0] == items[i].1);
    }
    assert(map_of(items) =~= m);
}

/// Pairs with the same keys, and with values that look alike, make up maps
/// that look alike.
pub proof fn lemma_alike<K, V, W>(a: Seq<(K, V)>, b: Seq<(K, V)>, look: spec_fn(V) -> W)
    requires
        a.len() == b.len(),
        forall|i: int|
            #![trigger b[i]]
            0 <= i < b.len() ==> b[i].0 == a[i].0 && look(b[i].1) == look(a[i].1),
    ensures
        map_of(b).map_values(look) == map_of(a).map_values(look),
    decreases a.len(),
{
    if a.len() > 0 {
        let ra = a.drop_last();
        let rb = b.drop_last();
        assert forall|i: int|
            #![trigger rb[i]]
            0 <= i < rb.len() implies rb[i].0 == ra[i].0 && look(rb[i].1) == look(ra[i].1) by {
            assert(b[i] == rb[i]);
        }
        lemma_alike(ra, rb, look);
        assert(b[b.len() - 1] == b.last());
        assert(map_of(a).map_values(look) =~= map_of(ra).map_values(look).insert(
            a.last().0,
            look(a.last().1),
        ));
        assert(map_of(b).map_values(look) =~= map_of(rb).map_values(look).insert(
            b.last().0,
            look(b.last().1),
        ));
    }
}

/// Pairs with the same keys and values make up the same map.
pub proof fn lemma_same_pairs<K, V>(a: Seq<(K, V)>, b: Seq<(K, V)>)
    requires
        a.len() == b.len(),
        forall|i: int| #![trigger b[i]] 0 <= i < b.len() ==> b[i].0 == a[i].0 && b[i].1 == a[i].1,
    ensures
        map_of(b) == map_of(a),
{
    assert(b =~= a);
}

/// A map from keys to values.
#[derive(Debug)]
pub struct Table<K, V> {
    entries: Vec<(K, V)>,
}

impl<K, V> Table<K, V> {
    /// No key occurs twice.
    #[verifier::type_invariant]
    pub closed spec fn inv(self) -> bool {
        distinct_keys(self.entries@)
    }

    /// The pairs, in the order in which their keys were inserted.
    pub closed spec fn items(&self) -> Seq<(K, V)> {
        self.entries@
    }

    /// The map.
    pub open spec fn view(&self) -> Map<K, V> {
        map_of(self.items())
    }

    /// An empty map.
    pub fn new() -> (r: Self)
        ensures
            r@ == Map::<K, V>::empty(),
            r.items() == Seq::<(K, V)>::empty(),
    {
        Table { entries: Vec::new() }
    }

    /// Number of keys.
    pub fn len(&self) -> (r: usize)
        ensures
            r == self@.len(),
            r == self.items().len(),
            self@.dom().finite(),
            distinct_keys(self.items()),
    {
        proof {
            use_type_invariant(self);
            lemma_map_of_len(self.entries@);
        }
        self.entries.len()
    }

    /// Whether there is no key.
    pub fn is_empty(&self) -> (r: bool)
        ensures
            r == (self@ == Map::<K, V>::empty()),
            r == (self.items().len() == 0),
    {
        proof {
            use_type_invariant(self);
            lemma_map_of(self.entries@);
            if self.entries@.len() > 0 {
                assert(self@.contains_key(self.entries@[0].0));
            }
        }
        self.entries.len() == 0
    }

    /// Drops every pair.
    pub fn clear(&mut self)
        ensures
            final(self)@ == Map::<K, V>::empty(),
            final(self).items() == Seq::<(K, V)>::empty(),
    {
        self.entries = Vec::new();
    }

    /// The pair at a position.
    pub fn entry_at(&self, i: usize) -> (r: &(K, V))
        requires
            i < self.items().len(),
        ensures
            *r == self.items()[i as int],
            self@.contains_key(r.0),
            self@[r.0] == r.1,
    {
        proof {
            use_type_invariant(self);
            lemma_map_of(self.entries@);
        }
        &self.entries[i]
    }
}

impl<K: TableKey, V> Table<K, V> {
    /// The position of a key.
    fn find(&self, key: &K) -> (r: Option<usize>)
        ensures
            match r {
                Some(i) => i < self.entries@.len() && self.entries@[i as int].0 == *key
                    && self@.contains_key(*key) && self@[*key] == self.entries@[i as int].1,
                None => !self@.contains_key(*key) && forall|j: int|
                    #![trigger self.entries@[j]]
                    0 <= j < self.entries@.len() ==> self.entries@[j].0 != *key,
            },
    {
        proof {
            use_type_invariant(self);
            lemma_map_of(self.entries@);
        }
        let mut i: usize = 0;
        while i < self.entries.len()
            invariant
                i <= self.entries@.len(),
                forall|j: int|
                    #![trigger self.entries@[j]]
                    0 <= j < i ==> self.entries@[j].0 != *key,
                forall|j: int|
                    #![trigger self.entries@[j]]
                    0 <= j < self.entries@.len() ==> self@.contains_key(self.entries@[j].0)
                        && self@[self.entries@[j].0] == self.entries@[j].1,
            decreases self.entries@.len() - i,
        {
            if self.entries[i].0.same_key(key) {
                return Some(i);
            }
            i = i + 1;
        }
        None
    }

    /// The value of a key.
    pub fn get(&self, key: &K) -> (r: Option<&V>)
        ensures
            match r {
                Some(v) => self@.contains_key(*key) && self@[*key] == *v,
                None => !self@.contains_key(*key),
            },
    {
        match self.find(key) {
            Some(i) => Some(&self.entries[i].1),
            None => None,
        }
    }

    /// Whether the map has a key.
    pub fn contains_key(&self, key: &K) -> (r: bool)
        ensures
            r == self@.contains_key(*key),
    {
        match self.find(key) {
            Some(_) => true,
            None => false,
        }
    }

    /// Sets the value of a key. A new key comes last.
    pub fn insert(&mut self, key: K, value: V)
        ensures
            final(self)@ == old(self)@.insert(key, value),
    {
        let found = self.find(&key);
        let ghost before = self.entries@;
        proof {
            use_type_invariant(&*self);
        }
        let mut entries: Vec<(K, V)> = Vec::new();
        std::mem::swap(&mut entries, &mut self.entries);
        match found {
            Some(i) => {
                entries[i] = (key, value);
            },
            None => {
                entries.push((key, value));
            },
        }
        proof {
            let after = entries@;
            let m = map_of(before).insert(key, value);
            lemma_map_of(before);
            assert forall|a: int, b: int|
                #![trigger after[a], after[b]]
                0 <= a < b < after.len() implies after[a].0 != after[b].0 by {
                if b < before.len() {
                    assert(before[a].0 != before[b].0);
                } else {
                    assert(before[a].0 != key);
                }
            }
            assert forall|a: int|
                #![trigger after[a]]
                0 <= a < after.len() implies m.contains_key(after[a].0) && m[after[a].0]
                == after[a].1 by {
                match found {
                    Some(i) => {
                        if a != i {
                            assert(before[a] == after[a]);
                            if a < i {
                                assert(before[a].0 != before[i as int].0);
                            } else {
                                assert(before[i as int].0 != before[a].0);
                            }
                        }
                    },
                    None => {
                        if a < before.len() {
                            assert(before[a] == after[a]);
                        }
                    },
                }
            }
            assert forall|k: K| #[trigger] m.contains_key(k) implies exists|a: int|
                #![trigger after[a]]
                0 <= a < after.len() && after[a].0 == k by {
                if k == key {
                    match found {
                        Some(i) => {
                            assert(after[i as int].0 == k);
                        },
                        None => {
                            assert(after[after.len() - 1].0 == k);
                        },
                    }
                } else {
                    assert(map_of(before).contains_key(k));
                    let a = choose|a: int|
                        #![trigger before[a]]
                        0 <= a < before.len() && before[a].0 == k;
                    assert(after[a].0 == k);
                }
            }
            lemma_map_equal(after, m);
        }
        self.entries = entries;
    }

    /// Drops a key and returns its value.
    pub fn remove(&mut self, key: &K) -> (r: Option<V>)
        ensures
            final(self)@ == old(self)@.remove(*key),
            match r {
                Some(v) => old(self)@.contains_key(*key) && old(self)@[*key] == v,
                None => !old(self)@.contains_key(*key),
            },
    {
        let found = self.find(key);
        let ghost before = self.entries@;
        proof {
            use_type_invariant(&*self);
        }
        match found {
            Some(i) => {
                let mut entries: Vec<(K, V)> = Vec::new();
                std::mem::swap(&mut entries, &mut self.entries);
                let pair = entries.remove(i);
                proof {
                    let after = entries@;
                    let m = map_of(before).remove(*key);
                    lemma_map_of(before);
                    assert forall|a: int, b: int|
                        #![trigger after[a], after[b]]
                        0 <= a < b < after.len() implies after[a].0 != after[b].0 by {
                        let a0 = if a < i { a } else { a + 1 };
                        let b0 = if b < i { b } else { b + 1 };
                        assert(before[a0].0 != before[b0].0);
                    }
                    assert forall|a: int|
                        #![trigger after[a]]
                        0 <= a < after.len() implies m.contains_key(after[a].0) && m[after[a].0]
                        == after[a].1 by {
                        let a0 = if a < i { a } else { a + 1 };
                        assert(before[a0] == after[a]);
                        if a0 < i {
                            assert(before[a0].0 != before[i as int].0);
                        } else {
                            assert(before[i as int].0 != before[a0].0);
                        }
                    }
                    assert forall|k: K| #[trigger] m.contains_key(k) implies exists|a: int|
                        #![trigger after[a]]
                        0 <= a < after.len() && after[a].0 == k by {
                        assert(map_of(before).contains_key(k));
                        let a = choose|a: int|
                            #![trigger before[a]]
                            0 <= a < before.len() && before[a].0 == k;
                        if a < i {
                            assert(after[a].0 == k);
                        } else {
                            assert(after[a - 1].0 == k);
                        }
                    }
                    lemma_map_equal(after, m);
                }
                self.entries = entries;
                Some(pair.1)
            },
            None => {
                proof {
                    assert(map_of(before).remove(*key) =~= map_of(before));
                }
                None
            },
        }
    }
}

impl<K: TableKey, V: Clone> Clone for Table<K, V> {
    fn clone(&self) -> (r: Self)
        ensures
            r.items().len() == self.items().len(),
            forall|i: int|
                #![trigger r.items()[i]]
                0 <= i < r.items().len() ==> r.items()[i].0 == self.items()[i].0 && cloned::<V>(
                    self.items()[i].1,
                    r.items()[i].1,
                ),
    {
        proof {
            use_type_invariant(self);
        }
        let mut entries: Vec<(K, V)> = Vec::new();
        let mut i: usize = 0;
        while i < self.entries.len()
            invariant
                i <= self.entries@.len(),
                entries@.len() == i,
                distinct_keys(self.entries@),
                forall|j: int|
                    #![trigger entries@[j]]
                    0 <= j < i ==> entries@[j].0 == self.entries@[j].0 && cloned::<V>(
                        self.entries@[j].1,
                        entries@[j].1,
                    ),
            decreases self.entries@.len() - i,
        {
            let pair = &self.entries[i];
            entries.push((pair.0.copy_key(), pair.1.clone()));
            i = i + 1;
        }
        proof {
            assert forall|a: int, b: int|
                #![trigger entries@[a], entries@[b]]
                0 <= a < b < entries@.len() implies entries@[a].0 != entries@[b].0 by {
                assert(self.entries@[a].0 != self.entries@[b].0);
            }
        }
        Table { entries }
    }
}

impl<K, V> Default for Table<K, V> {
    fn default() -> (r: Self)
        ensures
            r@ == Map::<K, V>::empty(),
            r.items() == Seq::<(K, V)>::empty(),
    {
        Table::new()
    }
}

} // verus!
