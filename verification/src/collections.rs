//! Sets and maps over keys that can be compared for equality.
//!
//! Both collections keep their contents in a vector and hold as an invariant
//! of the type that no key occurs twice. Their views are mathematical sets and
//! maps over the views of what they hold.

use vstd::prelude::*;

verus! {

/// A value that a collection can look up: its comparison decides equality of
/// views, and its copy has the same view.
pub trait Key: View + Sized {
    /// Whether both values have the same view.
    fn same(&self, other: &Self) -> (equal: bool)
        ensures
            equal == (self@ == other@),
    ;

    /// A second value with the same view.
    fn duplicate(&self) -> (copy: Self)
        ensures
            copy@ == self@,
    ;
}

/// A finite set.
pub struct VecSet<T: Key> {
    items: Vec<T>,
}

impl<T: Key> VecSet<T> {
    /// The members in the order in which they are walked.
    pub closed spec fn order(&self) -> Seq<T::V> {
        self.items@.map_values(|t: T| t@)
    }

    #[verifier::type_invariant]
    closed spec fn distinct(&self) -> bool {
        self.order().no_duplicates()
    }
}

impl<T: Key> View for VecSet<T> {
    type V = Set<T::V>;

    open spec fn view(&self) -> Set<T::V> {
        self.order().to_set()
    }
}

impl<T: Key> VecSet<T> {
    /// The empty set.
    pub fn new() -> (set: Self)
        ensures
            set@ == Set::<T::V>::empty(),
            set.order() == Seq::<T::V>::empty(),
    {
        let set = VecSet { items: Vec::new() };
        assert(set.order() =~= Seq::<T::V>::empty());
        assert(set@ =~= Set::<T::V>::empty());
        set
    }

    /// The number of members.
    pub fn len(&self) -> (n: usize)
        ensures
            n == self@.len(),
            n == self.order().len(),
            self.order().no_duplicates(),
    {
        proof {
            use_type_invariant(self);
            self.order().unique_seq_to_set();
        }
        self.items.len()
    }

    /// The member at position `i` of the walk.
    pub fn at(&self, i: usize) -> (item: &T)
        requires
            i < self.order().len(),
        ensures
            item@ == self.order()[i as int],
            self@.contains(item@),
    {
        assert(self.order().contains(self.order()[i as int]));
        &self.items[i]
    }

    /// Whether the set has a member with the view of `item`.
    pub fn contains(&self, item: &T) -> (found: bool)
        ensures
            found == self@.contains(item@),
    {
        let mut i: usize = 0;
        while i < self.items.len()
            invariant
                i <= self.items.len(),
                forall|j: int| 0 <= j < i ==> self.order()[j] != item@,
            decreases self.items.len() - i,
        {
            if self.items[i].same(item) {
                assert(self.order()[i as int] == item@);
                return true;
            }
            i = i + 1;
        }
        false
    }

    /// Adds `item`; says whether it was new.
    pub fn insert(&mut self, item: T) -> (added: bool)
        ensures
            final(self)@ == old(self)@.insert(item@),
            added == !old(self)@.contains(item@),
    {
        proof {
            use_type_invariant(&*self);
        }
        if self.contains(&item) {
            assert(self@ =~= old(self)@.insert(item@));
            return false;
        }
        let ghost before = self.order();
        let mut items: Vec<T> = Vec::new();
        std::mem::swap(&mut items, &mut self.items);
        let ghost value = item@;
        items.push(item);
        assert(items@.map_values(|t: T| t@) =~= before.push(value));
        proof {
            assert forall|v: T::V| #[trigger] before.push(value).to_set().contains(v) <==> before.to_set().insert(
                value,
            ).contains(v) by {
                if before.contains(v) {
                    let j = choose|j: int| 0 <= j < before.len() && before[j] == v;
                    assert(before.push(value)[j] == v);
                }
                if v == value {
                    assert(before.push(value)[before.len() as int] == v);
                }
            }
            assert(before.push(value).to_set() =~= before.to_set().insert(value));
            assert(before.push(value).no_duplicates()) by {
                assert(!before.contains(value));
            }
        }
        self.items = items;
        true
    }
}

/// A finite map.
pub struct VecMap<K: Key, V: View> {
    entries: Vec<(K, V)>,
}

impl<K: Key, V: View> VecMap<K, V> {
    /// The keys in the order in which they are walked.
    pub closed spec fn order(&self) -> Seq<K::V> {
        self.entries@.map_values(|e: (K, V)| e.0@)
    }

    /// The values in the order of their keys.
    pub closed spec fn values(&self) -> Seq<V::V> {
        self.entries@.map_values(|e: (K, V)| e.1@)
    }

    #[verifier::type_invariant]
    closed spec fn distinct(&self) -> bool {
        self.order().no_duplicates()
    }
}

/// The map that sends `keys[i]` to `values[i]`.
pub open spec fn zipped<A, B>(keys: Seq<A>, values: Seq<B>) -> Map<A, B> {
    Map::new(|k: A| keys.contains(k), |k: A| values[keys.index_of(k)])
}

impl<K: Key, V: View> View for VecMap<K, V> {
    type V = Map<K::V, V::V>;

    open spec fn view(&self) -> Map<K::V, V::V> {
        zipped(self.order(), self.values())
    }
}

/// Where the keys are distinct, the key at a position leads to the value there.
proof fn lemma_zipped_at<A, B>(keys: Seq<A>, values: Seq<B>, i: int)
    requires
        keys.no_duplicates(),
        keys.len() == values.len(),
        0 <= i < keys.len(),
    ensures
        zipped(keys, values).contains_key(keys[i]),
        zipped(keys, values)[keys[i]] == values[i],
{
    assert(keys.contains(keys[i]));
    assert(keys.index_of(keys[i]) == i);
}

proof fn lemma_zipped_push<A, B>(keys: Seq<A>, values: Seq<B>, k: A, v: B)
    requires
        keys.no_duplicates(),
        keys.len() == values.len(),
        !keys.contains(k),
    ensures
        keys.push(k).no_duplicates(),
        zipped(keys.push(k), values.push(v)) == zipped(keys, values).insert(k, v),
{
    let keys2 = keys.push(k);
    let values2 = values.push(v);
    assert(keys2.no_duplicates());
    assert forall|x: A| #[trigger] zipped(keys2, values2).dom().contains(x) <==> zipped(
        keys,
        values,
    ).insert(k, v).dom().contains(x) by {
        if keys.contains(x) {
            let j = choose|j: int| 0 <= j < keys.len() && keys[j] == x;
            assert(keys2[j] == x);
        }
        if x == k {
            assert(keys2[keys.len() as int] == x);
        }
    }
    assert forall|x: A| #[trigger] zipped(keys2, values2).dom().contains(x) implies zipped(
        keys2,
        values2,
    )[x] == zipped(keys, values).insert(k, v)[x] by {
        let j = choose|j: int| 0 <= j < keys2.len() && keys2[j] == x;
        lemma_zipped_at(keys2, values2, j);
        if x != k {
            assert(keys[j] == x);
            lemma_zipped_at(keys, values, j);
        }
    }
    assert(zipped(keys2, values2) =~= zipped(keys, values).insert(k, v));
}

proof fn lemma_zipped_update<A, B>(keys: Seq<A>, values: Seq<B>, i: int, v: B)
    requires
        keys.no_duplicates(),
        keys.len() == values.len(),
        0 <= i < keys.len(),
    ensures
        zipped(keys, values.update(i, v)) == zipped(keys, values).insert(keys[i], v),
{
    let values2 = values.update(i, v);
    assert(keys.contains(keys[i]));
    assert forall|x: A| #[trigger] zipped(keys, values2).dom().contains(x) implies zipped(
        keys,
        values2,
    )[x] == zipped(keys, values).insert(keys[i], v)[x] by {
        let j = choose|j: int| 0 <= j < keys.len() && keys[j] == x;
        lemma_zipped_at(keys, values2, j);
        lemma_zipped_at(keys, values, j);
    }
    assert(zipped(keys, values2) =~= zipped(keys, values).insert(keys[i], v));
}

proof fn lemma_zipped_remove<A, B>(keys: Seq<A>, values: Seq<B>, i: int)
    requires
        keys.no_duplicates(),
        keys.len() == values.len(),
        0 <= i < keys.len(),
    ensures
        keys.remove(i).no_duplicates(),
        zipped(keys.remove(i), values.remove(i)) == zipped(keys, values).remove(keys[i]),
{
    let keys2 = keys.remove(i);
    let values2 = values.remove(i);
    assert forall|x: A| #[trigger] zipped(keys2, values2).dom().contains(x) <==> zipped(
        keys,
        values,
    ).remove(keys[i]).dom().contains(x) by {
        if keys.contains(x) && x != keys[i] {
            let j = choose|j: int| 0 <= j < keys.len() && keys[j] == x;
            if j < i {
                assert(keys2[j] == x);
            } else {
                assert(keys2[j - 1] == x);
            }
        }
        if keys2.contains(x) {
            let j = choose|j: int| 0 <= j < keys2.len() && keys2[j] == x;
            let j0 = if j < i { j } else { j + 1 };
            assert(keys[j0] == x);
        }
    }
    assert forall|x: A| #[trigger] zipped(keys2, values2).dom().contains(x) implies zipped(
        keys2,
        values2,
    )[x] == zipped(keys, values).remove(keys[i])[x] by {
        let j = choose|j: int| 0 <= j < keys2.len() && keys2[j] == x;
        let j0 = if j < i { j } else { j + 1 };
        assert(keys[j0] == x);
        lemma_zipped_at(keys2, values2, j);
        lemma_zipped_at(keys, values, j0);
    }
    assert(zipped(keys2, values2) =~= zipped(keys, values).remove(keys[i]));
}

impl<K: Key, V: View> VecMap<K, V> {
    /// The empty map.
    pub fn new() -> (map: Self)
        ensures
            map@ == Map::<K::V, V::V>::empty(),
            map.order() == Seq::<K::V>::empty(),
            map.order().no_duplicates(),
    {
        let map = VecMap { entries: Vec::new() };
        assert(map.order() =~= Seq::<K::V>::empty());
        assert(map@ =~= Map::<K::V, V::V>::empty());
        map
    }

    /// The number of keys.
    pub fn len(&self) -> (n: usize)
        ensures
            n == self@.len(),
            n == self.order().len(),
            self.order().no_duplicates(),
    {
        proof {
            use_type_invariant(self);
            self.order().unique_seq_to_set();
            assert(self@.dom() =~= self.order().to_set());
        }
        self.entries.len()
    }

    /// The key at position `i` of the walk.
    pub fn key_at(&self, i: usize) -> (key: &K)
        requires
            i < self.order().len(),
        ensures
            key@ == self.order()[i as int],
            self@.contains_key(key@),
    {
        assert(self.order().contains(self.order()[i as int]));
        &self.entries[i].0
    }

    /// The value at position `i` of the walk.
    pub fn value_at(&self, i: usize) -> (value: &V)
        requires
            i < self.order().len(),
        ensures
            value@ == self@[self.order()[i as int]],
            self@.contains_key(self.order()[i as int]),
    {
        proof {
            use_type_invariant(self);
            lemma_zipped_at(self.order(), self.values(), i as int);
        }
        &self.entries[i].1
    }

    /// The position of `key`, if the map has it.
    fn position(&self, key: &K) -> (position: Option<usize>)
        ensures
            match position {
                Some(i) => i < self.entries.len() && self.order()[i as int] == key@,
                None => !self@.contains_key(key@),
            },
    {
        let mut i: usize = 0;
        while i < self.entries.len()
            invariant
                i <= self.entries.len(),
                forall|j: int| 0 <= j < i ==> self.order()[j] != key@,
            decreases self.entries.len() - i,
        {
            if self.entries[i].0.same(key) {
                return Some(i);
            }
            i = i + 1;
        }
        None
    }

    /// Whether the map has a value at `key`.
    pub fn contains_key(&self, key: &K) -> (found: bool)
        ensures
            found == self@.contains_key(key@),
    {
        match self.position(key) {
            Some(i) => {
                assert(self.order().contains(self.order()[i as int]));
                true
            },
            None => false,
        }
    }

    /// The value at `key`, if there is one.
    pub fn get(&self, key: &K) -> (value: Option<&V>)
        ensures
            match value {
                Some(v) => self@.contains_key(key@) && v@ == self@[key@],
                None => !self@.contains_key(key@),
            },
    {
        match self.position(key) {
            Some(i) => {
                proof {
                    use_type_invariant(self);
                    lemma_zipped_at(self.order(), self.values(), i as int);
                }
                Some(&self.entries[i].1)
            },
            None => None,
        }
    }

    /// Sets the value at `key`; returns the value that it replaces.
    pub fn insert(&mut self, key: K, value: V) -> (replaced: Option<V>)
        ensures
            final(self)@ == old(self)@.insert(key@, value@),
            final(self).order().no_duplicates(),
            match replaced {
                Some(v) => old(self)@.contains_key(key@) && v@ == old(self)@[key@],
                None => !old(self)@.contains_key(key@),
            },
    {
        proof {
            use_type_invariant(&*self);
        }
        let ghost keys = self.order();
        let ghost values = self.values();
        let ghost k = key@;
        let ghost v = value@;
        let found = self.position(&key);
        let mut entries: Vec<(K, V)> = Vec::new();
        std::mem::swap(&mut entries, &mut self.entries);
        match found {
            Some(i) => {
                let ghost e = entries@;
                proof {
                    lemma_zipped_at(keys, values, i as int);
                    lemma_zipped_update(keys, values, i as int, v);
                }
                entries.push((key, value));
                let replaced = entries.swap_remove(i);
                assert(entries@.map_values(|e: (K, V)| e.0@) =~= keys);
                assert(entries@.map_values(|e: (K, V)| e.1@) =~= values.update(i as int, v));
                self.entries = entries;
                Some(replaced.1)
            },
            None => {
                proof {
                    lemma_zipped_push(keys, values, k, v);
                }
                entries.push((key, value));
                assert(entries@.map_values(|e: (K, V)| e.0@) =~= keys.push(k));
                assert(entries@.map_values(|e: (K, V)| e.1@) =~= values.push(v));
                self.entries = entries;
                None
            },
        }
    }

    /// Removes `key`; returns the value that stood there.
    pub fn remove(&mut self, key: &K) -> (removed: Option<V>)
        ensures
            final(self)@ == old(self)@.remove(key@),
            match removed {
                Some(v) => old(self)@.contains_key(key@) && v@ == old(self)@[key@],
                None => !old(self)@.contains_key(key@),
            },
    {
        proof {
            use_type_invariant(&*self);
        }
        let ghost keys = self.order();
        let ghost values = self.values();
        match self.position(key) {
            Some(i) => {
                proof {
                    lemma_zipped_at(keys, values, i as int);
                    lemma_zipped_remove(keys, values, i as int);
                }
                let mut entries: Vec<(K, V)> = Vec::new();
                std::mem::swap(&mut entries, &mut self.entries);
                let removed = entries.remove(i);
                assert(entries@.map_values(|e: (K, V)| e.0@) =~= keys.remove(i as int));
                assert(entries@.map_values(|e: (K, V)| e.1@) =~= values.remove(i as int));
                self.entries = entries;
                Some(removed.1)
            },
            None => {
                assert(old(self)@.remove(key@) =~= old(self)@);
                None
            },
        }
    }
}

} // verus!
