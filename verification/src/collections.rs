//! Small association lists keyed by values that are compared through their
//! views. They keep insertion order, hold every key at most once, and are
//! meant for the modest sizes a viewer works with.

use vstd::prelude::*;

verus! {

/// A key whose identity is its view.
pub trait Key: View + Sized {
    /// Tells whether two keys have the same view.
    fn same(&self, other: &Self) -> (r: bool)
        ensures
            r == (self@ == other@),
    ;

    /// A copy with the same view.
    fn duplicate(&self) -> (r: Self)
        ensures
            r@ == self@,
    ;
}

/// No two keys of the sequence have the same view.
pub open spec fn distinct_keys<K: Key>(keys: Seq<K>) -> bool {
    forall|i: int, j: int| 0 <= i < j < keys.len() ==> (#[trigger] keys[i])@ != (#[trigger] keys[j])@
}

/// Some key of the sequence has view `k`.
pub open spec fn has_key<K: Key>(keys: Seq<K>, k: K::V) -> bool {
    exists|i: int| 0 <= i < keys.len() && (#[trigger] keys[i])@ == k
}

/// The position of the key with view `k`, if `has_key(keys, k)`.
pub open spec fn position_of<K: Key>(keys: Seq<K>, k: K::V) -> int {
    choose|i: int| 0 <= i < keys.len() && (#[trigger] keys[i])@ == k
}

/// The set of views of a sequence of keys.
pub open spec fn key_set<K: Key>(keys: Seq<K>) -> Set<K::V> {
    Set::new(|k: K::V| has_key(keys, k))
}

/// In a sequence of distinct keys a view determines its position.
pub proof fn lemma_position_unique<K: Key>(keys: Seq<K>, i: int)
    requires
        distinct_keys(keys),
        0 <= i < keys.len(),
    ensures
        has_key(keys, keys[i]@),
        position_of(keys, keys[i]@) == i,
{
    let k = keys[i]@;
    let j = position_of(keys, k);
    assert(0 <= j < keys.len() && keys[j]@ == k);
    if j < i {
        assert(keys[j]@ != keys[i]@);
    } else if i < j {
        assert(keys[i]@ != keys[j]@);
    }
}

/// The set of views of distinct keys is finite and as large as the sequence.
pub proof fn lemma_key_set_len<K: Key>(keys: Seq<K>)
    requires
        distinct_keys(keys),
    ensures
        key_set(keys).finite(),
        key_set(keys).len() == keys.len(),
    decreases keys.len(),
{
    if keys.len() == 0 {
        assert(key_set(keys) =~= Set::<K::V>::empty());
    } else {
        let init = keys.drop_last();
        let last = keys.last();
        assert(distinct_keys(init)) by {
            assert forall|i: int, j: int| 0 <= i < j < init.len() implies (#[trigger] init[i])@ != (#[trigger] init[j])@ by {
                assert(keys[i]@ != keys[j]@);
            }
        }
        lemma_key_set_len(init);
        assert(!key_set(init).contains(last@)) by {
            if has_key(init, last@) {
                let i = position_of(init, last@);
                assert(keys[i]@ != keys[keys.len() - 1]@);
            }
        }
        assert(key_set(keys) =~= key_set(init).insert(last@)) by {
            assert forall|k: K::V| key_set(keys).contains(k) <==> key_set(init).insert(last@).contains(k) by {
                if has_key(keys, k) {
                    let i = position_of(keys, k);
                    if i < init.len() {
                        assert(init[i]@ == k);
                    }
                }
                if has_key(init, k) {
                    let i = position_of(init, k);
                    assert(keys[i]@ == k);
                }
                if k == last@ {
                    assert(keys[keys.len() - 1]@ == k);
                }
            }
        }
    }
}

/// A map from keys to values, kept as a list of distinct keys.
pub struct VecMap<K: Key, V> {
    keys: Vec<K>,
    vals: Vec<V>,
}

impl<K: Key, V> View for VecMap<K, V> {
    type V = Map<K::V, V>;

    open spec fn view(&self) -> Map<K::V, V> {
        Map::new(
            |k: K::V| has_key(self.keys(), k),
            |k: K::V| self.vals()[position_of(self.keys(), k)],
        )
    }
}

impl<K: Key, V> VecMap<K, V> {
    /// The keys, in the order in which they were first inserted.
    pub closed spec fn keys(&self) -> Seq<K> {
        self.keys@
    }

    /// The values, each at the position of its key.
    pub closed spec fn vals(&self) -> Seq<V> {
        self.vals@
    }

    /// Every key occurs once and has a value.
    pub open spec fn wf(&self) -> bool {
        &&& self.keys().len() == self.vals().len()
        &&& distinct_keys(self.keys())
    }

    /// The value at a position is the value of the key at that position.
    pub proof fn lemma_entry(&self, i: int)
        requires
            self.wf(),
            0 <= i < self.keys().len(),
        ensures
            self@.contains_key(self.keys()[i]@),
            self@[self.keys()[i]@] == self.vals()[i],
    {
        lemma_position_unique(self.keys(), i);
    }

    /// The map has as many entries as the list has keys.
    pub proof fn lemma_len(&self)
        requires
            self.wf(),
        ensures
            self@.dom().finite(),
            self@.len() == self.keys().len(),
            self.keys().len() <= usize::MAX,
    {
        lemma_key_set_len(self.keys());
        assert(self@.dom() =~= key_set(self.keys()));
        assert(self.keys.len() == self.keys@.len());
    }

    /// An empty map.
    pub fn new() -> (m: Self)
        ensures
            m.wf(),
            m.keys().len() == 0,
            m@ == Map::<K::V, V>::empty(),
    {
        let m = VecMap { keys: Vec::new(), vals: Vec::new() };
        assert(m@ =~= Map::<K::V, V>::empty());
        m
    }

    /// The number of entries.
    pub fn len(&self) -> (n: usize)
        requires
            self.wf(),
        ensures
            n == self.keys().len(),
            n == self@.len(),
    {
        proof {
            self.lemma_len();
        }
        self.keys.len()
    }

    /// The position of a key, if the map holds it.
    pub fn find(&self, k: &K) -> (r: Option<usize>)
        requires
            self.wf(),
        ensures
            match r {
                Some(i) => i < self.keys().len() && self.keys()[i as int]@ == k@
                    && self@.contains_key(k@) && self@[k@] == self.vals()[i as int],
                None => !self@.contains_key(k@) && !has_key(self.keys(), k@),
            },
    {
        let mut i: usize = 0;
        while i < self.keys.len()
            invariant
                self.wf(),
                i <= self.keys.len(),
                forall|j: int| 0 <= j < i ==> (#[trigger] self.keys@[j])@ != k@,
            decreases self.keys.len() - i,
        {
            if self.keys[i].same(k) {
                proof {
                    self.lemma_entry(i as int);
                }
                return Some(i);
            }
            i += 1;
        }
        None
    }

    /// Whether the map holds a key.
    pub fn contains_key(&self, k: &K) -> (r: bool)
        requires
            self.wf(),
        ensures
            r == self@.contains_key(k@),
    {
        self.find(k).is_some()
    }

    /// The value of a key.
    pub fn get(&self, k: &K) -> (r: Option<&V>)
        requires
            self.wf(),
        ensures
            match r {
                Some(v) => self@.contains_key(k@) && *v == self@[k@],
                None => !self@.contains_key(k@),
            },
    {
        match self.find(k) {
            Some(i) => Some(&self.vals[i]),
            None => None,
        }
    }

    /// The key at a position.
    pub fn key_at(&self, i: usize) -> (k: &K)
        requires
            self.wf(),
            i < self.keys().len(),
        ensures
            *k == self.keys()[i as int],
            self@.contains_key(k@),
            self@[k@] == self.vals()[i as int],
    {
        proof {
            self.lemma_entry(i as int);
        }
        &self.keys[i]
    }

    /// The value at a position.
    pub fn val_at(&self, i: usize) -> (v: &V)
        requires
            self.wf(),
            i < self.keys().len(),
        ensures
            *v == self.vals()[i as int],
            self@.contains_key(self.keys()[i as int]@),
            self@[self.keys()[i as int]@] == *v,
    {
        proof {
            self.lemma_entry(i as int);
        }
        &self.vals[i]
    }

    /// A map that differs from another in the value at one position maps
    /// the key at that position to the new value and is otherwise the same.
    pub proof fn lemma_changed_at(pre: Self, post: Self, i: int)
        requires
            pre.wf(),
            0 <= i < pre.keys().len(),
            post.keys() == pre.keys(),
            post.vals() == pre.vals().update(i, post.vals()[i]),
        ensures
            post.wf(),
            post@ == pre@.insert(pre.keys()[i]@, post.vals()[i]),
    {
        lemma_position_unique(pre.keys(), i);
        assert(post@ =~= pre@.insert(pre.keys()[i]@, post.vals()[i])) by {
            assert forall|k: K::V| has_key(post.keys(), k) && k != pre.keys()[i]@ implies post.vals()[position_of(
                post.keys(),
                k,
            )] == pre.vals()[position_of(pre.keys(), k)] by {
                let p = position_of(post.keys(), k);
                assert(post.keys()[p]@ == k);
                assert(p != i);
            }
        }
    }

    /// Replaces the value at a position.
    pub fn set_at(&mut self, i: usize, v: V)
        requires
            old(self).wf(),
            i < old(self).keys().len(),
        ensures
            final(self).wf(),
            final(self).keys() == old(self).keys(),
            final(self).vals() == old(self).vals().update(i as int, v),
            final(self)@ == old(self)@.insert(old(self).keys()[i as int]@, v),
    {
        self.vals[i] = v;
        proof {
            Self::lemma_changed_at(*old(self), *self, i as int);
        }
    }

    /// Hands out the value at a position for change in place. What the map
    /// holds afterwards is stated by `lemma_changed_at`.
    pub fn val_at_mut(&mut self, i: usize) -> (v: &mut V)
        requires
            old(self).wf(),
            i < old(self).keys().len(),
        ensures
            *v == old(self).vals()[i as int],
            final(self).keys() == old(self).keys(),
            final(self).vals() == old(self).vals().update(i as int, *final(v)),
    {
        &mut self.vals[i]
    }

    /// Sets the value of a key, adding the key at the end if it is new.
    /// Returns whether the key was new.
    pub fn insert(&mut self, k: K, v: V) -> (added: bool)
        requires
            old(self).wf(),
        ensures
            final(self).wf(),
            final(self)@ == old(self)@.insert(k@, v),
            added == !old(self)@.contains_key(k@),
            added ==> final(self).keys() == old(self).keys().push(k) && final(self).vals() == old(
                self,
            ).vals().push(v),
            !added ==> final(self).keys() == old(self).keys() && final(self).vals() == old(
                self,
            ).vals().update(position_of(old(self).keys(), k@), v),
    {
        match self.find(&k) {
            Some(i) => {
                proof {
                    lemma_position_unique(self.keys(), i as int);
                }
                self.set_at(i, v);
                false
            },
            None => {
                self.keys.push(k);
                self.vals.push(v);
                proof {
                    let o = *old(self);
                    let n = o.keys().len() as int;
                    assert(distinct_keys(self.keys())) by {
                        assert forall|i: int, j: int| 0 <= i < j < self.keys().len() implies (
                        #[trigger] self.keys()[i])@ != (#[trigger] self.keys()[j])@ by {
                            if j < n {
                                assert(o.keys()[i]@ != o.keys()[j]@);
                            } else {
                                assert(o.keys()[i]@ != k@);
                            }
                        }
                    }
                    lemma_position_unique(self.keys(), n);
                    assert(self@ =~= o@.insert(k@, v)) by {
                        assert forall|q: K::V| self@.contains_key(q) <==> o@.insert(k@, v).contains_key(q) by {
                            if has_key(self.keys(), q) {
                                let p = position_of(self.keys(), q);
                                if p < n {
                                    assert(o.keys()[p]@ == q);
                                }
                            }
                            if has_key(o.keys(), q) {
                                let p = position_of(o.keys(), q);
                                assert(self.keys()[p]@ == q);
                            }
                            if q == k@ {
                                assert(self.keys()[n]@ == q);
                            }
                        }
                        assert forall|q: K::V| self@.contains_key(q) implies self@[q] == o@.insert(k@, v)[q] by {
                            let p = position_of(self.keys(), q);
                            assert(self.keys()[p]@ == q);
                            if p < n {
                                assert(o.keys()[p]@ == q);
                                lemma_position_unique(o.keys(), p);
                            }
                        }
                    }
                }
                true
            },
        }
    }

    /// Takes out the entry at a position; later entries move up by one.
    pub fn remove_at(&mut self, i: usize) -> (entry: (K, V))
        requires
            old(self).wf(),
            i < old(self).keys().len(),
        ensures
            final(self).wf(),
            entry.0 == old(self).keys()[i as int],
            entry.1 == old(self).vals()[i as int],
            final(self).keys() == old(self).keys().remove(i as int),
            final(self).vals() == old(self).vals().remove(i as int),
            final(self)@ == old(self)@.remove(entry.0@),
    {
        let k = self.keys.remove(i);
        let v = self.vals.remove(i);
        proof {
            let o = *old(self);
            assert(distinct_keys(self.keys())) by {
                assert forall|a: int, b: int| 0 <= a < b < self.keys().len() implies (
                #[trigger] self.keys()[a])@ != (#[trigger] self.keys()[b])@ by {
                    let from_a = if a < i { a } else { a + 1 };
                    let from_b = if b < i { b } else { b + 1 };
                    assert(o.keys()[from_a]@ != o.keys()[from_b]@);
                }
            }
            assert(self@ =~= o@.remove(k@)) by {
                assert forall|q: K::V| self@.contains_key(q) <==> o@.remove(k@).contains_key(q) by {
                    if has_key(self.keys(), q) {
                        let p = position_of(self.keys(), q);
                        let shifted = if p < i { p } else { p + 1 };
                        assert(o.keys()[shifted]@ == q);
                        if shifted < i {
                            assert(o.keys()[shifted]@ != o.keys()[i as int]@);
                        } else {
                            assert(o.keys()[i as int]@ != o.keys()[shifted]@);
                        }
                    }
                    if has_key(o.keys(), q) && q != k@ {
                        let p = position_of(o.keys(), q);
                        let shifted = if p < i { p } else { p - 1 };
                        assert(self.keys()[shifted]@ == q);
                    }
                }
                assert forall|q: K::V| self@.contains_key(q) implies self@[q] == o@.remove(k@)[q] by {
                    let p = position_of(self.keys(), q);
                    assert(self.keys()[p]@ == q);
                    let shifted = if p < i { p } else { p + 1 };
                    assert(o.keys()[shifted]@ == q);
                    lemma_position_unique(o.keys(), shifted);
                }
            }
        }
        (k, v)
    }

    /// Removes a key and returns its value, if the map held it.
    pub fn remove(&mut self, k: &K) -> (r: Option<V>)
        requires
            old(self).wf(),
        ensures
            final(self).wf(),
            final(self)@ == old(self)@.remove(k@),
            match r {
                Some(v) => old(self)@.contains_key(k@) && v == old(self)@[k@],
                None => !old(self)@.contains_key(k@),
            },
    {
        match self.find(k) {
            Some(i) => {
                let entry = self.remove_at(i);
                Some(entry.1)
            },
            None => {
                assert(self@ =~= self@.remove(k@));
                None
            },
        }
    }

    /// The keys of the map are the views of its list of keys.
    pub proof fn lemma_keys(&self)
        requires
            self.wf(),
        ensures
            self@.dom() == key_set(self.keys()),
    {
        assert(self@.dom() =~= key_set(self.keys()));
    }

    /// Removes every entry.
    pub fn clear(&mut self)
        ensures
            final(self).wf(),
            final(self).keys().len() == 0,
            final(self)@ == Map::<K::V, V>::empty(),
    {
        self.keys.clear();
        self.vals.clear();
        assert(self@ =~= Map::<K::V, V>::empty());
    }
}

impl Key for String {
    fn same(&self, other: &Self) -> (r: bool) {
        *self == *other
    }

    fn duplicate(&self) -> (r: Self) {
        self.clone()
    }
}

impl Key for u32 {
    fn same(&self, other: &Self) -> (r: bool) {
        *self == *other
    }

    fn duplicate(&self) -> (r: Self) {
        *self
    }
}

/// A set of keys, kept as a list of distinct keys.
pub struct VecSet<K: Key> {
    items: Vec<K>,
}

impl<K: Key> View for VecSet<K> {
    type V = Set<K::V>;

    open spec fn view(&self) -> Set<K::V> {
        key_set(self.items())
    }
}

impl<K: Key> VecSet<K> {
    /// The members, in the order in which they were inserted.
    pub closed spec fn items(&self) -> Seq<K> {
        self.items@
    }

    /// Every member occurs once.
    pub open spec fn wf(&self) -> bool {
        distinct_keys(self.items())
    }

    /// The set is finite and as large as the list.
    pub proof fn lemma_len(&self)
        requires
            self.wf(),
        ensures
            self@.finite(),
            self@.len() == self.items().len(),
            self.items().len() <= usize::MAX,
    {
        lemma_key_set_len(self.items());
        assert(self.items.len() == self.items@.len());
    }

    /// An empty set.
    pub fn new() -> (s: Self)
        ensures
            s.wf(),
            s.items().len() == 0,
            s@ == Set::<K::V>::empty(),
    {
        let s = VecSet { items: Vec::new() };
        assert(s@ =~= Set::<K::V>::empty());
        s
    }

    /// The number of members.
    pub fn len(&self) -> (n: usize)
        requires
            self.wf(),
        ensures
            n == self.items().len(),
            n == self@.len(),
    {
        proof {
            self.lemma_len();
        }
        self.items.len()
    }

    /// The position of a member, if the set holds it.
    pub fn find(&self, k: &K) -> (r: Option<usize>)
        ensures
            match r {
                Some(i) => i < self.items().len() && self.items()[i as int]@ == k@ && self@.contains(k@),
                None => !self@.contains(k@),
            },
    {
        let mut i: usize = 0;
        while i < self.items.len()
            invariant
                i <= self.items.len(),
                forall|j: int| 0 <= j < i ==> (#[trigger] self.items@[j])@ != k@,
            decreases self.items.len() - i,
        {
            if self.items[i].same(k) {
                return Some(i);
            }
            i += 1;
        }
        None
    }

    /// Whether the set holds a key.
    pub fn contains(&self, k: &K) -> (r: bool)
        ensures
            r == self@.contains(k@),
    {
        self.find(k).is_some()
    }

    /// The member at a position.
    pub fn item_at(&self, i: usize) -> (k: &K)
        requires
            i < self.items().len(),
        ensures
            *k == self.items()[i as int],
            self@.contains(k@),
    {
        &self.items[i]
    }

    /// Adds a key at the end unless the set holds it. Returns whether it was added.
    pub fn insert(&mut self, k: K) -> (added: bool)
        requires
            old(self).wf(),
        ensures
            final(self).wf(),
            final(self)@ == old(self)@.insert(k@),
            added == !old(self)@.contains(k@),
            added ==> final(self).items() == old(self).items().push(k),
            !added ==> final(self).items() == old(self).items(),
    {
        if self.contains(&k) {
            assert(self@ =~= self@.insert(k@));
            false
        } else {
            self.items.push(k);
            proof {
                let o = *old(self);
                let n = o.items().len() as int;
                assert forall|i: int, j: int| 0 <= i < j < self.items().len() implies (
                #[trigger] self.items()[i])@ != (#[trigger] self.items()[j])@ by {
                    if j < n {
                        assert(o.items()[i]@ != o.items()[j]@);
                    } else {
                        assert(o.items()[i]@ != k@);
                    }
                }
                assert(self@ =~= o@.insert(k@)) by {
                    assert forall|q: K::V| self@.contains(q) <==> o@.insert(k@).contains(q) by {
                        if has_key(self.items(), q) {
                            let p = position_of(self.items(), q);
                            if p < n {
                                assert(o.items()[p]@ == q);
                            }
                        }
                        if has_key(o.items(), q) {
                            let p = position_of(o.items(), q);
                            assert(self.items()[p]@ == q);
                        }
                        if q == k@ {
                            assert(self.items()[n]@ == q);
                        }
                    }
                }
            }
            true
        }
    }

    /// Takes out the member at a position; later members move up by one.
    pub fn remove_at(&mut self, i: usize) -> (k: K)
        requires
            old(self).wf(),
            i < old(self).items().len(),
        ensures
            final(self).wf(),
            k == old(self).items()[i as int],
            final(self).items() == old(self).items().remove(i as int),
            final(self)@ == old(self)@.remove(k@),
    {
        let k = self.items.remove(i);
        proof {
            let o = *old(self);
            assert forall|a: int, b: int| 0 <= a < b < self.items().len() implies (
            #[trigger] self.items()[a])@ != (#[trigger] self.items()[b])@ by {
                let from_a = if a < i { a } else { a + 1 };
                let from_b = if b < i { b } else { b + 1 };
                assert(o.items()[from_a]@ != o.items()[from_b]@);
            }
            assert(self@ =~= o@.remove(k@)) by {
                assert forall|q: K::V| self@.contains(q) <==> o@.remove(k@).contains(q) by {
                    if has_key(self.items(), q) {
                        let p = position_of(self.items(), q);
                        let shifted = if p < i { p } else { p + 1 };
                        assert(o.items()[shifted]@ == q);
                        if shifted < i {
                            assert(o.items()[shifted]@ != o.items()[i as int]@);
                        } else {
                            assert(o.items()[i as int]@ != o.items()[shifted]@);
                        }
                    }
                    if has_key(o.items(), q) && q != k@ {
                        let p = position_of(o.items(), q);
                        let shifted = if p < i { p } else { p - 1 };
                        assert(self.items()[shifted]@ == q);
                    }
                }
            }
        }
        k
    }

    /// Removes a key. Returns whether the set held it.
    pub fn remove(&mut self, k: &K) -> (removed: bool)
        requires
            old(self).wf(),
        ensures
            final(self).wf(),
            final(self)@ == old(self)@.remove(k@),
            removed == old(self)@.contains(k@),
    {
        match self.find(k) {
            Some(i) => {
                let _ = self.remove_at(i);
                true
            },
            None => {
                assert(self@ =~= self@.remove(k@));
                false
            },
        }
    }

    /// Removes every member.
    pub fn clear(&mut self)
        ensures
            final(self).wf(),
            final(self).items().len() == 0,
            final(self)@ == Set::<K::V>::empty(),
    {
        self.items.clear();
        assert(self@ =~= Set::<K::V>::empty());
    }
}

} // verus!
