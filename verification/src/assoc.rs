//! A map kept in insertion order.

use vstd::prelude::*;

verus! {

/// A key that can be compared for equality by value.
pub trait Key: Copy {
    fn same(&self, other: &Self) -> (r: bool)
        ensures
            r == (*self == *other),
    ;
}

impl Key for u64 {
    fn same(&self, other: &Self) -> (r: bool) {
        *self == *other
    }
}

impl Key for u128 {
    fn same(&self, other: &Self) -> (r: bool) {
        *self == *other
    }
}

/// An association of values to keys, no key occurring twice. Keys are walked
/// in the order in which they were first inserted.
pub struct AssocMap<K: Key, V> {
    entries: Vec<(K, V)>,
}

/// Whether `keys` holds `k`.
pub open spec fn holds<K>(keys: Seq<K>, k: K) -> bool {
    exists|i: int| 0 <= i < keys.len() && #[trigger] keys[i] == k
}

/// `keys` without its (only) occurrence of `k`.
pub open spec fn without<K>(keys: Seq<K>, k: K) -> Seq<K> {
    if holds(keys, k) {
        keys.remove(choose|i: int| 0 <= i < keys.len() && #[trigger] keys[i] == k)
    } else {
        keys
    }
}

/// In a sequence without repetition, taking a key out is taking it from its
/// place.
pub proof fn lemma_without_at<K>(keys: Seq<K>, i: int)
    requires
        keys.no_duplicates(),
        0 <= i < keys.len(),
    ensures
        without(keys, keys[i]) == keys.remove(i),
{
    let k = keys[i];
    assert(holds(keys, k));
    let c = choose|c: int| 0 <= c < keys.len() && #[trigger] keys[c] == k;
    assert(0 <= c < keys.len() && keys[c] == k);
    assert(c == i);
}

/// The order of keys once `k` has been inserted.
pub open spec fn with_key<K>(keys: Seq<K>, k: K) -> Seq<K> {
    if holds(keys, k) {
        keys
    } else {
        keys.push(k)
    }
}

/// What the contents and the order of a map have to do with each other: each
/// key stands in the order once.
pub open spec fn listed<K, V>(contents: Map<K, V>, order: Seq<K>) -> bool {
    &&& contents.dom().finite()
    &&& contents.dom().len() == order.len()
    &&& order.no_duplicates()
    &&& forall|k: K| #[trigger] contents.dom().contains(k) <==> holds(order, k)
}

impl<K: Key, V> View for AssocMap<K, V> {
    type V = Map<K, V>;

    closed spec fn view(&self) -> Map<K, V> {
        Map::new(
            |k: K|
                exists|i: int|
                    0 <= i < self.entries@.len() && (#[trigger] self.entries@[i]).0 == k,
            |k: K| self.entries@[self.place(k)].1,
        )
    }
}

impl<K: Key, V> AssocMap<K, V> {
    /// The keys in the order in which they were first inserted.
    pub closed spec fn order(&self) -> Seq<K> {
        Seq::new(self.entries@.len(), |i: int| self.entries@[i].0)
    }

    /// The place of a key that is there.
    spec fn place(&self, k: K) -> int {
        choose|i: int| 0 <= i < self.entries@.len() && (#[trigger] self.entries@[i]).0 == k
    }

    #[verifier::type_invariant]
    spec fn distinct(&self) -> bool {
        forall|i: int, j: int|
            0 <= i < j < self.entries@.len() ==> (#[trigger] self.entries@[i]).0 != (
            #[trigger] self.entries@[j]).0
    }

    proof fn lemma_at(&self, i: int)
        requires
            self.distinct(),
            0 <= i < self.entries@.len(),
        ensures
            self@.dom().contains(self.entries@[i].0),
            self@[self.entries@[i].0] == self.entries@[i].1,
    {
        let k = self.entries@[i].0;
        let j = self.place(k);
        assert(0 <= j < self.entries@.len() && self.entries@[j].0 == k);
        assert(i == j);
    }

    pub fn new() -> (r: Self)
        ensures
            r@ == Map::<K, V>::empty(),
            r.order() == Seq::<K>::empty(),
    {
        let r = AssocMap { entries: Vec::new() };
        proof {
            assert(r@ =~= Map::<K, V>::empty());
            assert(r.order() =~= Seq::<K>::empty());
        }
        r
    }

    proof fn lemma_listed(&self)
        requires
            self.distinct(),
        ensures
            listed(self@, self.order()),
    {
        let o = self.order();
        assert forall|k: K| #[trigger] self@.dom().contains(k) <==> holds(o, k) by {
            if self@.dom().contains(k) {
                let i = self.place(k);
                assert(o[i] == k);
            }
            if holds(o, k) {
                let i = choose|i: int| 0 <= i < o.len() && #[trigger] o[i] == k;
                assert(self.entries@[i].0 == k);
            }
        }
        assert(o.no_duplicates());
        assert(self@.dom() =~= o.to_set()) by {
            assert forall|k: K| self@.dom().contains(k) <==> o.to_set().contains(k) by {
                assert(holds(o, k) <==> o.contains(k));
            }
        }
        o.unique_seq_to_set();
    }

    /// The number of keys. Each key stands in the order once.
    pub fn len(&self) -> (r: usize)
        ensures
            r == self.order().len(),
            r == self@.len(),
            listed(self@, self.order()),
    {
        proof {
            use_type_invariant(self);
            self.lemma_listed();
        }
        self.entries.len()
    }

    fn position(&self, k: &K) -> (r: Option<usize>)
        ensures
            match r {
                Some(i) => i < self.entries@.len() && self.entries@[i as int].0 == *k,
                None => forall|i: int|
                    0 <= i < self.entries@.len() ==> (#[trigger] self.entries@[i]).0 != *k,
            },
    {
        let mut i: usize = 0;
        while i < self.entries.len()
            invariant
                i <= self.entries@.len(),
                forall|j: int| 0 <= j < i ==> (#[trigger] self.entries@[j]).0 != *k,
            decreases self.entries@.len() - i,
        {
            if self.entries[i].0.same(k) {
                return Some(i);
            }
            i += 1;
        }
        None
    }

    pub fn contains_key(&self, k: &K) -> (r: bool)
        ensures
            r == self@.dom().contains(*k),
    {
        proof {
            use_type_invariant(self);
        }
        match self.position(k) {
            Some(i) => {
                proof {
                    self.lemma_at(i as int);
                }
                true
            },
            None => false,
        }
    }

    pub fn get(&self, k: &K) -> (r: Option<&V>)
        ensures
            match r {
                Some(v) => self@.dom().contains(*k) && *v == self@[*k],
                None => !self@.dom().contains(*k),
            },
    {
        proof {
            use_type_invariant(self);
        }
        match self.position(k) {
            Some(i) => {
                proof {
                    self.lemma_at(i as int);
                }
                Some(&self.entries[i].1)
            },
            None => None,
        }
    }

    /// The key at a place of the order.
    pub fn key_at(&self, i: usize) -> (r: K)
        requires
            i < self.order().len(),
        ensures
            r == self.order()[i as int],
            self@.dom().contains(r),
    {
        proof {
            use_type_invariant(self);
            self.lemma_at(i as int);
        }
        self.entries[i].0
    }

    /// The value of the key at a place of the order.
    pub fn value_at(&self, i: usize) -> (r: &V)
        requires
            i < self.order().len(),
        ensures
            self@.dom().contains(self.order()[i as int]),
            *r == self@[self.order()[i as int]],
    {
        proof {
            use_type_invariant(self);
            self.lemma_at(i as int);
        }
        &self.entries[i].1
    }

    /// Inserts or replaces; the value that was replaced is handed back.
    pub fn insert(&mut self, k: K, v: V) -> (r: Option<V>)
        ensures
            final(self)@ == old(self)@.insert(k, v),
            final(self).order() == with_key(old(self).order(), k),
            listed(final(self)@, final(self).order()),
            match r {
                Some(w) => old(self)@.dom().contains(k) && w == old(self)@[k],
                None => !old(self)@.dom().contains(k),
            },
    {
        proof {
            use_type_invariant(&*self);
            self.lemma_listed();
        }
        let found = self.position(&k);
        let mut entries = Vec::new();
        std::mem::swap(&mut entries, &mut self.entries);
        let ghost before = *old(self);
        let r = match found {
            Some(i) => {
                proof {
                    before.lemma_at(i as int);
                }
                entries.push((k, v));
                let w = entries.swap_remove(i);
                proof {
                    assert(entries@ =~= before.entries@.update(i as int, (k, v)));
                }
                Some(w.1)
            },
            None => {
                entries.push((k, v));
                None
            },
        };
        self.entries = entries;
        proof {
            let now = *self;
            assert(now.distinct());
            match found {
                Some(i) => {
                    assert(now.order() =~= before.order());
                    assert(before.order()[i as int] == k);
                },
                None => {
                    assert(now.order() =~= before.order().push(k));
                },
            }
            assert forall|q: K| #[trigger]
                now@.dom().contains(q) <==> before@.insert(k, v).dom().contains(q) by {
                match found {
                    Some(i) => {
                        if now@.dom().contains(q) {
                            let j = now.place(q);
                            assert(before.entries@[j].0 == q);
                        }
                        if before@.dom().contains(q) {
                            let j = before.place(q);
                            assert(now.entries@[j].0 == q);
                        }
                        assert(now.entries@[i as int].0 == k);
                    },
                    None => {
                        if now@.dom().contains(q) {
                            let j = now.place(q);
                            if j < before.entries@.len() {
                                assert(before.entries@[j].0 == q);
                            }
                        }
                        if before@.dom().contains(q) {
                            let j = before.place(q);
                            assert(now.entries@[j].0 == q);
                        }
                        assert(now.entries@[before.entries@.len() as int].0 == k);
                    },
                }
            }
            assert forall|q: K| #[trigger] now@.dom().contains(q) implies now@[q]
                == before@.insert(k, v)[q] by {
                let j = now.place(q);
                now.lemma_at(j);
                if q != k {
                    assert(j < before.entries@.len() && before.entries@[j] == now.entries@[j]);
                    before.lemma_at(j);
                } else {
                    assert(now.entries@[j].1 == v);
                }
            }
            assert(now@ =~= before@.insert(k, v));
            now.lemma_listed();
        }
        r
    }

    /// Removes the key; the value it had is handed back.
    pub fn remove(&mut self, k: &K) -> (r: Option<V>)
        ensures
            final(self)@ == old(self)@.remove(*k),
            final(self).order() == without(old(self).order(), *k),
            listed(final(self)@, final(self).order()),
            match r {
                Some(w) => old(self)@.dom().contains(*k) && w == old(self)@[*k],
                None => !old(self)@.dom().contains(*k),
            },
    {
        proof {
            use_type_invariant(&*self);
            self.lemma_listed();
        }
        match self.position(k) {
            Some(i) => {
                let ghost before = *self;
                let mut entries = Vec::new();
                std::mem::swap(&mut entries, &mut self.entries);
                let w = entries.remove(i);
                self.entries = entries;
                proof {
                    let now = *self;
                    let o = before.order();
                    before.lemma_at(i as int);
                    assert(o[i as int] == *k);
                    let c = choose|c: int| 0 <= c < o.len() && #[trigger] o[c] == *k;
                    assert(c == i);
                    assert(now.order() =~= o.remove(i as int));
                    assert forall|q: K| #[trigger]
                        now@.dom().contains(q) <==> before@.remove(*k).dom().contains(q) by {
                        if now@.dom().contains(q) {
                            let j = now.place(q);
                            let b = if j < i { j } else { j + 1 };
                            assert(before.entries@[b].0 == q);
                        }
                        if before@.dom().contains(q) && q != *k {
                            let j = before.place(q);
                            let b = if j < i { j } else { j - 1 };
                            assert(now.entries@[b].0 == q);
                        }
                    }
                    assert forall|q: K| #[trigger] now@.dom().contains(q) implies now@[q]
                        == before@[q] by {
                        let j = now.place(q);
                        let b = if j < i { j } else { j + 1 };
                        now.lemma_at(j);
                        before.lemma_at(b);
                        assert(before.entries@[b] == now.entries@[j]);
                    }
                    assert(now@ =~= before@.remove(*k));
                    now.lemma_listed();
                }
                Some(w.1)
            },
            None => {
                proof {
                    assert(self@ =~= self@.remove(*k));
                }
                None
            },
        }
    }
}

/// Taking a key out takes that key and no other, and leaves the others in
/// their order; inserting one adds it behind the others where it is new.
pub proof fn lemma_keys_keep_their_order<K>(keys: Seq<K>, k: K, other: K)
    requires
        keys.no_duplicates(),
    ensures
        !holds(without(keys, k), k),
        other != k ==> (holds(without(keys, k), other) <==> holds(keys, other)),
        holds(with_key(keys, k), k),
        other != k ==> (holds(with_key(keys, k), other) <==> holds(keys, other)),
        holds(keys, k) ==> with_key(keys, k) == keys && without(keys, k).len() + 1 == keys.len(),
        !holds(keys, k) ==> without(keys, k) == keys && with_key(keys, k).len() == keys.len() + 1
            && with_key(keys, k).last() == k && with_key(keys, k).drop_last() == keys
            && without(with_key(keys, k), k) == keys,
{
    if holds(keys, k) {
        let i = choose|i: int| 0 <= i < keys.len() && #[trigger] keys[i] == k;
        lemma_without_at(keys, i);
        let rest = keys.remove(i);
        if holds(rest, k) {
            let j = choose|j: int| 0 <= j < rest.len() && #[trigger] rest[j] == k;
            assert(rest[j] == keys[if j < i { j } else { j + 1 }]);
        }
        if holds(rest, other) {
            let j = choose|j: int| 0 <= j < rest.len() && #[trigger] rest[j] == other;
            assert(keys[if j < i { j } else { j + 1 }] == other);
        }
        if other != k && holds(keys, other) {
            let j = choose|j: int| 0 <= j < keys.len() && #[trigger] keys[j] == other;
            assert(rest[if j < i { j } else { j - 1 }] == other);
        }
    } else {
        let longer = keys.push(k);
        assert(longer[keys.len() as int] == k);
        assert(longer.drop_last() =~= keys);
        assert(longer.no_duplicates()) by {
            assert forall|i: int| 0 <= i < keys.len() implies keys[i] != k by {
            }
        }
        lemma_without_at(longer, keys.len() as int);
        assert(longer.remove(keys.len() as int) =~= keys);
        if holds(keys, other) {
            let j = choose|j: int| 0 <= j < keys.len() && #[trigger] keys[j] == other;
            assert(longer[j] == other);
        }
        if other != k && holds(longer, other) {
            let j = choose|j: int| 0 <= j < longer.len() && #[trigger] longer[j] == other;
            assert(keys[j] == other);
        }
    }
}

} // verus!
