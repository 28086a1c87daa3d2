//! A table of values by 64-bit identity, kept in ascending order of identity.
use vstd::prelude::*;

verus! {

/// Entries ordered by identity, each identity at most once.
pub open spec fn ids_ascending<V>(entries: Seq<(u64, V)>) -> bool {
    forall|i: int, j: int| 0 <= i < j < entries.len() ==> entries[i].0 < entries[j].0
}

/// Values by identity, kept in ascending order of identity.
#[derive(Debug, Clone)]
pub struct IdTable<V> {
    entries: Vec<(u64, V)>,
}

impl<V> IdTable<V> {
    /// The entries, in ascending order of identity.
    pub closed spec fn entries(&self) -> Seq<(u64, V)> {
        self.entries@
    }

    pub open spec fn wf(&self) -> bool {
        ids_ascending(self.entries())
    }

    /// The entries as a map from identity to value.
    pub open spec fn view(&self) -> Map<u64, V> {
        Map::new(
            |id: u64| exists|i: int| 0 <= i < self.entries().len() && self.entries()[i].0 == id,
            |id: u64|
                self.entries()[choose|i: int|
                    0 <= i < self.entries().len() && self.entries()[i].0 == id].1,
        )
    }

    pub fn new() -> (r: Self)
        ensures
            r.wf(),
            r.entries().len() == 0,
    {
        IdTable { entries: Vec::new() }
    }

    pub fn len(&self) -> (r: usize)
        ensures
            r == self.entries().len(),
    {
        self.entries.len()
    }

    /// The entry at a position of the identity order.
    pub fn entry(&self, i: usize) -> (r: &(u64, V))
        requires
            i < self.entries().len(),
        ensures
            *r == self.entries()[i as int],
    {
        &self.entries[i]
    }

    /// The first position whose identity is not below `id`.
    pub fn position(&self, id: u64) -> (r: usize)
        requires
            self.wf(),
        ensures
            r <= self.entries().len(),
            forall|i: int| 0 <= i < r ==> self.entries()[i].0 < id,
            forall|i: int| r <= i < self.entries().len() ==> self.entries()[i].0 >= id,
    {
        let mut i: usize = 0;
        while i < self.entries.len() && self.entries[i].0 < id
            invariant
                self.wf(),
                i <= self.entries().len(),
                forall|k: int| 0 <= k < i ==> self.entries()[k].0 < id,
            decreases self.entries().len() - i,
        {
            i += 1;
        }
        i
    }

    /// The value with the given identity, if there is one.
    pub fn get(&self, id: u64) -> (r: Option<&V>)
        requires
            self.wf(),
        ensures
            match r {
                Some(m) => self@.contains_key(id) && *m == self@[id],
                None => !self@.contains_key(id),
            },
    {
        let i = self.position(id);
        if i < self.entries.len() && self.entries[i].0 == id {
            proof {
                self.lemma_view_at(i as int);
            }
            Some(&self.entries[i].1)
        } else {
            None
        }
    }

    pub proof fn lemma_view_at(&self, i: int)
        requires
            self.wf(),
            0 <= i < self.entries().len(),
        ensures
            self@.contains_key(self.entries()[i].0),
            self@[self.entries()[i].0] == self.entries()[i].1,
    {
        let id = self.entries()[i].0;
        assert(self@.dom().contains(id));
        let j = choose|j: int| 0 <= j < self.entries().len() && self.entries()[j].0 == id;
        assert(j == i);
    }

    /// Adds a value, or replaces the one with the same identity.
    pub fn insert(&mut self, id: u64, value: V)
        requires
            old(self).wf(),
        ensures
            final(self).wf(),
            final(self)@ == old(self)@.insert(id, value),
            forall|e: (u64, V)| #[trigger]
                final(self).entries().contains(e) ==> e == (id, value) || old(self).entries().contains(e),
    {
        let i = self.position(id);
        let ghost old_self = *self;
        let ghost olds = self.entries();
        if i < self.entries.len() && self.entries[i].0 == id {
            self.entries.set(i, (id, value));
            proof {
                let news = self.entries();
                assert(news == olds.update(i as int, (id, value)));
                assert(self.wf());
                assert forall|k: u64| #[trigger]
                    self@.contains_key(k) == old_self@.insert(id, value).contains_key(k) by {
                    if k != id {
                        if self@.contains_key(k) {
                            let j = choose|j: int| 0 <= j < news.len() && news[j].0 == k;
                            assert(olds[j].0 == k);
                        }
                        if old_self@.contains_key(k) {
                            let j = choose|j: int| 0 <= j < olds.len() && olds[j].0 == k;
                            assert(news[j].0 == k);
                        }
                    } else {
                        assert(news[i as int].0 == k);
                    }
                }
                assert forall|k: u64| #[trigger] self@.contains_key(k) implies self@[k]
                    == old_self@.insert(id, value)[k] by {
                    let j = choose|j: int| 0 <= j < news.len() && news[j].0 == k;
                    self.lemma_view_at(j);
                    if k != id {
                        old_self.lemma_view_at(j);
                    }
                }
                assert(self@ =~= old_self@.insert(id, value));
                assert forall|e: (u64, V)| #[trigger] news.contains(e) implies e == (id, value) || olds.contains(e) by {
                    let j = choose|j: int| 0 <= j < news.len() && news[j] == e;
                    if j < i {
                        assert(olds[j] == e);
                    } else if j > i {
                        assert(olds[j - 1] == e || olds[j] == e);
                    }
                }
            }
        } else {
            self.entries.insert(i, (id, value));
            proof {
                let news = self.entries();
                assert(news == olds.insert(i as int, (id, value)));
                assert(self.wf());
                assert forall|k: u64| #[trigger]
                    self@.contains_key(k) == old_self@.insert(id, value).contains_key(k) by {
                    if self@.contains_key(k) {
                        let j = choose|j: int| 0 <= j < news.len() && news[j].0 == k;
                        if j < i {
                            assert(olds[j].0 == k);
                        } else if j > i {
                            assert(olds[j - 1].0 == k);
                        }
                    }
                    if old_self@.contains_key(k) {
                        let j = choose|j: int| 0 <= j < olds.len() && olds[j].0 == k;
                        if j < i {
                            assert(news[j].0 == k);
                        } else {
                            assert(news[j + 1].0 == k);
                        }
                    }
                    if k == id {
                        assert(news[i as int].0 == k);
                    }
                }
                assert forall|k: u64| #[trigger] self@.contains_key(k) implies self@[k]
                    == old_self@.insert(id, value)[k] by {
                    let j = choose|j: int| 0 <= j < news.len() && news[j].0 == k;
                    self.lemma_view_at(j);
                    if j < i {
                        old_self.lemma_view_at(j);
                    } else if j > i {
                        old_self.lemma_view_at(j - 1);
                    }
                }
                assert(self@ =~= old_self@.insert(id, value));
                assert forall|e: (u64, V)| #[trigger] news.contains(e) implies e == (id, value) || olds.contains(e) by {
                    let j = choose|j: int| 0 <= j < news.len() && news[j] == e;
                    if j < i {
                        assert(olds[j] == e);
                    } else if j > i {
                        assert(olds[j - 1] == e || olds[j] == e);
                    }
                }
            }
        }
    }

    /// Drops the value with the given identity, if there is one.
    pub fn remove(&mut self, id: u64)
        requires
            old(self).wf(),
        ensures
            final(self).wf(),
            final(self)@ == old(self)@.remove(id),
            forall|e: (u64, V)| #[trigger]
                final(self).entries().contains(e) ==> old(self).entries().contains(e),
    {
        let i = self.position(id);
        let ghost old_self = *self;
        let ghost olds = self.entries();
        if i < self.entries.len() && self.entries[i].0 == id {
            self.entries.remove(i);
            proof {
                let news = self.entries();
                assert(news == olds.remove(i as int));
                assert(self.wf());
                assert forall|k: u64| #[trigger]
                    self@.contains_key(k) == old_self@.remove(id).contains_key(k) by {
                    if self@.contains_key(k) {
                        let j = choose|j: int| 0 <= j < news.len() && news[j].0 == k;
                        if j < i {
                            assert(olds[j].0 == k);
                        } else {
                            assert(olds[j + 1].0 == k);
                        }
                    }
                    if old_self@.contains_key(k) && k != id {
                        let j = choose|j: int| 0 <= j < olds.len() && olds[j].0 == k;
                        if j < i {
                            assert(news[j].0 == k);
                        } else {
                            assert(news[j - 1].0 == k);
                        }
                    }
                }
                assert forall|k: u64| #[trigger] self@.contains_key(k) implies self@[k]
                    == old_self@.remove(id)[k] by {
                    let j = choose|j: int| 0 <= j < news.len() && news[j].0 == k;
                    self.lemma_view_at(j);
                    if j < i {
                        old_self.lemma_view_at(j);
                    } else {
                        old_self.lemma_view_at(j + 1);
                    }
                }
                assert(self@ =~= old_self@.remove(id));
                assert forall|e: (u64, V)| #[trigger] news.contains(e) implies olds.contains(e) by {
                    let j = choose|j: int| 0 <= j < news.len() && news[j] == e;
                    if j < i {
                        assert(olds[j] == e);
                    } else {
                        assert(olds[j + 1] == e);
                    }
                }
            }
        } else {
            proof {
                assert(!old_self@.contains_key(id));
                assert(self@ =~= old_self@.remove(id));
            }
        }
    }
}

/// Two sequences, each strictly ascending under the same strict order, that
/// hold the same elements are equal.
pub proof fn lemma_sorted_unique<T>(a: Seq<T>, b: Seq<T>, lt: spec_fn(T, T) -> bool)
    requires
        forall|x: T, y: T, z: T| #[trigger] lt(x, y) && #[trigger] lt(y, z) ==> lt(x, z),
        forall|x: T| !#[trigger] lt(x, x),
        forall|i: int, j: int| 0 <= i < j < a.len() ==> lt(a[i], a[j]),
        forall|i: int, j: int| 0 <= i < j < b.len() ==> lt(b[i], b[j]),
        forall|x: T| a.contains(x) <==> b.contains(x),
    ensures
        a == b,
    decreases a.len(),
{
    if a.len() == 0 {
        if b.len() > 0 {
            assert(b.contains(b[0]));
        }
        assert(a =~= b);
    } else if b.len() == 0 {
        assert(a.contains(a[0]));
    } else {
        assert(a.contains(a[0]));
        assert(b.contains(b[0]));
        let j = choose|j: int| 0 <= j < b.len() && b[j] == a[0];
        let i = choose|i: int| 0 <= i < a.len() && a[i] == b[0];
        if j > 0 {
            assert(lt(b[0], a[0]));
            if i > 0 {
                assert(lt(a[0], b[0]));
                assert(lt(a[0], a[0]));
            }
        }
        assert(a[0] == b[0]);
        let a1 = a.drop_first();
        let b1 = b.drop_first();
        assert forall|x: T| a1.contains(x) <==> b1.contains(x) by {
            if a1.contains(x) {
                let k = choose|k: int| 0 <= k < a1.len() && a1[k] == x;
                assert(lt(a[0], a[k + 1]));
                assert(a.contains(x));
                let m = choose|m: int| 0 <= m < b.len() && b[m] == x;
                if m == 0 {
                    assert(lt(a[0], a[0]));
                }
                assert(b1[m - 1] == x);
            }
            if b1.contains(x) {
                let k = choose|k: int| 0 <= k < b1.len() && b1[k] == x;
                assert(lt(b[0], b[k + 1]));
                assert(b.contains(x));
                let m = choose|m: int| 0 <= m < a.len() && a[m] == x;
                if m == 0 {
                    assert(lt(b[0], b[0]));
                }
                assert(a1[m - 1] == x);
            }
        }
        lemma_sorted_unique(a1, b1, lt);
        assert(a =~= b) by {
            assert forall|k: int| 0 <= k < a.len() implies a[k] == b[k] by {
                if k > 0 {
                    assert(a[k] == a1[k - 1]);
                    assert(b[k] == b1[k - 1]);
                }
            }
        }
    }
}

impl<V> IdTable<V> {
    /// Tables that map the same identities to the same values hold the same
    /// entries in the same order.
    pub proof fn lemma_same_view_same_entries(&self, other: &Self)
        requires
            self.wf(),
            other.wf(),
            self@ == other@,
        ensures
            self.entries() == other.entries(),
    {
        let a = self.entries();
        let b = other.entries();
        assert forall|e: (u64, V)| a.contains(e) <==> b.contains(e) by {
            if a.contains(e) {
                let i = choose|i: int| 0 <= i < a.len() && a[i] == e;
                self.lemma_view_at(i);
                assert(other@.contains_key(e.0));
                let j = choose|j: int| 0 <= j < b.len() && b[j].0 == e.0;
                other.lemma_view_at(j);
                assert(b[j] == e);
            }
            if b.contains(e) {
                let i = choose|i: int| 0 <= i < b.len() && b[i] == e;
                other.lemma_view_at(i);
                assert(self@.contains_key(e.0));
                let j = choose|j: int| 0 <= j < a.len() && a[j].0 == e.0;
                self.lemma_view_at(j);
                assert(a[j] == e);
            }
        }
        let lt = |x: (u64, V), y: (u64, V)| x.0 < y.0;
        lemma_sorted_unique(a, b, lt);
    }
}

} // verus!
