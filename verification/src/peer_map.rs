//! A map keyed by peer.

use vstd::prelude::*;

use crate::primitives::{position, PeerId};

verus! {

/// The map that a list of distinct keys and a list of their values stand for.
pub open spec fn paired<T>(ids: Seq<PeerId>, values: Seq<T>) -> Map<PeerId, T> {
    Map::new(|id: PeerId| ids.contains(id), |id: PeerId| values[ids.index_of(id)])
}

/// A map from peers to values. No peer occurs twice.
pub struct PeerMap<T> {
    ids: Vec<PeerId>,
    values: Vec<T>,
}

impl<T> View for PeerMap<T> {
    type V = Map<PeerId, T>;

    closed spec fn view(&self) -> Map<PeerId, T> {
        paired(self.ids@, self.values@)
    }
}

impl<T> PeerMap<T> {
    /// Every key has one value, and no key occurs twice.
    pub closed spec fn wf(&self) -> bool {
        &&& self.ids@.len() == self.values@.len()
        &&& self.ids@.no_duplicates()
    }

    /// The keys as they are listed.
    pub closed spec fn order(&self) -> Seq<PeerId> {
        self.ids@
    }

    /// Every key of the map is listed once.
    pub proof fn lemma_order(&self)
        requires
            self.wf(),
        ensures
            self.order().no_duplicates(),
            forall|id: PeerId| #[trigger] self.order().contains(id) == self@.contains_key(id),
            self.order().to_set() == self@.dom(),
    {
        assert(self.order().to_set() =~= self@.dom());
    }

    proof fn lemma_at(&self, i: int)
        requires
            self.wf(),
            0 <= i < self.ids@.len(),
        ensures
            self@.contains_key(self.ids@[i]),
            self@[self.ids@[i]] == self.values@[i],
    {
        assert(self.ids@.contains(self.ids@[i]));
    }

    /// A map without keys.
    pub fn new() -> (map: Self)
        ensures
            map.wf(),
            map@ == Map::<PeerId, T>::empty(),
    {
        let map = PeerMap { ids: Vec::new(), values: Vec::new() };
        assert(map@ =~= Map::<PeerId, T>::empty());
        map
    }

    /// The keys as they are listed.
    pub fn ids(&self) -> (ids: &Vec<PeerId>)
        ensures
            ids@ == self.order(),
    {
        &self.ids
    }

    /// The value of the key at place `i` of the list.
    pub fn value_at(&self, i: usize) -> (value: &T)
        requires
            self.wf(),
            i < self.order().len(),
        ensures
            self@.contains_key(self.order()[i as int]),
            *value == self@[self.order()[i as int]],
    {
        proof {
            self.lemma_at(i as int);
        }
        &self.values[i]
    }

    /// The value of `id`.
    pub fn get(&self, id: &PeerId) -> (value: Option<&T>)
        requires
            self.wf(),
        ensures
            value is Some == self@.contains_key(*id),
            value matches Some(v) ==> *v == self@[*id],
    {
        match position(&self.ids, id) {
            Some(i) => {
                proof {
                    self.lemma_at(i as int);
                }
                Some(&self.values[i])
            },
            None => None,
        }
    }

    /// Gives `id` the value `value`, in place of the one it had.
    pub fn insert(&mut self, id: PeerId, value: T)
        requires
            old(self).wf(),
        ensures
            final(self).wf(),
            final(self)@ == old(self)@.insert(id, value),
    {
        match position(&self.ids, &id) {
            Some(i) => {
                self.values[i] = value;
                proof {
                    assert(old(self).ids@.contains(id));
                    assert forall|k: PeerId| self.ids@.contains(k) implies #[trigger] self@[k]
                        == old(self)@.insert(id, value)[k] by {
                        let j = self.ids@.index_of(k);
                        assert(self.ids@[j] == k);
                    }
                    assert(self@ =~= old(self)@.insert(id, value));
                }
            },
            None => {
                self.ids.push(id);
                self.values.push(value);
                proof {
                    let n = old(self).ids@.len() as int;
                    assert(self.ids@[n] == id);
                    assert forall|k: PeerId| #[trigger]
                        self.ids@.contains(k) == old(self)@.insert(id, value).contains_key(k) by {
                        if old(self).ids@.contains(k) {
                            let j = old(self).ids@.index_of(k);
                            assert(self.ids@[j] == k);
                        }
                    }
                    assert forall|k: PeerId| self.ids@.contains(k) implies #[trigger] self@[k]
                        == old(self)@.insert(id, value)[k] by {
                        let j = self.ids@.index_of(k);
                        assert(self.ids@[j] == k);
                        if k != id {
                            assert(old(self).ids@[j] == k);
                            assert(old(self).ids@.contains(k));
                        }
                    }
                    assert(self@ =~= old(self)@.insert(id, value));
                }
            },
        }
    }

    /// Takes `id` out, and says whether it was there.
    pub fn remove(&mut self, id: &PeerId) -> (removed: bool)
        requires
            old(self).wf(),
        ensures
            final(self).wf(),
            removed == old(self)@.contains_key(*id),
            final(self)@ == old(self)@.remove(*id),
    {
        match position(&self.ids, id) {
            Some(i) => {
                let _ = self.ids.remove(i);
                let _ = self.values.remove(i);
                proof {
                    let before = old(self).ids@;
                    assert(before.contains(*id));
                    assert forall|k: PeerId| #[trigger]
                        self.ids@.contains(k) == old(self)@.remove(*id).contains_key(k) by {
                        if before.contains(k) && k != *id {
                            let j = before.index_of(k);
                            let m = if j < i { j } else { j - 1 };
                            assert(self.ids@[m] == k);
                        }
                        if self.ids@.contains(k) {
                            let m = self.ids@.index_of(k);
                            let j = if m < i { m } else { m + 1 };
                            assert(before[j] == k);
                        }
                    }
                    assert forall|k: PeerId| self.ids@.contains(k) implies #[trigger] self@[k]
                        == old(self)@.remove(*id)[k] by {
                        let m = self.ids@.index_of(k);
                        let j = if m < i { m } else { m + 1 };
                        assert(before[j] == k);
                        assert(self.ids@[m] == k);
                        assert(before.contains(k));
                    }
                    assert(self@ =~= old(self)@.remove(*id));
                }
                true
            },
            None => {
                proof {
                    assert(self@ =~= old(self)@.remove(*id));
                }
                false
            },
        }
    }
}

}
