//! A map from node identifiers to values: a hash table keyed by each
//! identifier's characters packed into a number.
use vstd::prelude::*;
use std::collections::HashMap;
use super::node_id::{NodeId, is_ascii_id, node_key, lemma_node_key_injective};

verus! {

broadcast use vstd::std_specs::hash::group_hash_axioms;

/// A finite map keyed by node identifiers.
pub struct IdMap<V> {
    table: HashMap<u64, V>,
}

impl<V> IdMap<V> {
    /// The table is keyed by the packed characters of an identifier, which
    /// tell identifiers apart; nothing more is needed.
    pub closed spec fn wf(&self) -> bool {
        true
    }

    /// The map the table denotes: an identifier has the value stored under
    /// its key.
    pub closed spec fn map(&self) -> Map<NodeId, V> {
        Map::new(
            |k: NodeId| is_ascii_id(k@) && self.table@.contains_key(node_key(k@)),
            |k: NodeId| self.table@[node_key(k@)],
        )
    }

    /// An empty map.
    pub fn new() -> (r: Self)
        ensures
            r.wf(),
            r.map() == Map::<NodeId, V>::empty(),
    {
        let r = IdMap { table: HashMap::new() };
        proof {
            assert(r.map() =~= Map::<NodeId, V>::empty());
        }
        r
    }

    /// The value of key `k`, if it has one.
    pub fn get(&self, k: &NodeId) -> (r: Option<&V>)
        requires
            self.wf(),
        ensures
            match r {
                Some(v) => self.map().contains_key(*k) && *v == self.map()[*k],
                None => !self.map().contains_key(*k),
            },
    {
        let key = k.key();
        self.table.get(&key)
    }

    /// Whether key `k` has a value.
    pub fn contains_key(&self, k: &NodeId) -> (r: bool)
        requires
            self.wf(),
        ensures
            r == self.map().contains_key(*k),
    {
        let key = k.key();
        self.table.contains_key(&key)
    }

    /// Gives key `k` the value `v`, replacing any value it had.
    pub fn insert(&mut self, k: NodeId, v: V)
        requires
            old(self).wf(),
        ensures
            final(self).wf(),
            final(self).map() == old(self).map().insert(k, v),
    {
        let key = k.key();
        self.table.insert(key, v);
        proof {
            let m = old(self).map().insert(k, v);
            assert forall|id: NodeId| #[trigger] self.map().contains_key(id) == m.contains_key(id)
                && (m.contains_key(id) ==> self.map()[id] == m[id]) by {
                if is_ascii_id(id@) && node_key(id@) == key {
                    lemma_node_key_injective(id@, k@);
                    NodeId::lemma_view_injective(id, k);
                }
                if id == k {
                    assert(id@ == k@);
                }
            }
            assert(self.map() =~= m);
        }
    }

    /// Removes key `k` and its value, if it has one.
    pub fn remove(&mut self, k: &NodeId)
        requires
            old(self).wf(),
        ensures
            final(self).wf(),
            final(self).map() == old(self).map().remove(*k),
    {
        let key = k.key();
        let _ = self.table.remove(&key);
        proof {
            let m = old(self).map().remove(*k);
            assert forall|id: NodeId| #[trigger] self.map().contains_key(id) == m.contains_key(id)
                && (m.contains_key(id) ==> self.map()[id] == m[id]) by {
                if is_ascii_id(id@) && node_key(id@) == key {
                    lemma_node_key_injective(id@, k@);
                    NodeId::lemma_view_injective(id, *k);
                }
            }
            assert(self.map() =~= m);
        }
    }
}

} // verus!
