//! Ordered collections keyed by [`NodeId`]: a set and a map, both kept in
//! ascending id order so that equal contents compare equal.
use vstd::prelude::*;

use crate::ids::NodeId;
use crate::keyed::{has_key, keys_distinct, lemma_seq_map_index, lemma_seq_map_insert, lemma_seq_map_update, seq_map};

verus! {

/// Ids strictly increase along `s`.
pub open spec fn ids_sorted(s: Seq<NodeId>) -> bool {
    forall|i: int, j: int| 0 <= i < j < s.len() ==> (#[trigger] s[i]).0 < (#[trigger] s[j]).0
}

/// Keys strictly increase along `s`.
pub open spec fn keys_sorted<V>(s: Seq<(NodeId, V)>) -> bool {
    forall|i: int, j: int| 0 <= i < j < s.len() ==> (#[trigger] s[i]).0.0 < (#[trigger] s[j]).0.0
}

/// First position of `s` whose id is not below `id` (or `s.len()`).
fn id_position(s: &Vec<NodeId>, id: NodeId) -> (p: usize)
    requires
        ids_sorted(s@),
    ensures
        p <= s@.len(),
        forall|j: int| 0 <= j < p ==> s@[j].0 < id.0,
        forall|j: int| p <= j < s@.len() ==> s@[j].0 >= id.0,
{
    let mut i: usize = 0;
    while i < s.len() && s[i].0 < id.0
        invariant
            ids_sorted(s@),
            0 <= i <= s@.len(),
            forall|j: int| 0 <= j < i ==> s@[j].0 < id.0,
        decreases s@.len() - i,
    {
        i = i + 1;
    }
    proof {
        assert forall|j: int| i <= j < s@.len() implies s@[j].0 >= id.0 by {
            if j > i {
                assert(s@[i as int].0 < s@[j].0);
            }
        }
    }
    i
}

/// First position of `s` whose key is not below `id` (or `s.len()`).
fn key_position<V>(s: &Vec<(NodeId, V)>, id: NodeId) -> (p: usize)
    requires
        keys_sorted(s@),
    ensures
        p <= s@.len(),
        forall|j: int| 0 <= j < p ==> s@[j].0.0 < id.0,
        forall|j: int| p <= j < s@.len() ==> s@[j].0.0 >= id.0,
{
    let mut i: usize = 0;
    while i < s.len() && s[i].0.0 < id.0
        invariant
            keys_sorted(s@),
            0 <= i <= s@.len(),
            forall|j: int| 0 <= j < i ==> s@[j].0.0 < id.0,
        decreases s@.len() - i,
    {
        i = i + 1;
    }
    proof {
        assert forall|j: int| i <= j < s@.len() implies s@[j].0.0 >= id.0 by {
            if j > i {
                assert(s@[i as int].0.0 < s@[j].0.0);
            }
        }
    }
    i
}

/// A set of node ids, kept in ascending order.
#[derive(Debug, PartialEq, Eq)]
pub struct NodeSet {
    ids: Vec<NodeId>,
}

impl View for NodeSet {
    type V = Set<NodeId>;

    closed spec fn view(&self) -> Set<NodeId> {
        self.ids@.to_set()
    }
}

impl NodeSet {
    #[verifier::type_invariant]
    closed spec fn ascending(self) -> bool {
        ids_sorted(self.ids@)
    }

    /// The empty set.
    pub fn new() -> (s: Self)
        ensures
            s@ == Set::<NodeId>::empty(),
    {
        let s = NodeSet { ids: Vec::new() };
        assert(s.ids@.to_set() =~= Set::<NodeId>::empty());
        s
    }

    /// Membership test.
    pub fn contains(&self, id: &NodeId) -> (r: bool)
        ensures
            r == self@.contains(*id),
    {
        proof {
            use_type_invariant(self);
        }
        let p = id_position(&self.ids, *id);
        let r = p < self.ids.len() && self.ids[p].0 == id.0;
        proof {
            if r {
                assert(self.ids@[p as int] == *id);
                assert(self.ids@.contains(*id));
            } else if self.ids@.contains(*id) {
                let j = choose|j: int| 0 <= j < self.ids@.len() && self.ids@[j] == *id;
                if j > p {
                    assert(self.ids@[p as int].0 < self.ids@[j].0);
                }
            }
        }
        r
    }

    /// Add `id`; returns whether it was absent.
    pub fn insert(&mut self, id: NodeId) -> (added: bool)
        ensures
            final(self)@ == old(self)@.insert(id),
            added == !old(self)@.contains(id),
    {
        proof {
            use_type_invariant(&*self);
        }
        let ghost s = self.ids@;
        let p = id_position(&self.ids, id);
        if p < self.ids.len() && self.ids[p].0 == id.0 {
            proof {
                assert(s[p as int] == id);
                assert(s.contains(id));
                assert(s.to_set().insert(id) =~= s.to_set());
            }
            false
        } else {
            let mut ids: Vec<NodeId> = Vec::new();
            std::mem::swap(&mut ids, &mut self.ids);
            ids.insert(p, id);
            proof {
                let t = ids@;
                assert(t =~= s.insert(p as int, id));
                assert forall|a: int, b: int| 0 <= a < b < t.len() implies (#[trigger] t[a]).0 < (#[trigger] t[b]).0 by {
                    if b < p {
                        assert(t[a] == s[a] && t[b] == s[b]);
                    } else if b == p {
                        assert(t[a] == s[a]);
                    } else if a == p {
                        assert(t[b] == s[b - 1]);
                    } else if a < p {
                        assert(t[a] == s[a] && t[b] == s[b - 1]);
                    } else {
                        assert(t[a] == s[a - 1] && t[b] == s[b - 1]);
                    }
                }
                assert forall|x: NodeId| #[trigger] t.contains(x) == s.to_set().insert(id).contains(x) by {
                    if t.contains(x) {
                        let j = choose|j: int| 0 <= j < t.len() && t[j] == x;
                        if j < p {
                            assert(s[j] == x);
                        } else if j > p {
                            assert(s[j - 1] == x);
                        }
                    }
                    if s.contains(x) {
                        let j = choose|j: int| 0 <= j < s.len() && s[j] == x;
                        if j < p {
                            assert(t[j] == x);
                        } else {
                            assert(t[j + 1] == x);
                        }
                    }
                    if x == id {
                        assert(t[p as int] == id);
                    }
                }
                assert(t.to_set() =~= s.to_set().insert(id));
                if s.contains(id) {
                    let j = choose|j: int| 0 <= j < s.len() && s[j] == id;
                    if j > p {
                        assert(s[p as int].0 < s[j].0);
                    }
                }
            }
            self.ids = ids;
            true
        }
    }

    /// Remove every id.
    pub fn clear(&mut self)
        ensures
            final(self)@ == Set::<NodeId>::empty(),
    {
        self.ids = Vec::new();
        assert(self.ids@.to_set() =~= Set::<NodeId>::empty());
    }

    /// The ids in ascending order.
    pub fn to_vec(&self) -> (v: Vec<NodeId>)
        ensures
            ids_sorted(v@),
            v@.to_set() == self@,
    {
        proof {
            use_type_invariant(self);
        }
        self.ids.clone()
    }

    /// A copy of the set.
    pub fn duplicate(&self) -> (c: Self)
        ensures
            c@ == self@,
    {
        proof {
            use_type_invariant(self);
        }
        NodeSet { ids: self.ids.clone() }
    }
}

/// A map from node ids to values, kept in ascending key order.
#[derive(Debug, PartialEq, Eq)]
pub struct NodeMap<V> {
    entries: Vec<(NodeId, V)>,
}

impl<V> View for NodeMap<V> {
    type V = Map<NodeId, V>;

    closed spec fn view(&self) -> Map<NodeId, V> {
        seq_map(self.entries@)
    }
}

impl<V> NodeMap<V> {
    #[verifier::type_invariant]
    closed spec fn ascending(self) -> bool {
        keys_sorted(self.entries@)
    }

    /// The empty map.
    pub fn new() -> (m: Self)
        ensures
            m@ == Map::<NodeId, V>::empty(),
    {
        let m = NodeMap { entries: Vec::new() };
        assert(seq_map(m.entries@) =~= Map::<NodeId, V>::empty());
        m
    }

    /// Set the value of `id`; returns the value it replaced.
    pub fn insert(&mut self, id: NodeId, value: V) -> (previous: Option<V>)
        ensures
            final(self)@ == old(self)@.insert(id, value),
            previous == (if old(self)@.contains_key(id) { Some(old(self)@[id]) } else { None::<V> }),
    {
        proof {
            use_type_invariant(&*self);
        }
        let ghost s = self.entries@;
        proof {
            assert(keys_distinct(s)) by {
                assert forall|i: int, j: int| 0 <= i < s.len() && 0 <= j < s.len() && i != j implies s[i].0 != s[j].0 by {
                    if i < j {
                        assert(s[i].0.0 < s[j].0.0);
                    } else {
                        assert(s[j].0.0 < s[i].0.0);
                    }
                }
            }
        }
        let p = key_position(&self.entries, id);
        let found = p < self.entries.len() && self.entries[p].0.0 == id.0;
        let mut entries: Vec<(NodeId, V)> = Vec::new();
        std::mem::swap(&mut entries, &mut self.entries);
        if found {
            let (_k, prev) = entries.remove(p);
            entries.insert(p, (id, value));
            proof {
                assert(s[p as int].0 == id);
                assert(entries@ =~= s.update(p as int, (s[p as int].0, value)));
                lemma_seq_map_update(s, p as int, value);
                lemma_seq_map_index(s, p as int);
                let t = entries@;
                assert forall|a: int, b: int| 0 <= a < b < t.len() implies (#[trigger] t[a]).0.0 < (#[trigger] t[b]).0.0 by {
                    assert(t[a].0 == s[a].0 && t[b].0 == s[b].0);
                }
            }
            self.entries = entries;
            Some(prev)
        } else {
            entries.insert(p, (id, value));
            proof {
                let t = entries@;
                assert(t =~= s.insert(p as int, (id, value)));
                assert(!has_key(s, id)) by {
                    if has_key(s, id) {
                        let j = choose|j: int| 0 <= j < s.len() && s[j].0 == id;
                        if j > p {
                            assert(s[p as int].0.0 < s[j].0.0);
                        }
                    }
                }
                lemma_seq_map_insert(s, p as int, id, value);
                assert forall|a: int, b: int| 0 <= a < b < t.len() implies (#[trigger] t[a]).0.0 < (#[trigger] t[b]).0.0 by {
                    if b < p {
                        assert(t[a] == s[a] && t[b] == s[b]);
                    } else if b == p {
                        assert(t[a] == s[a]);
                    } else if a == p {
                        assert(t[b] == s[b - 1]);
                    } else if a < p {
                        assert(t[a] == s[a] && t[b] == s[b - 1]);
                    } else {
                        assert(t[a] == s[a - 1] && t[b] == s[b - 1]);
                    }
                }
            }
            self.entries = entries;
            None
        }
    }

    /// The value stored for `id`.
    pub fn get(&self, id: &NodeId) -> (r: Option<&V>)
        ensures
            r == (if self@.contains_key(*id) { Some(&self@[*id]) } else { None::<&V> }),
    {
        proof {
            use_type_invariant(self);
        }
        let ghost s = self.entries@;
        proof {
            assert(keys_distinct(s)) by {
                assert forall|i: int, j: int| 0 <= i < s.len() && 0 <= j < s.len() && i != j implies s[i].0 != s[j].0 by {
                    if i < j {
                        assert(s[i].0.0 < s[j].0.0);
                    } else {
                        assert(s[j].0.0 < s[i].0.0);
                    }
                }
            }
        }
        let p = key_position(&self.entries, *id);
        if p < self.entries.len() && self.entries[p].0.0 == id.0 {
            proof {
                assert(s[p as int].0 == *id);
                lemma_seq_map_index(s, p as int);
            }
            Some(&self.entries[p].1)
        } else {
            proof {
                assert(!has_key(s, *id)) by {
                    if has_key(s, *id) {
                        let j = choose|j: int| 0 <= j < s.len() && s[j].0 == *id;
                        if j > p {
                            assert(s[p as int].0.0 < s[j].0.0);
                        }
                    }
                }
            }
            None
        }
    }

    /// Remove every entry.
    pub fn clear(&mut self)
        ensures
            final(self)@ == Map::<NodeId, V>::empty(),
    {
        self.entries = Vec::new();
        assert(seq_map(self.entries@) =~= Map::<NodeId, V>::empty());
    }
}

} // verus!
