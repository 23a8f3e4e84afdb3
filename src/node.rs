//! Worker nodes: mapping the cluster's node objects and the table of
//! addressable nodes keyed by name.

use vstd::prelude::*;
use crate::model::{NodeAddress, RawNode, WatchEvent, strings_view};

verus! {

/// A worker node reachable over the cluster network, with its internal IPs.
#[derive(Clone, Debug)]
pub struct AddressableNode {
    pub addresses: Vec<String>,
}

impl AddressableNode {
    pub open spec fn addresses_view(&self) -> Seq<Seq<char>> {
        strings_view(self.addresses@)
    }

    pub fn new(addresses: Vec<String>) -> (r: AddressableNode)
        ensures
            r.addresses@ == addresses@,
    {
        AddressableNode { addresses }
    }
}

/// The addresses of type "InternalIP", in the order the node lists them.
pub open spec fn internal_ips(addrs: Seq<NodeAddress>) -> Seq<Seq<char>>
    decreases addrs.len(),
{
    if addrs.len() == 0 {
        Seq::empty()
    } else {
        let rest = internal_ips(addrs.drop_last());
        if addrs.last().type_@ == "InternalIP"@ {
            rest.push(addrs.last().address@)
        } else {
            rest
        }
    }
}

/// What a raw node maps to: its name and internal IPs, or nothing when it
/// has no name, no status, or no internal IP.
pub open spec fn node_entry(raw: RawNode) -> Option<(Seq<char>, Seq<Seq<char>>)> {
    match (raw.name, raw.addresses) {
        (Some(name), Some(addrs)) => if internal_ips(addrs@).len() > 0 {
            Some((name@, internal_ips(addrs@)))
        } else {
            None
        },
        _ => None,
    }
}

/// The node table built from a list of raw nodes: each mappable node under its
/// name, a later node of the same name replacing an earlier one.
pub open spec fn nodes_of(raws: Seq<RawNode>) -> Map<Seq<char>, Seq<Seq<char>>>
    decreases raws.len(),
{
    if raws.len() == 0 {
        Map::empty()
    } else {
        let rest = nodes_of(raws.drop_last());
        match node_entry(raws.last()) {
            Some(e) => rest.insert(e.0, e.1),
            None => rest,
        }
    }
}

/// Whether an address entry is of type "InternalIP".
pub fn is_internal_ip(a: &NodeAddress) -> (r: bool)
    ensures
        r == (a.type_@ == "InternalIP"@),
{
    let internal = "InternalIP".to_string();
    a.type_ == internal
}

/// The internal IPs of a node's address list.
pub fn extract_addresses(addrs: &Vec<NodeAddress>) -> (r: Vec<String>)
    ensures
        strings_view(r@) == internal_ips(addrs@),
{
    let mut r: Vec<String> = Vec::new();
    let mut i: usize = 0;
    while i < addrs.len()
        invariant
            i <= addrs.len(),
            strings_view(r@) == internal_ips(addrs@.take(i as int)),
        decreases addrs.len() - i,
    {
        proof {
            assert(addrs@.take(i + 1).drop_last() == addrs@.take(i as int));
        }
        if is_internal_ip(&addrs[i]) {
            r.push(addrs[i].address.clone());
        }
        i += 1;
    }
    proof {
        assert(addrs@.take(addrs.len() as int) == addrs@);
    }
    r
}

/// Maps a raw node to its name and addressable form; `None` when the node has
/// no name, no status, or no internal IP.
pub fn map_node(raw: &RawNode) -> (r: Option<(String, AddressableNode)>)
    ensures
        match r {
            Some((name, node)) => node_entry(*raw) == Some((name@, node.addresses_view())),
            None => node_entry(*raw) is None,
        },
{
    match (&raw.name, &raw.addresses) {
        (Some(name), Some(addrs)) => {
            let ips = extract_addresses(addrs);
            if ips.len() > 0 {
                Some((name.clone(), AddressableNode::new(ips)))
            } else {
                None
            }
        },
        _ => None,
    }
}

/// Nodes keyed by name. Names are distinct and every stored node has at least
/// one address.
pub struct NodeTable {
    names: Vec<String>,
    nodes: Vec<AddressableNode>,
}

impl View for NodeTable {
    type V = Map<Seq<char>, Seq<Seq<char>>>;

    closed spec fn view(&self) -> Map<Seq<char>, Seq<Seq<char>>> {
        Map::new(
            |k: Seq<char>| exists|i: int| 0 <= i < self.names@.len() && self.names@[i]@ == k,
            |k: Seq<char>|
                self.nodes@[choose|i: int| 0 <= i < self.names@.len() && self.names@[i]@ == k].addresses_view(),
        )
    }
}

impl NodeTable {
    pub closed spec fn wf(&self) -> bool {
        &&& self.names@.len() == self.nodes@.len()
        &&& forall|i: int, j: int|
            0 <= i < j < self.names@.len() ==> self.names@[i]@ != self.names@[j]@
        &&& forall|i: int| 0 <= i < self.nodes@.len() ==> self.nodes@[i].addresses@.len() > 0
    }

    proof fn lemma_entry(&self, i: int)
        requires
            self.wf(),
            0 <= i < self.names@.len(),
        ensures
            self@.contains_key(self.names@[i]@),
            self@[self.names@[i]@] == self.nodes@[i].addresses_view(),
    {
        let k = self.names@[i]@;
        assert(self@.contains_key(k));
        let j = choose|j: int| 0 <= j < self.names@.len() && self.names@[j]@ == k;
        assert(i == j);
    }

    /// Every stored node has at least one address.
    pub proof fn lemma_addresses_nonempty(&self, k: Seq<char>)
        requires
            self.wf(),
            self@.contains_key(k),
        ensures
            self@[k].len() > 0,
    {
        let i = choose|i: int| 0 <= i < self.names@.len() && self.names@[i]@ == k;
        self.lemma_entry(i);
    }

    pub fn new() -> (r: NodeTable)
        ensures
            r.wf(),
            r@ == Map::<Seq<char>, Seq<Seq<char>>>::empty(),
    {
        let r = NodeTable { names: Vec::new(), nodes: Vec::new() };
        assert(r@ =~= Map::<Seq<char>, Seq<Seq<char>>>::empty());
        r
    }

    pub fn len(&self) -> (r: usize)
        requires
            self.wf(),
        ensures
            r == self@.len(),
    {
        proof {
            self.lemma_dom_len();
        }
        self.names.len()
    }

    proof fn lemma_dom_len(&self)
        requires
            self.wf(),
        ensures
            self@.dom().finite(),
            self@.dom().len() == self.names@.len(),
        decreases self.names@.len(),
    {
        let ks = strings_view(self.names@);
        assert(ks.no_duplicates()) by {
            assert forall|i: int, j: int| 0 <= i < ks.len() && 0 <= j < ks.len() && i != j
                implies ks[i] != ks[j] by {
                if i < j {
                } else {
                }
            }
        }
        assert(self@.dom() =~= ks.to_set()) by {
            assert forall|k: Seq<char>| self@.dom().contains(k) implies ks.to_set().contains(k) by {
                let i = choose|i: int| 0 <= i < self.names@.len() && self.names@[i]@ == k;
                assert(ks[i] == k);
            }
            assert forall|k: Seq<char>| ks.to_set().contains(k) implies self@.dom().contains(k) by {
                let i = choose|i: int| 0 <= i < ks.len() && ks[i] == k;
                assert(self.names@[i]@ == k);
            }
        }
        ks.unique_seq_to_set();
    }

    fn index_of(&self, name: &String) -> (r: Option<usize>)
        requires
            self.wf(),
        ensures
            match r {
                Some(i) => i < self.names@.len() && self.names@[i as int]@ == name@,
                None => !self@.contains_key(name@),
            },
    {
        let mut i: usize = 0;
        while i < self.names.len()
            invariant
                i <= self.names@.len(),
                forall|j: int| 0 <= j < i ==> self.names@[j]@ != name@,
            decreases self.names.len() - i,
        {
            if self.names[i] == *name {
                return Some(i);
            }
            i += 1;
        }
        None
    }

    /// The node stored under `name`.
    pub fn get(&self, name: &String) -> (r: Option<&AddressableNode>)
        requires
            self.wf(),
        ensures
            match r {
                Some(n) => self@.contains_key(name@) && self@[name@] == n.addresses_view()
                    && n.addresses@.len() > 0,
                None => !self@.contains_key(name@),
            },
    {
        match self.index_of(name) {
            Some(i) => {
                proof {
                    self.lemma_entry(i as int);
                }
                Some(&self.nodes[i])
            },
            None => None,
        }
    }

    /// Stores `node` under `name`, replacing what was there.
    pub fn upsert_node(&mut self, name: String, node: AddressableNode)
        requires
            old(self).wf(),
            node.addresses@.len() > 0,
        ensures
            final(self).wf(),
            final(self)@ == old(self)@.insert(name@, node.addresses_view()),
    {
        let ghost k = name@;
        let ghost v = node.addresses_view();
        match self.index_of(&name) {
            Some(i) => {
                self.nodes.set(i, node);
                proof {
                    assert forall|key: Seq<char>| #![auto] self@.contains_key(key)
                        == old(self)@.insert(k, v).contains_key(key) by {}
                    assert forall|key: Seq<char>| #![auto] self@.contains_key(key)
                        implies self@[key] == old(self)@.insert(k, v)[key] by {
                        let j = choose|j: int| 0 <= j < self.names@.len() && self.names@[j]@ == key;
                        self.lemma_entry(j);
                        if j != i {
                            old(self).lemma_entry(j);
                        }
                    }
                    assert(self@ =~= old(self)@.insert(k, v));
                }
            },
            None => {
                self.names.push(name);
                self.nodes.push(node);
                proof {
                    let n = old(self).names@.len() as int;
                    assert(self.names@[n]@ == k);
                    assert forall|key: Seq<char>| #![auto] self@.contains_key(key)
                        == old(self)@.insert(k, v).contains_key(key) by {
                        if old(self)@.contains_key(key) {
                            let j = choose|j: int| 0 <= j < old(self).names@.len() && old(self).names@[j]@ == key;
                            assert(self.names@[j]@ == key);
                        }
                    }
                    assert forall|key: Seq<char>| #![auto] self@.contains_key(key)
                        implies self@[key] == old(self)@.insert(k, v)[key] by {
                        let j = choose|j: int| 0 <= j < self.names@.len() && self.names@[j]@ == key;
                        self.lemma_entry(j);
                        if j != n {
                            old(self).lemma_entry(j);
                        }
                    }
                    assert(self@ =~= old(self)@.insert(k, v));
                }
            },
        }
    }

    /// Removes the node stored under `name`, if any.
    pub fn remove_node(&mut self, name: &String)
        requires
            old(self).wf(),
        ensures
            final(self).wf(),
            final(self)@ == old(self)@.remove(name@),
    {
        match self.index_of(name) {
            Some(i) => {
                let ghost last = (self.names@.len() - 1) as int;
                self.names.swap_remove(i);
                self.nodes.swap_remove(i);
                proof {
                    let o = old(self);
                    assert forall|key: Seq<char>| #![auto] self@.contains_key(key)
                        == o@.remove(name@).contains_key(key) by {
                        if o@.remove(name@).contains_key(key) {
                            let j = choose|j: int| 0 <= j < o.names@.len() && o.names@[j]@ == key;
                            if j == last {
                                assert(self.names@[i as int]@ == key);
                            } else {
                                assert(self.names@[j]@ == key);
                            }
                        }
                        if self@.contains_key(key) {
                            let j = choose|j: int| 0 <= j < self.names@.len() && self.names@[j]@ == key;
                            if j == i {
                                assert(o.names@[last]@ == key);
                            } else {
                                assert(o.names@[j]@ == key);
                            }
                        }
                    }
                    assert forall|key: Seq<char>| #![auto] self@.contains_key(key)
                        implies self@[key] == o@.remove(name@)[key] by {
                        let j = choose|j: int| 0 <= j < self.names@.len() && self.names@[j]@ == key;
                        self.lemma_entry(j);
                        if j == i {
                            o.lemma_entry(last);
                        } else {
                            o.lemma_entry(j);
                        }
                    }
                    assert(self@ =~= o@.remove(name@));
                }
            },
            None => {
                assert(self@ =~= old(self)@.remove(name@));
            },
        }
    }
}

/// The node table after one watch event.
pub open spec fn after_node_event(
    m: Map<Seq<char>, Seq<Seq<char>>>,
    ev: WatchEvent<RawNode>,
) -> Map<Seq<char>, Seq<Seq<char>>> {
    match ev {
        WatchEvent::Applied(raw) => match node_entry(raw) {
            Some(e) => m.insert(e.0, e.1),
            None => m,
        },
        WatchEvent::Deleted(raw) => match raw.name {
            Some(name) => m.remove(name@),
            None => m,
        },
        WatchEvent::Restarted(raws) => nodes_of(raws@),
    }
}

/// Builds the node table from a full list of raw nodes.
pub fn map_nodes(raws: &Vec<RawNode>) -> (r: NodeTable)
    ensures
        r.wf(),
        r@ == nodes_of(raws@),
{
    let mut t = NodeTable::new();
    let mut i: usize = 0;
    while i < raws.len()
        invariant
            i <= raws@.len(),
            t.wf(),
            t@ == nodes_of(raws@.take(i as int)),
        decreases raws.len() - i,
    {
        proof {
            assert(raws@.take(i + 1).drop_last() =~= raws@.take(i as int));
        }
        match map_node(&raws[i]) {
            Some((name, node)) => {
                t.upsert_node(name, node);
            },
            None => {},
        }
        i += 1;
    }
    proof {
        assert(raws@.take(raws@.len() as int) =~= raws@);
    }
    t
}

impl NodeTable {
    /// Applies one event of the node watch stream.
    pub fn apply_event(&mut self, ev: &WatchEvent<RawNode>)
        requires
            old(self).wf(),
        ensures
            final(self).wf(),
            final(self)@ == after_node_event(old(self)@, *ev),
    {
        match ev {
            WatchEvent::Applied(raw) => match map_node(raw) {
                Some((name, node)) => self.upsert_node(name, node),
                None => {},
            },
            WatchEvent::Deleted(raw) => match &raw.name {
                Some(name) => self.remove_node(name),
                None => {},
            },
            WatchEvent::Restarted(raws) => {
                *self = map_nodes(raws);
            },
        }
    }
}

} // verus!
