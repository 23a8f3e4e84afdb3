//! Backend pods: selector matching, mapping the cluster's pod objects, and
//! the roster from which destinations are drawn.

use vstd::prelude::*;
use crate::model::{RawPod, WatchEvent, strings_view};
use crate::router::random_index;
use crate::service::{BalancedService, pairs_view};

verus! {

/// A pod eligible to receive traffic: the node it runs on and the service it
/// backs.
#[derive(Clone, Debug)]
pub struct BackendPod {
    pub node: String,
    pub associated_service: String,
}

impl BackendPod {
    /// The pod's node name and service name.
    pub open spec fn entry(&self) -> (Seq<char>, Seq<char>) {
        (self.node@, self.associated_service@)
    }

    pub fn new(node: String, associated_service: String) -> (r: BackendPod)
        ensures
            r.node@ == node@,
            r.associated_service@ == associated_service@,
    {
        BackendPod { node, associated_service }
    }
}

/// The pods eligible for selection: a roster of distinct names, each paired
/// with the pod's details. A name is in the roster exactly when its details
/// are stored, so a lookup of a name read from the roster never misses.
pub struct PodRoster {
    names: Vec<String>,
    pods: Vec<BackendPod>,
}

impl View for PodRoster {
    type V = Map<Seq<char>, (Seq<char>, Seq<char>)>;

    closed spec fn view(&self) -> Map<Seq<char>, (Seq<char>, Seq<char>)> {
        Map::new(
            |k: Seq<char>| exists|i: int| 0 <= i < self.names@.len() && self.names@[i]@ == k,
            |k: Seq<char>|
                self.pods@[choose|i: int| 0 <= i < self.names@.len() && self.names@[i]@ == k].entry(),
        )
    }
}

impl PodRoster {
    pub closed spec fn wf(&self) -> bool {
        &&& self.names@.len() == self.pods@.len()
        &&& forall|i: int, j: int|
            0 <= i < j < self.names@.len() ==> self.names@[i]@ != self.names@[j]@
    }

    proof fn lemma_entry(&self, i: int)
        requires
            self.wf(),
            0 <= i < self.names@.len(),
        ensures
            self@.contains_key(self.names@[i]@),
            self@[self.names@[i]@] == self.pods@[i].entry(),
    {
        let k = self.names@[i]@;
        assert(self@.contains_key(k));
        let j = choose|j: int| 0 <= j < self.names@.len() && self.names@[j]@ == k;
        assert(i == j);
    }

    pub fn new() -> (r: PodRoster)
        ensures
            r.wf(),
            r@ == Map::<Seq<char>, (Seq<char>, Seq<char>)>::empty(),
    {
        let r = PodRoster { names: Vec::new(), pods: Vec::new() };
        assert(r@ =~= Map::<Seq<char>, (Seq<char>, Seq<char>)>::empty());
        r
    }

    proof fn lemma_dom_len(&self)
        requires
            self.wf(),
        ensures
            self@.dom().finite(),
            self@.dom().len() == self.names@.len(),
        decreases self.names@.len(),
    {
        let ks = strings_view(self.names@);
        assert(ks.no_duplicates()) by {
            assert forall|i: int, j: int| 0 <= i < ks.len() && 0 <= j < ks.len() && i != j
                implies ks[i] != ks[j] by {
                if i < j {
                } else {
                }
            }
        }
        assert(self@.dom() =~= ks.to_set()) by {
            assert forall|k: Seq<char>| self@.dom().contains(k) implies ks.to_set().contains(k) by {
                let i = choose|i: int| 0 <= i < self.names@.len() && self.names@[i]@ == k;
                assert(ks[i] == k);
            }
            assert forall|k: Seq<char>| ks.to_set().contains(k) implies self@.dom().contains(k) by {
                let i = choose|i: int| 0 <= i < ks.len() && ks[i] == k;
                assert(self.names@[i]@ == k);
            }
        }
        ks.unique_seq_to_set();
    }

    fn index_of(&self, name: &String) -> (r: Option<usize>)
        requires
            self.wf(),
        ensures
            match r {
                Some(i) => i < self.names@.len() && self.names@[i as int]@ == name@,
                None => !self@.contains_key(name@),
            },
    {
        let mut i: usize = 0;
        while i < self.names.len()
            invariant
                i <= self.names@.len(),
                forall|j: int| 0 <= j < i ==> self.names@[j]@ != name@,
            decreases self.names.len() - i,
        {
            if self.names[i] == *name {
                return Some(i);
            }
            i += 1;
        }
        None
    }

    /// The pod stored under `name`.
    pub fn read_pod(&self, name: &String) -> (r: Option<&BackendPod>)
        requires
            self.wf(),
        ensures
            match r {
                Some(n) => self@.contains_key(name@) && self@[name@] == n.entry(),
                None => !self@.contains_key(name@),
            },
    {
        match self.index_of(name) {
            Some(i) => {
                proof {
                    self.lemma_entry(i as int);
                }
                Some(&self.pods[i])
            },
            None => None,
        }
    }

    /// Stores `pod` under `name`, replacing what was there.
    pub fn upsert_pod(&mut self, name: String, pod: BackendPod)
        requires
            old(self).wf(),
        ensures
            final(self).wf(),
            final(self)@ == old(self)@.insert(name@, pod.entry()),
    {
        let ghost k = name@;
        let ghost v = pod.entry();
        match self.index_of(&name) {
            Some(i) => {
                self.pods.set(i, pod);
                proof {
                    assert forall|key: Seq<char>| #![auto] self@.contains_key(key)
                        == old(self)@.insert(k, v).contains_key(key) by {}
                    assert forall|key: Seq<char>| #![auto] self@.contains_key(key)
                        implies self@[key] == old(self)@.insert(k, v)[key] by {
                        let j = choose|j: int| 0 <= j < self.names@.len() && self.names@[j]@ == key;
                        self.lemma_entry(j);
                        if j != i {
                            old(self).lemma_entry(j);
                        }
                    }
                    assert(self@ =~= old(self)@.insert(k, v));
                }
            },
            None => {
                self.names.push(name);
                self.pods.push(pod);
                proof {
                    let n = old(self).names@.len() as int;
                    assert(self.names@[n]@ == k);
                    assert forall|key: Seq<char>| #![auto] self@.contains_key(key)
                        == old(self)@.insert(k, v).contains_key(key) by {
                        if old(self)@.contains_key(key) {
                            let j = choose|j: int| 0 <= j < old(self).names@.len() && old(self).names@[j]@ == key;
                            assert(self.names@[j]@ == key);
                        }
                    }
                    assert forall|key: Seq<char>| #![auto] self@.contains_key(key)
                        implies self@[key] == old(self)@.insert(k, v)[key] by {
                        let j = choose|j: int| 0 <= j < self.names@.len() && self.names@[j]@ == key;
                        self.lemma_entry(j);
                        if j != n {
                            old(self).lemma_entry(j);
                        }
                    }
                    assert(self@ =~= old(self)@.insert(k, v));
                }
            },
        }
    }

    /// Removes the pod stored under `name`, if any.
    pub fn remove_pod(&mut self, name: &String)
        requires
            old(self).wf(),
        ensures
            final(self).wf(),
            final(self)@ == old(self)@.remove(name@),
    {
        match self.index_of(name) {
            Some(i) => {
                let ghost last = (self.names@.len() - 1) as int;
                self.names.swap_remove(i);
                self.pods.swap_remove(i);
                proof {
                    let o = old(self);
                    assert forall|key: Seq<char>| #![auto] self@.contains_key(key)
                        == o@.remove(name@).contains_key(key) by {
                        if o@.remove(name@).contains_key(key) {
                            let j = choose|j: int| 0 <= j < o.names@.len() && o.names@[j]@ == key;
                            if j == last {
                                assert(self.names@[i as int]@ == key);
                            } else {
                                assert(self.names@[j]@ == key);
                            }
                        }
                        if self@.contains_key(key) {
                            let j = choose|j: int| 0 <= j < self.names@.len() && self.names@[j]@ == key;
                            if j == i {
                                assert(o.names@[last]@ == key);
                            } else {
                                assert(o.names@[j]@ == key);
                            }
                        }
                    }
                    assert forall|key: Seq<char>| #![auto] self@.contains_key(key)
                        implies self@[key] == o@.remove(name@)[key] by {
                        let j = choose|j: int| 0 <= j < self.names@.len() && self.names@[j]@ == key;
                        self.lemma_entry(j);
                        if j == i {
                            o.lemma_entry(last);
                        } else {
                            o.lemma_entry(j);
                        }
                    }
                    assert(self@ =~= o@.remove(name@));
                }
            },
            None => {
                assert(self@ =~= old(self)@.remove(name@));
            },
        }
    }
}

impl PodRoster {
    /// The roster: the stored pod names in selection order.
    pub closed spec fn roster(&self) -> Seq<Seq<char>> {
        strings_view(self.names@)
    }

    /// Every name in the roster has its details stored, every stored name is
    /// in the roster, and the roster holds each name once.
    pub proof fn lemma_roster_consistent(&self)
        requires
            self.wf(),
        ensures
            self.roster().len() == self@.len(),
            self.roster().no_duplicates(),
            forall|i: int| 0 <= i < self.roster().len() ==> #[trigger] self@.contains_key(self.roster()[i]),
            forall|k: Seq<char>| #[trigger] self@.contains_key(k) ==> self.roster().contains(k),
    {
        self.lemma_dom_len();
        assert forall|i: int| 0 <= i < self.roster().len() implies #[trigger] self@.contains_key(self.roster()[i]) by {
            self.lemma_entry(i);
        }
        assert forall|k: Seq<char>| #[trigger] self@.contains_key(k) implies self.roster().contains(k) by {
            let i = choose|i: int| 0 <= i < self.names@.len() && self.names@[i]@ == k;
            assert(self.roster()[i] == k);
        }
        assert forall|i: int, j: int| 0 <= i < self.roster().len() && 0 <= j < self.roster().len() && i != j
            implies self.roster()[i] != self.roster()[j] by {
            if i < j {
            } else {
            }
        }
    }

    /// The number of pods in the roster.
    pub fn roster_len(&self) -> (r: usize)
        requires
            self.wf(),
        ensures
            r == self.roster().len(),
            r == self@.len(),
    {
        proof {
            self.lemma_dom_len();
        }
        self.names.len()
    }

    /// A name drawn uniformly from the roster, or `None` when it is empty.
    pub fn random_pod_name(&self) -> (r: Option<&String>)
        requires
            self.wf(),
        ensures
            r is None <==> self@.len() == 0,
            r matches Some(name) ==> self@.contains_key(name@),
    {
        let count = self.roster_len();
        if count == 0 {
            None
        } else {
            let (name, _) = self.pod_at(random_index(count));
            Some(name)
        }
    }

    /// The name at position `i` of the roster, with its details.
    pub fn pod_at(&self, i: usize) -> (r: (&String, &BackendPod))
        requires
            self.wf(),
            i < self.roster().len(),
        ensures
            r.0@ == self.roster()[i as int],
            self@.contains_key(r.0@),
            self@[r.0@] == r.1.entry(),
    {
        proof {
            self.lemma_entry(i as int);
        }
        (&self.names[i], &self.pods[i])
    }
}

/// Whether `labels` carry the pair `(k, v)`.
pub open spec fn has_label(labels: Seq<(Seq<char>, Seq<char>)>, k: Seq<char>, v: Seq<char>) -> bool {
    labels.contains((k, v))
}

/// Whether every key of the selector is among the labels with an equal value.
pub open spec fn selects(selector: Seq<(Seq<char>, Seq<char>)>, labels: Seq<(Seq<char>, Seq<char>)>) -> bool {
    forall|i: int| 0 <= i < selector.len() ==> has_label(labels, #[trigger] selector[i].0, selector[i].1)
}

/// Tests a pod's labels against a selector. An empty selector matches every
/// pod.
pub fn selector_matches(selector: &Vec<(String, String)>, labels: &Vec<(String, String)>) -> (r: bool)
    ensures
        r == selects(pairs_view(selector@), pairs_view(labels@)),
{
    let ghost sel = pairs_view(selector@);
    let ghost lab = pairs_view(labels@);
    let mut i: usize = 0;
    while i < selector.len()
        invariant
            i <= selector@.len(),
            sel == pairs_view(selector@),
            lab == pairs_view(labels@),
            forall|j: int| 0 <= j < i ==> has_label(lab, #[trigger] sel[j].0, sel[j].1),
        decreases selector.len() - i,
    {
        let key = &selector[i].0;
        let value = &selector[i].1;
        let mut found = false;
        let mut j: usize = 0;
        while j < labels.len()
            invariant
                j <= labels@.len(),
                i < selector@.len(),
                key@ == sel[i as int].0,
                value@ == sel[i as int].1,
                lab == pairs_view(labels@),
                found ==> has_label(lab, key@, value@),
                !found ==> forall|m: int| 0 <= m < j ==> lab[m] != (key@, value@),
            decreases labels.len() - j,
        {
            if labels[j].0 == *key && labels[j].1 == *value {
                found = true;
                proof {
                    assert(lab[j as int] == (key@, value@));
                }
            }
            j += 1;
        }
        if !found {
            proof {
                assert(!lab.contains((key@, value@)));
            }
            return false;
        }
        i += 1;
    }
    true
}

/// The label query that lists a selector's pairs as `key=value`, separated by
/// commas.
pub open spec fn selector_query(selector: Seq<(Seq<char>, Seq<char>)>) -> Seq<char>
    decreases selector.len(),
{
    if selector.len() == 0 {
        Seq::empty()
    } else if selector.len() == 1 {
        selector[0].0 + "="@ + selector[0].1
    } else {
        selector_query(selector.drop_last()) + ","@ + selector.last().0 + "="@ + selector.last().1
    }
}

/// Writes a selector as a label query for the cluster API.
pub fn build_selector(selector: &Vec<(String, String)>) -> (r: String)
    ensures
        r@ == selector_query(pairs_view(selector@)),
{
    let ghost sel = pairs_view(selector@);
    let mut r = String::new();
    let mut i: usize = 0;
    while i < selector.len()
        invariant
            i <= selector@.len(),
            sel == pairs_view(selector@),
            r@ == selector_query(sel.take(i as int)),
        decreases selector.len() - i,
    {
        proof {
            assert(sel.take(i + 1).drop_last() =~= sel.take(i as int));
        }
        if i > 0 {
            r.append(",");
        }
        r.append(selector[i].0.as_str());
        r.append("=");
        r.append(selector[i].1.as_str());
        i += 1;
    }
    proof {
        assert(sel.take(sel.len() as int) =~= sel);
    }
    r
}

/// The selector of the active service, if there is one.
pub open spec fn selector_of(service: Option<BalancedService>) -> Option<Seq<(Seq<char>, Seq<char>)>> {
    match service {
        Some(s) => Some(pairs_view(s.selector@)),
        None => None,
    }
}

/// What a raw pod maps to: its name and details when it has a name, an
/// assigned node, and labels that the active selector matches; nothing when
/// there is no active selector.
pub open spec fn pod_entry(
    raw: RawPod,
    selector: Option<Seq<(Seq<char>, Seq<char>)>>,
    service_name: Seq<char>,
) -> Option<(Seq<char>, (Seq<char>, Seq<char>))> {
    match (raw.name, raw.node_name, selector) {
        (Some(name), Some(node), Some(sel)) => if selects(sel, pairs_view(raw.labels@)) {
            Some((name@, (node@, service_name)))
        } else {
            None
        },
        _ => None,
    }
}

/// The pod details built from a list of raw pods, a later pod of the same
/// name replacing an earlier one.
pub open spec fn pods_of(
    raws: Seq<RawPod>,
    selector: Option<Seq<(Seq<char>, Seq<char>)>>,
    service_name: Seq<char>,
) -> Map<Seq<char>, (Seq<char>, Seq<char>)>
    decreases raws.len(),
{
    if raws.len() == 0 {
        Map::empty()
    } else {
        let rest = pods_of(raws.drop_last(), selector, service_name);
        match pod_entry(raws.last(), selector, service_name) {
            Some(e) => rest.insert(e.0, e.1),
            None => rest,
        }
    }
}

/// Maps a raw pod against the active service; `None` when the pod is not an
/// active backend.
pub fn map_pod(raw: &RawPod, service: &Option<BalancedService>, service_name: &String) -> (r: Option<(String, BackendPod)>)
    ensures
        match r {
            Some((name, pod)) => pod_entry(*raw, selector_of(*service), service_name@) == Some((name@, pod.entry())),
            None => pod_entry(*raw, selector_of(*service), service_name@) is None,
        },
{
    match (&raw.name, &raw.node_name, service) {
        (Some(name), Some(node), Some(svc)) => {
            if selector_matches(&svc.selector, &raw.labels) {
                Some((name.clone(), BackendPod::new(node.clone(), service_name.clone())))
            } else {
                None
            }
        },
        _ => None,
    }
}

/// Builds the roster from a full list of raw pods.
pub fn map_pods(raws: &Vec<RawPod>, service: &Option<BalancedService>, service_name: &String) -> (r: PodRoster)
    ensures
        r.wf(),
        r@ == pods_of(raws@, selector_of(*service), service_name@),
{
    let mut t = PodRoster::new();
    let mut i: usize = 0;
    while i < raws.len()
        invariant
            i <= raws@.len(),
            t.wf(),
            t@ == pods_of(raws@.take(i as int), selector_of(*service), service_name@),
        decreases raws.len() - i,
    {
        proof {
            assert(raws@.take(i + 1).drop_last() =~= raws@.take(i as int));
        }
        match map_pod(&raws[i], service, service_name) {
            Some((name, pod)) => {
                t.upsert_pod(name, pod);
            },
            None => {},
        }
        i += 1;
    }
    proof {
        assert(raws@.take(raws@.len() as int) =~= raws@);
    }
    t
}

/// The pod details after one watch event.
pub open spec fn after_pod_event(
    m: Map<Seq<char>, (Seq<char>, Seq<char>)>,
    ev: WatchEvent<RawPod>,
    selector: Option<Seq<(Seq<char>, Seq<char>)>>,
    service_name: Seq<char>,
) -> Map<Seq<char>, (Seq<char>, Seq<char>)> {
    match ev {
        WatchEvent::Applied(raw) => match pod_entry(raw, selector, service_name) {
            Some(e) => m.insert(e.0, e.1),
            None => m,
        },
        WatchEvent::Deleted(raw) => match raw.name {
            Some(name) => m.remove(name@),
            None => m,
        },
        WatchEvent::Restarted(raws) => pods_of(raws@, selector, service_name),
    }
}

impl PodRoster {
    /// Applies one event of the pod watch stream, matching pods against the
    /// active service as it stands now.
    pub fn apply_event(&mut self, ev: &WatchEvent<RawPod>, service: &Option<BalancedService>, service_name: &String)
        requires
            old(self).wf(),
        ensures
            final(self).wf(),
            final(self)@ == after_pod_event(old(self)@, *ev, selector_of(*service), service_name@),
    {
        match ev {
            WatchEvent::Applied(raw) => match map_pod(raw, service, service_name) {
                Some((name, pod)) => self.upsert_pod(name, pod),
                None => {},
            },
            WatchEvent::Deleted(raw) => match &raw.name {
                Some(name) => self.remove_pod(name),
                None => {},
            },
            WatchEvent::Restarted(raws) => {
                *self = map_pods(raws, service, service_name);
            },
        }
    }
}

} // verus!
