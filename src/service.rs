//! The balanced service: its pod selector and its port map, and how both are
//! read from a service object.

use vstd::prelude::*;
use crate::error::NodeBalancerError;
use crate::config::Config;
use crate::model::{RawService, RawServicePort, WatchEvent};

verus! {

/// Listen port to node port, as a list in which a later entry for a port
/// overrides an earlier one.
pub type PortMap = Vec<(u16, u16)>;

/// The view of a list of string pairs.
pub open spec fn pairs_view(v: Seq<(String, String)>) -> Seq<(Seq<char>, Seq<char>)> {
    v.map_values(|p: (String, String)| (p.0@, p.1@))
}

/// The map that a port list stands for: each port to its last listed value.
pub open spec fn port_map_view(pm: Seq<(u16, u16)>) -> Map<u16, u16>
    decreases pm.len(),
{
    if pm.len() == 0 {
        Map::empty()
    } else {
        port_map_view(pm.drop_last()).insert(pm.last().0, pm.last().1)
    }
}

/// The port list read from a service's ports: one entry for each port that
/// has a node port assigned, in order.
pub open spec fn port_map_of(ports: Seq<RawServicePort>) -> Seq<(u16, u16)>
    decreases ports.len(),
{
    if ports.len() == 0 {
        Seq::empty()
    } else {
        let rest = port_map_of(ports.drop_last());
        match ports.last().node_port {
            Some(np) => rest.push((ports.last().port as u16, np as u16)),
            None => rest,
        }
    }
}

/// The routing policy for the balanced service.
#[derive(Clone, Debug)]
pub struct BalancedService {
    pub selector: Vec<(String, String)>,
    pub port_map: PortMap,
}

impl BalancedService {
    pub fn new(selector: Vec<(String, String)>, port_map: PortMap) -> (r: BalancedService)
        ensures
            r.selector@ == selector@,
            r.port_map@ == port_map@,
    {
        BalancedService { selector, port_map }
    }

    /// The node port that `port` maps to.
    pub fn node_port(&self, port: u16) -> (r: Option<u16>)
        ensures
            r == (if port_map_view(self.port_map@).contains_key(port) {
                Some(port_map_view(self.port_map@)[port])
            } else {
                None::<u16>
            }),
    {
        let mut i: usize = self.port_map.len();
        while i > 0
            invariant
                i <= self.port_map@.len(),
                forall|j: int| i <= j < self.port_map@.len() ==> self.port_map@[j].0 != port,
            decreases i,
        {
            let e = self.port_map[i - 1];
            if e.0 == port {
                proof {
                    lemma_port_found(self.port_map@, port, i - 1);
                }
                return Some(e.1);
            }
            i -= 1;
        }
        proof {
            lemma_port_absent(self.port_map@, port);
        }
        None
    }
}

proof fn lemma_port_found(pm: Seq<(u16, u16)>, port: u16, k: int)
    requires
        0 <= k < pm.len(),
        pm[k].0 == port,
        forall|j: int| k < j < pm.len() ==> pm[j].0 != port,
    ensures
        port_map_view(pm).contains_key(port),
        port_map_view(pm)[port] == pm[k].1,
    decreases pm.len(),
{
    if k < pm.len() - 1 {
        lemma_port_found(pm.drop_last(), port, k);
    }
}

proof fn lemma_port_absent(pm: Seq<(u16, u16)>, port: u16)
    requires
        forall|j: int| 0 <= j < pm.len() ==> pm[j].0 != port,
    ensures
        !port_map_view(pm).contains_key(port),
    decreases pm.len(),
{
    if pm.len() > 0 {
        lemma_port_absent(pm.drop_last(), port);
    }
}

/// Copies a list of string pairs.
pub fn clone_pairs(v: &Vec<(String, String)>) -> (r: Vec<(String, String)>)
    ensures
        pairs_view(r@) == pairs_view(v@),
{
    let mut r: Vec<(String, String)> = Vec::new();
    let mut i: usize = 0;
    while i < v.len()
        invariant
            i <= v.len(),
            r@.len() == i,
            forall|j: int| 0 <= j < i ==> #[trigger] r@[j].0@ == v@[j].0@ && r@[j].1@ == v@[j].1@,
        decreases v.len() - i,
    {
        let k = v[i].0.clone();
        let x = v[i].1.clone();
        r.push((k, x));
        i += 1;
    }
    assert(pairs_view(r@) =~= pairs_view(v@));
    r
}

/// Reads the port list of a service: every port with a node port, in order.
pub fn parse_port_map(ports: &Vec<RawServicePort>) -> (r: PortMap)
    ensures
        r@ == port_map_of(ports@),
{
    let mut r: PortMap = Vec::new();
    let mut i: usize = 0;
    while i < ports.len()
        invariant
            i <= ports@.len(),
            r@ == port_map_of(ports@.take(i as int)),
        decreases ports.len() - i,
    {
        proof {
            assert(ports@.take(i + 1).drop_last() =~= ports@.take(i as int));
        }
        match ports[i].node_port {
            Some(np) => {
                r.push((ports[i].port as u16, np as u16));
            },
            None => {},
        }
        i += 1;
    }
    proof {
        assert(ports@.take(ports@.len() as int) =~= ports@);
    }
    r
}

/// The name under which a service type is reported in an error.
pub open spec fn reported_type(t: Option<String>) -> Seq<char> {
    match t {
        Some(s) => s@,
        None => "None"@,
    }
}

/// Whether a service type is "NodePort".
pub open spec fn is_node_port(t: Option<String>) -> bool {
    match t {
        Some(s) => s@ == "NodePort"@,
        None => false,
    }
}

/// Reads the routing policy of a service object. It fails with `MissingSpec`
/// when there is no spec and with `WrongServiceType` when the type is not
/// NodePort.
pub fn map_service(raw: &RawService) -> (r: Result<BalancedService, NodeBalancerError>)
    ensures
        raw.spec is None <==> r matches Err(NodeBalancerError::MissingSpec),
        raw.spec matches Some(spec) && !is_node_port(spec.type_) <==> r matches Err(
            NodeBalancerError::WrongServiceType(_),
        ),
        r matches Err(NodeBalancerError::WrongServiceType(t)) ==> t@ == reported_type(
            raw.spec.unwrap().type_,
        ),
        raw.spec matches Some(spec) && is_node_port(spec.type_) <==> r is Ok,
        r matches Ok(s) ==> pairs_view(s.selector@) == pairs_view(raw.spec.unwrap().selector@)
            && s.port_map@ == port_map_of(raw.spec.unwrap().ports@),
{
    match &raw.spec {
        None => Err(NodeBalancerError::MissingSpec),
        Some(spec) => {
            let node_port = "NodePort".to_string();
            match &spec.type_ {
                Some(t) => {
                    if *t == node_port {
                        Ok(BalancedService::new(clone_pairs(&spec.selector), parse_port_map(&spec.ports)))
                    } else {
                        Err(NodeBalancerError::WrongServiceType(t.clone()))
                    }
                },
                None => Err(NodeBalancerError::WrongServiceType("None".to_string())),
            }
        },
    }
}

/// A service descriptor as its selector and port list.
pub open spec fn descriptor(s: BalancedService) -> (Seq<(Seq<char>, Seq<char>)>, Seq<(u16, u16)>) {
    (pairs_view(s.selector@), s.port_map@)
}

/// The descriptor that a stored service stands for, if any.
pub open spec fn active_descriptor(s: Option<BalancedService>) -> Option<(Seq<(Seq<char>, Seq<char>)>, Seq<(u16, u16)>)> {
    match s {
        Some(svc) => Some(descriptor(svc)),
        None => None,
    }
}

/// The descriptor that a service object maps to, or nothing when it is
/// malformed (no spec, or not of type NodePort).
pub open spec fn service_of(raw: RawService) -> Option<(Seq<(Seq<char>, Seq<char>)>, Seq<(u16, u16)>)> {
    match raw.spec {
        Some(spec) => if is_node_port(spec.type_) {
            Some((pairs_view(spec.selector@), port_map_of(spec.ports@)))
        } else {
            None
        },
        None => None,
    }
}

/// Whether a service object is the configured target, by name and namespace.
pub open spec fn is_target_object(raw: RawService, config: Config) -> bool {
    match (raw.name, raw.namespace) {
        (Some(name), Some(namespace)) => config.is_target_spec(name@, namespace@),
        _ => false,
    }
}

/// The position of the last target object in a list, if any.
pub open spec fn last_target(raws: Seq<RawService>, config: Config) -> Option<int>
    decreases raws.len(),
{
    if raws.len() == 0 {
        None
    } else if is_target_object(raws.last(), config) {
        Some(raws.len() - 1)
    } else {
        last_target(raws.drop_last(), config)
    }
}

/// The service descriptor after one watch event. An update or resync that
/// shows the target malformed, and a resync that no longer lists it, clear it.
pub open spec fn after_service_event(
    d: Option<(Seq<(Seq<char>, Seq<char>)>, Seq<(u16, u16)>)>,
    ev: WatchEvent<RawService>,
    config: Config,
) -> Option<(Seq<(Seq<char>, Seq<char>)>, Seq<(u16, u16)>)> {
    match ev {
        WatchEvent::Applied(raw) => if is_target_object(raw, config) {
            service_of(raw)
        } else {
            d
        },
        WatchEvent::Deleted(raw) => if is_target_object(raw, config) {
            None
        } else {
            d
        },
        WatchEvent::Restarted(raws) => match last_target(raws@, config) {
            Some(i) => service_of(raws@[i]),
            None => None,
        },
    }
}

/// Whether an event replaces the descriptor with a valid one, after which
/// the pod roster must be rebuilt against the new selector.
pub open spec fn replaces_service(ev: WatchEvent<RawService>, config: Config) -> bool {
    match ev {
        WatchEvent::Applied(raw) => is_target_object(raw, config) && service_of(raw) is Some,
        WatchEvent::Deleted(_) => false,
        WatchEvent::Restarted(raws) => match last_target(raws@, config) {
            Some(i) => service_of(raws@[i]) is Some,
            None => false,
        },
    }
}

/// Whether a service object is the configured target.
fn is_target_service(raw: &RawService, config: &Config) -> (r: bool)
    ensures
        r == is_target_object(*raw, *config),
{
    match (&raw.name, &raw.namespace) {
        (Some(name), Some(namespace)) => config.is_target(name, namespace),
        _ => false,
    }
}

/// Replaces the descriptor with what the target object maps to; returns
/// whether that is a valid descriptor.
fn install_service(service: &mut Option<BalancedService>, raw: &RawService) -> (replaced: bool)
    ensures
        active_descriptor(*final(service)) == service_of(*raw),
        replaced == service_of(*raw) is Some,
{
    match map_service(raw) {
        Ok(s) => {
            *service = Some(s);
            true
        },
        Err(_) => {
            *service = None;
            false
        },
    }
}

/// Applies one event of the service watch stream to the stored descriptor.
/// Returns whether the descriptor was replaced by a valid one, in which case
/// the caller re-seeds the pods.
pub fn apply_service_event(service: &mut Option<BalancedService>, config: &Config, ev: &WatchEvent<RawService>) -> (reseed: bool)
    ensures
        active_descriptor(*final(service)) == after_service_event(active_descriptor(*old(service)), *ev, *config),
        reseed == replaces_service(*ev, *config),
{
    match ev {
        WatchEvent::Applied(raw) => {
            if is_target_service(raw, config) {
                install_service(service, raw)
            } else {
                false
            }
        },
        WatchEvent::Deleted(raw) => {
            if is_target_service(raw, config) {
                *service = None;
            }
            false
        },
        WatchEvent::Restarted(raws) => {
            let mut found: Option<usize> = None;
            let mut i: usize = 0;
            while i < raws.len()
                invariant
                    i <= raws@.len(),
                    match found {
                        Some(j) => j < i && last_target(raws@.take(i as int), *config) == Some(j as int),
                        None => last_target(raws@.take(i as int), *config) is None,
                    },
                decreases raws.len() - i,
            {
                proof {
                    assert(raws@.take(i + 1).drop_last() =~= raws@.take(i as int));
                }
                if is_target_service(&raws[i], config) {
                    found = Some(i);
                }
                i += 1;
            }
            proof {
                assert(raws@.take(raws@.len() as int) =~= raws@);
            }
            match found {
                Some(j) => install_service(service, &raws[j]),
                None => {
                    *service = None;
                    false
                },
            }
        },
    }
}

} // verus!
