//! Destination selection: drawing a backend pod and resolving it to a node
//! address and the node port of the requested listen port.

use vstd::prelude::*;
use rand::Rng;
use crate::error::NodeBalancerError;
use crate::node::NodeTable;
use crate::pod::PodRoster;
use crate::service::{BalancedService, port_map_view};

verus! {

/// Relies on rand's `Rng::gen_range` with the thread-local generator: it
/// returns a value of the half-open range, drawn uniformly, and panics on an
/// empty range.
#[verifier::external_body]
pub(crate) fn random_index(len: usize) -> (r: usize)
    requires
        len > 0,
    ensures
        r < len,
{
    rand::thread_rng().gen_range(0..len)
}

/// The node port that the active service maps `port` to, if any.
pub open spec fn service_port(service: Option<BalancedService>, port: u16) -> Option<u16> {
    match service {
        Some(s) => if port_map_view(s.port_map@).contains_key(port) {
            Some(port_map_view(s.port_map@)[port])
        } else {
            None
        },
        None => None,
    }
}

/// Resolves the node `node_name` and the listen port `port` to a destination,
/// taking the node's address at `address_index`.
pub fn destination_for(
    nodes: &NodeTable,
    service: &Option<BalancedService>,
    node_name: &String,
    port: u16,
    address_index: usize,
) -> (r: Result<(String, u16), NodeBalancerError>)
    requires
        nodes.wf(),
        nodes@.contains_key(node_name@) ==> address_index < nodes@[node_name@].len(),
    ensures
        !nodes@.contains_key(node_name@) ==> (r matches Err(NodeBalancerError::UnknownNode(n))
            && n@ == node_name@),
        nodes@.contains_key(node_name@) && service is None ==> r matches Err(
            NodeBalancerError::ServiceNotFound,
        ),
        nodes@.contains_key(node_name@) && service is Some && service_port(*service, port) is None
            ==> (r matches Err(NodeBalancerError::UnknownPort(p)) && p == port),
        nodes@.contains_key(node_name@) && service_port(*service, port) is Some ==> (r matches Ok((ip, np))
            && ip@ == nodes@[node_name@][address_index as int] && np == service_port(*service, port).unwrap()),
{
    let node = match nodes.get(node_name) {
        Some(node) => node,
        None => {
            return Err(NodeBalancerError::UnknownNode(node_name.clone()));
        },
    };
    let ip = node.addresses[address_index].clone();
    match service {
        None => Err(NodeBalancerError::ServiceNotFound),
        Some(s) => match s.node_port(port) {
            Some(np) => Ok((ip, np)),
            None => Err(NodeBalancerError::UnknownPort(port)),
        },
    }
}

/// Picks a destination for a connection on `port`: a pod drawn uniformly from
/// the roster, an address drawn uniformly from its node, and the node port
/// that the service maps `port` to. Stored nodes always have an address, so
/// `NoAddressesAvailable` does not arise.
pub fn get_destination(
    nodes: &NodeTable,
    service: &Option<BalancedService>,
    pods: &PodRoster,
    port: u16,
) -> (r: Result<(String, u16), NodeBalancerError>)
    requires
        nodes.wf(),
        pods.wf(),
    ensures
        pods@.len() == 0 <==> r matches Err(NodeBalancerError::NoPodsAvailable),
        r matches Ok((ip, np)) ==> exists|k: Seq<char>|
            #![auto]
            pods@.contains_key(k) && nodes@.contains_key(pods@[k].0) && nodes@[pods@[k].0].contains(ip@),
        r matches Ok((ip, np)) ==> service_port(*service, port) == Some(np),
        r matches Err(NodeBalancerError::UnknownNode(n)) ==> exists|k: Seq<char>|
            #![auto]
            pods@.contains_key(k) && pods@[k].0 == n@ && !nodes@.contains_key(n@),
        r matches Err(NodeBalancerError::ServiceNotFound) ==> service is None,
        r matches Err(NodeBalancerError::UnknownPort(p)) ==> p == port && service is Some
            && service_port(*service, port) is None,
        !(r matches Err(NodeBalancerError::NoAddressesAvailable(_))),
        !(r matches Err(NodeBalancerError::MissingSpec)),
        !(r matches Err(NodeBalancerError::WrongServiceType(_))),
        pods@.len() > 0 && (forall|k: Seq<char>| #![auto] pods@.contains_key(k) ==> nodes@.contains_key(pods@[k].0))
            ==> (service is None <==> r matches Err(NodeBalancerError::ServiceNotFound)),
        pods@.len() > 0 && (forall|k: Seq<char>| #![auto] pods@.contains_key(k) ==> nodes@.contains_key(pods@[k].0))
            && service is Some ==> (service_port(*service, port) is Some <==> r is Ok),
        pods@.len() > 0 && (forall|k: Seq<char>| #![auto] pods@.contains_key(k) ==> !nodes@.contains_key(pods@[k].0))
            ==> r matches Err(NodeBalancerError::UnknownNode(_)),
{
    let count = pods.roster_len();
    if count == 0 {
        return Err(NodeBalancerError::NoPodsAvailable);
    }
    let i = random_index(count);
    let (name, pod) = pods.pod_at(i);
    let ghost k = name@;
    let address_count = match nodes.get(&pod.node) {
        Some(node) => node.addresses.len(),
        None => 0,
    };
    let address_index = if address_count > 0 {
        random_index(address_count)
    } else {
        0
    };
    let r = destination_for(nodes, service, &pod.node, port, address_index);
    proof {
        assert(pods@.contains_key(k) && pods@[k].0 == pod.node@);
        if nodes@.contains_key(pod.node@) {
            assert(nodes@[pod.node@].contains(nodes@[pod.node@][address_index as int]));
        }
    }
    r
}

} // verus!
