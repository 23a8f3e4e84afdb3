//! Plain-value shapes of the cluster objects that the router reads, and the
//! events that a watch stream delivers.

use vstd::prelude::*;

verus! {

/// One entry of a node's reported address list.
#[derive(Clone, Debug)]
pub struct NodeAddress {
    pub type_: String,
    pub address: String,
}

/// A node as the cluster API reports it: its name and, when it has a
/// status, the addresses listed there.
#[derive(Clone, Debug)]
pub struct RawNode {
    pub name: Option<String>,
    pub addresses: Option<Vec<NodeAddress>>,
}

/// One port entry of a service spec.
#[derive(Clone, Debug)]
pub struct RawServicePort {
    pub port: i32,
    pub node_port: Option<i32>,
}

/// The spec part of a service.
#[derive(Clone, Debug)]
pub struct RawServiceSpec {
    pub type_: Option<String>,
    pub selector: Vec<(String, String)>,
    pub ports: Vec<RawServicePort>,
}

/// A service as the cluster API reports it.
#[derive(Clone, Debug)]
pub struct RawService {
    pub name: Option<String>,
    pub namespace: Option<String>,
    pub spec: Option<RawServiceSpec>,
}

/// A pod as the cluster API reports it; `node_name` is absent while the pod
/// is unscheduled or has no spec.
#[derive(Clone, Debug)]
pub struct RawPod {
    pub name: Option<String>,
    pub labels: Vec<(String, String)>,
    pub node_name: Option<String>,
}

/// One event of a watch stream.
#[derive(Clone, Debug)]
pub enum WatchEvent<T> {
    Applied(T),
    Deleted(T),
    Restarted(Vec<T>),
}

/// The view of a vector of strings as a sequence of character sequences.
pub open spec fn strings_view(v: Seq<String>) -> Seq<Seq<char>> {
    v.map_values(|s: String| s@)
}

} // verus!
