//! The settings of one balancer instance.

use vstd::prelude::*;

verus! {

/// Which service is balanced, on which ports, and where to listen.
#[derive(Clone, Debug)]
pub struct Config {
    pub service_namespace: String,
    pub service_name: String,
    pub ports: Vec<u16>,
    pub listen_addr: String,
}

impl Config {
    /// Whether an object with this name and namespace is the balanced service.
    pub open spec fn is_target_spec(&self, name: Seq<char>, namespace: Seq<char>) -> bool {
        name == self.service_name@ && namespace == self.service_namespace@
    }

    pub fn is_target(&self, name: &String, namespace: &String) -> (r: bool)
        ensures
            r == self.is_target_spec(name@, namespace@),
    {
        *name == self.service_name && *namespace == self.service_namespace
    }
}

} // verus!
