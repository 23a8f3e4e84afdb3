//! The errors that routing decisions and object mapping produce.

use vstd::prelude::*;

verus! {

/// Why a destination could not be chosen or an object could not be mapped.
#[derive(Clone, Debug)]
pub enum NodeBalancerError {
    NoPodsAvailable,
    UnknownNode(String),
    NoAddressesAvailable(String),
    ServiceNotFound,
    UnknownPort(u16),
    MissingSpec,
    WrongServiceType(String),
}

} // verus!
