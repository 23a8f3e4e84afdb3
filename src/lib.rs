//! Routing state and destination selection for a layer-4 load balancer in
//! front of one NodePort service.

pub mod config;
pub mod error;
pub mod model;
pub mod node;
pub mod service;
pub mod pod;
pub mod router;
