//! Domain records over the container runtime's resources, one module per
//! resource kind, plus the capability they all share.

pub mod network;
pub mod traits;
