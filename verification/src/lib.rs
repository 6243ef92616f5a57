//! Normalization and presentation layer over a container runtime's
//! resource inventory.
//!
//! Raw runtime objects arrive with most fields optional; this crate turns
//! them into stable domain records, gives every record kind a uniform
//! describe capability, and keeps listings in a deterministic order.

pub mod docker;
pub mod text;
