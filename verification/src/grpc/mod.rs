//! The gRPC gateway's request matching.

pub mod policy;
pub mod proxy;
pub mod rule;
