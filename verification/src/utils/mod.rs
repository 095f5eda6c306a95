//! Helpers shared by the gRPC and HTTP gateways.

pub mod matchers;
pub mod policy;
pub mod proxy;
pub mod variables;

pub use variables::{vars_view, ConfigVariables, VarMap};
