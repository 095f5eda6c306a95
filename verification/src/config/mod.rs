//! The gateway's configuration.

pub mod defs;
pub mod grpc;
pub mod http;

pub use defs::{
    Access, AuthConfig, Binding, Entity, EntityMatch, Extractor, Listener, NoAuthRule,
    PrometheusConfig, ProtocolConfig, ProxyConfig, RawProtocolConfig, RawRule, SARAttributes,
    SarAttributes, SarRule, TLSConfig, Upstream,
};
