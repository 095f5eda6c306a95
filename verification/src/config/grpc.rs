//! What a gRPC rule asks of a request.

use vstd::prelude::*;

use crate::config::defs::{
    entity_match_views, entity_views, EntityMatch, EntityMatchView, Entity, ProtocolConfig,
    SARAttributes,
};
use crate::text::opt_strings_view;

verus! {

/// The request conditions of a gRPC rule; an absent condition holds of every request.
#[derive(Debug, Clone)]
pub struct RequestMatch {
    pub service: Option<String>,
    pub grpc_methods: Option<Vec<String>>,
    pub headers: Option<Vec<EntityMatch>>,
}

/// The request conditions of a gRPC rule, as values; no header conditions
/// and an absent list of them are the same.
pub struct GrpcRequestView {
    pub service: Option<Seq<char>>,
    pub grpc_methods: Option<Seq<Seq<char>>>,
    pub headers: Seq<EntityMatchView>,
}

impl View for RequestMatch {
    type V = GrpcRequestView;

    open spec fn view(&self) -> GrpcRequestView {
        GrpcRequestView {
            service: crate::auth::opt_view(self.service),
            grpc_methods: opt_strings_view(self.grpc_methods),
            headers: entity_match_views(self.headers),
        }
    }
}

/// The request conditions of a gRPC rule of the first rule format, where
/// every header condition is an entity.
#[derive(Debug, Clone)]
pub struct RuleRequest {
    pub service: Option<String>,
    pub grpc_methods: Option<Vec<String>>,
    pub headers: Option<Vec<Entity>>,
}

impl View for RuleRequest {
    type V = GrpcRequestView;

    open spec fn view(&self) -> GrpcRequestView {
        GrpcRequestView {
            service: crate::auth::opt_view(self.service),
            grpc_methods: opt_strings_view(self.grpc_methods),
            headers: entity_views(self.headers),
        }
    }
}

/// A gRPC rule of the first rule format.
#[derive(Debug, Clone)]
pub struct Rule {
    pub name: String,
    pub request: RuleRequest,
    pub sar_resource_attributes: SARAttributes,
}

/// The gRPC gateway's configuration.
pub type GrpcConfig = ProtocolConfig<RequestMatch>;

} // verus!
