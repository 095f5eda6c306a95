//! An authentication and authorization gateway's request-matching and
//! policy core: rule matching, variable extraction and the decisions taken
//! around token authentication and authorization queries.

pub mod auth;
pub mod config;
pub mod grpc;
pub mod http;
pub mod text;
pub mod utils;
