//! Who a request comes from, and what it asks to do.

use vstd::prelude::*;

verus! {

/// Why authentication or authorization did not go through.
#[derive(Debug, Clone)]
pub enum AuthError {
    Unauthenticated,
    Unauthorized,
    Internal(String),
}

impl AuthError {
    /// The text that describes the error: `Unauthenticated`, `Unauthorized`,
    /// or `Internal auth error: ` followed by the detail.
    pub open spec fn message_spec(&self) -> Seq<char> {
        match self {
            AuthError::Unauthenticated => "Unauthenticated"@,
            AuthError::Unauthorized => "Unauthorized"@,
            AuthError::Internal(detail) => "Internal auth error: "@ + detail@,
        }
    }

    /// The text that describes the error to the client.
    pub fn message(&self) -> (r: String)
        ensures
            r@ == self.message_spec(),
    {
        match self {
            AuthError::Unauthenticated => String::from_str("Unauthenticated"),
            AuthError::Unauthorized => String::from_str("Unauthorized"),
            AuthError::Internal(detail) => String::from_str("Internal auth error: ").concat(
                detail.as_str(),
            ),
        }
    }
}

/// The identity that token authentication established.
#[derive(Debug, Clone)]
pub struct AuthInfo {
    pub username: String,
    pub groups: Vec<String>,
}

/// The resource attributes of an authorization query.
#[derive(Debug, Clone)]
pub struct RbacAttributes {
    pub namespace: Option<String>,
    pub api_group: Option<String>,
    pub api_version: Option<String>,
    pub resource: Option<String>,
    pub sub_resource: Option<String>,
    pub verb: Option<String>,
}

/// The characters of an optional string.
pub open spec fn opt_view(o: Option<String>) -> Option<Seq<char>> {
    match o {
        Some(s) => Some(s@),
        None => None,
    }
}

/// The resource attributes of an authorization query, as values.
pub struct RbacAttributesView {
    pub namespace: Option<Seq<char>>,
    pub api_group: Option<Seq<char>>,
    pub api_version: Option<Seq<char>>,
    pub resource: Option<Seq<char>>,
    pub sub_resource: Option<Seq<char>>,
    pub verb: Option<Seq<char>>,
}

impl View for RbacAttributes {
    type V = RbacAttributesView;

    open spec fn view(&self) -> RbacAttributesView {
        RbacAttributesView {
            namespace: opt_view(self.namespace),
            api_group: opt_view(self.api_group),
            api_version: opt_view(self.api_version),
            resource: opt_view(self.resource),
            sub_resource: opt_view(self.sub_resource),
            verb: opt_view(self.verb),
        }
    }
}

} // verus!
