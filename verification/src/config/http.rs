//! What an HTTP rule asks of a request.

use vstd::prelude::*;

use crate::config::defs::{
    binding_views, entity_match_views, entity_views, Binding, BindingView, Entity, EntityMatch,
    EntityMatchView, ProtocolConfig, SARAttributes,
};
use crate::text::{lowercase_of, opt_strings_view, segments, split_segments, strings_view};

verus! {

/// The request conditions of an HTTP rule; an absent condition holds of every request.
#[derive(Debug, Clone)]
pub struct RequestMatch {
    pub path: Option<Vec<Binding>>,
    pub methods: Option<Vec<String>>,
    pub headers: Option<Vec<EntityMatch>>,
    pub query_params: Option<Vec<EntityMatch>>,
}

/// The request conditions of an HTTP rule, as values; no field conditions and
/// an absent list of them are the same.
pub struct HttpRequestView {
    pub path: Option<Seq<BindingView>>,
    pub methods: Option<Seq<Seq<char>>>,
    pub headers: Seq<EntityMatchView>,
    pub query_params: Seq<EntityMatchView>,
}

/// The views of an optional path pattern.
pub open spec fn opt_pattern_view(o: Option<Vec<Binding>>) -> Option<Seq<BindingView>> {
    match o {
        Some(v) => Some(binding_views(v@)),
        None => None,
    }
}

impl View for RequestMatch {
    type V = HttpRequestView;

    open spec fn view(&self) -> HttpRequestView {
        HttpRequestView {
            path: opt_pattern_view(self.path),
            methods: opt_strings_view(self.methods),
            headers: entity_match_views(self.headers),
            query_params: entity_match_views(self.query_params),
        }
    }
}

/// The request conditions of an HTTP rule of the first rule format, where
/// every header and query parameter condition is an entity.
#[derive(Debug, Clone)]
pub struct RuleRequest {
    pub path: Option<Vec<Binding>>,
    pub methods: Option<Vec<String>>,
    pub headers: Option<Vec<Entity>>,
    pub query_params: Option<Vec<Entity>>,
}

impl View for RuleRequest {
    type V = HttpRequestView;

    open spec fn view(&self) -> HttpRequestView {
        HttpRequestView {
            path: opt_pattern_view(self.path),
            methods: opt_strings_view(self.methods),
            headers: entity_views(self.headers),
            query_params: entity_views(self.query_params),
        }
    }
}

/// An HTTP rule of the first rule format.
#[derive(Debug, Clone)]
pub struct Rule {
    pub name: String,
    pub request: RuleRequest,
    pub sar_resource_attributes: SARAttributes,
}

/// The HTTP gateway's configuration.
pub type HttpConfig = ProtocolConfig<RequestMatch>;

/// The pattern that a configured path denotes: one binding per non-empty
/// `/`-separated segment.
pub open spec fn pattern_of(path: Seq<char>) -> Seq<BindingView> {
    segments(path).map_values(|s: Seq<char>| crate::config::defs::binding_of(s))
}

/// Reads a configured path such as `/api/{version}/*` as a pattern, one
/// binding per non-empty segment.
pub fn path_pattern(path: &str) -> (r: Vec<Binding>)
    ensures
        binding_views(r@) == pattern_of(path@),
{
    let parts = split_segments(path);
    let n = parts.len();
    let mut out: Vec<Binding> = Vec::new();
    let mut i: usize = 0;
    while i < n
        invariant
            n == parts@.len(),
            i <= n,
            crate::text::str_views(parts@) == segments(path@),
            out@.len() == i,
            forall|j: int|
                0 <= j < i ==> #[trigger] out@[j]@ == crate::config::defs::binding_of(parts@[j]@),
        decreases n - i,
    {
        out.push(Binding::from_str(parts[i]));
        i = i + 1;
    }
    assert(binding_views(out@) =~= pattern_of(path@)) by {
        assert forall|j: int| 0 <= j < n implies binding_views(out@)[j] == pattern_of(path@)[j] by {
            assert(crate::text::str_views(parts@)[j] == parts@[j]@);
        }
    }
    out
}

/// The configured methods, each in lower case.
pub fn lowercase_methods(methods: Vec<String>) -> (r: Vec<String>)
    ensures
        r@.len() == methods@.len(),
        forall|i: int| 0 <= i < methods@.len() ==> #[trigger] r@[i]@ == lowercase_of(methods@[i]@),
{
    let n = methods.len();
    let mut out: Vec<String> = Vec::new();
    let mut i: usize = 0;
    while i < n
        invariant
            n == methods@.len(),
            i <= n,
            out@.len() == i,
            forall|j: int| 0 <= j < i ==> #[trigger] out@[j]@ == lowercase_of(methods@[j]@),
        decreases n - i,
    {
        out.push(crate::text::to_lowercase(methods[i].as_str()));
        i = i + 1;
    }
    out
}

} // verus!
