//! Whether a gRPC request meets a rule's conditions, and the variables it yields.

use vstd::prelude::*;

use crate::config::grpc::{GrpcRequestView, RequestMatch};
use crate::text::contains_str;
use crate::utils::matchers::{
    answers_as, entity_holds, lemma_match_entities_succeeds_iff, match_entities, match_entity, Lookup,
};
use crate::utils::variables::{vars_view, ConfigVariables, VarMap};

verus! {

/// Whether the service and method conditions of `m` hold of the request.
pub open spec fn grpc_call_allowed(m: GrpcRequestView, service: Seq<char>, method: Seq<char>) -> bool {
    &&& (m.service matches Some(svc) ==> svc == service)
    &&& (m.grpc_methods matches Some(methods) ==> methods.contains(method))
}

/// The variables that a gRPC request to `service`/`method` yields under the
/// conditions `m`, its headers looked up by `lookup`, or none when a
/// condition fails: the captured header variables, then `service` and
/// `grpc_method` set to the request's service and method.
pub open spec fn grpc_match(
    m: GrpcRequestView,
    service: Seq<char>,
    method: Seq<char>,
    lookup: Lookup,
) -> Option<VarMap> {
    if !grpc_call_allowed(m, service, method) {
        None
    } else {
        match match_entities(m.headers, lookup) {
            Some(vars) => Some(vars.insert("service"@, service).insert("grpc_method"@, method)),
            None => None,
        }
    }
}

/// Whether the service and method conditions hold of the request.
pub fn call_allowed(
    service_cond: &Option<String>,
    methods: &Option<Vec<String>>,
    service: &str,
    grpc_method: &str,
) -> (r: bool)
    ensures
        r == grpc_call_allowed(
            GrpcRequestView {
                service: crate::auth::opt_view(*service_cond),
                grpc_methods: crate::text::opt_strings_view(*methods),
                headers: Seq::empty(),
            },
            service@,
            grpc_method@,
        ),
{
    if let Some(svc) = service_cond {
        if !crate::text::str_eq(svc.as_str(), service) {
            return false;
        }
    }
    if let Some(list) = methods {
        if !contains_str(list, grpc_method) {
            return false;
        }
    }
    true
}

/// Adds the request's service and method to `vars` as `service` and `grpc_method`.
pub fn add_call_variables(vars: &mut ConfigVariables, service: &str, grpc_method: &str)
    ensures
        final(vars)@ == old(vars)@.insert("service"@, service@).insert(
            "grpc_method"@,
            grpc_method@,
        ),
{
    vars.insert(String::from_str("service"), String::from_str(service));
    vars.insert(String::from_str("grpc_method"), String::from_str(grpc_method));
}

/// Checks a gRPC request to `service`/`grpc_method`, with headers looked up by
/// `get_header`, against the conditions `matches`; returns the variables that
/// the request yields, or none when it does not meet them.
pub fn check_rule<F: Fn(&str) -> Option<String>>(
    matches: &RequestMatch,
    service: &str,
    grpc_method: &str,
    get_header: F,
) -> (r: Option<ConfigVariables>)
    requires
        forall|k: &str| get_header.requires((k,)),
    ensures
        forall|lookup: Lookup|
            #[trigger] answers_as(get_header, lookup) ==> vars_view(r) == grpc_match(
                matches@,
                service@,
                grpc_method@,
                lookup,
            ),
{
    if !call_allowed(&matches.service, &matches.grpc_methods, service, grpc_method) {
        return None;
    }
    let mut variables = ConfigVariables::new();
    match match_entity(&matches.headers, get_header) {
        Some(vars) => variables.extend(vars),
        None => return None,
    }
    add_call_variables(&mut variables, service, grpc_method);
    proof {
        assert forall|lookup: Lookup| #[trigger] answers_as(get_header, lookup) implies vars_view(
            Some(variables),
        ) == grpc_match(matches@, service@, grpc_method@, lookup) by {
            assert(Map::<Seq<char>, Seq<char>>::empty().union_prefer_right(
                match_entities(matches@.headers, lookup)->0,
            ) =~= match_entities(matches@.headers, lookup)->0);
        }
    }
    Some(variables)
}

/// Law: a rule without conditions matches every gRPC request, and yields
/// just its service and method.
pub proof fn lemma_grpc_unconditioned_rule_matches_all(
    service: Seq<char>,
    method: Seq<char>,
    lookup: Lookup,
)
    ensures
        grpc_match(
            GrpcRequestView { service: None, grpc_methods: None, headers: Seq::empty() },
            service,
            method,
            lookup,
        ) == Some(Map::<Seq<char>, Seq<char>>::empty().insert("service"@, service).insert(
            "grpc_method"@,
            method,
        )),
{
}

/// Law: a gRPC request meets a rule exactly when the rule's service and
/// method conditions allow it and every header condition holds.
pub proof fn lemma_grpc_match_iff(
    m: GrpcRequestView,
    service: Seq<char>,
    method: Seq<char>,
    lookup: Lookup,
)
    ensures
        grpc_match(m, service, method, lookup) is Some <==> grpc_call_allowed(m, service, method)
            && forall|i: int| 0 <= i < m.headers.len() ==> #[trigger] entity_holds(m.headers[i], lookup),
{
    lemma_match_entities_succeeds_iff(m.headers, lookup);
}

/// Law: a matched gRPC request always yields its service as `service` and
/// its method as `grpc_method`, whatever the header variables are named.
pub proof fn lemma_grpc_match_sets_call_variables(
    m: GrpcRequestView,
    service: Seq<char>,
    method: Seq<char>,
    lookup: Lookup,
)
    requires
        grpc_match(m, service, method, lookup) is Some,
    ensures
        grpc_match(m, service, method, lookup)->0.contains_key("service"@),
        grpc_match(m, service, method, lookup)->0["service"@] == service,
        grpc_match(m, service, method, lookup)->0.contains_key("grpc_method"@),
        grpc_match(m, service, method, lookup)->0["grpc_method"@] == method,
{
    reveal_strlit("service");
    reveal_strlit("grpc_method");
    assert("service"@.len() != "grpc_method"@.len());
}


/// Law: a gRPC request meets a rule exactly when each condition the rule
/// gives holds: the service, when given, is the request's service; the
/// method list, when given, holds the request's method; and every header
/// condition holds. The service and the method conditions are each checked
/// whether or not the other is given.
pub proof fn lemma_grpc_conditions(
    m: GrpcRequestView,
    service: Seq<char>,
    method: Seq<char>,
    lookup: Lookup,
)
    ensures
        grpc_match(m, service, method, lookup) is Some <==> {
            &&& (m.service matches Some(s) ==> s == service)
            &&& (m.grpc_methods matches Some(ms) ==> ms.contains(method))
            &&& forall|i: int| 0 <= i < m.headers.len() ==> #[trigger] entity_holds(m.headers[i], lookup)
        },
        m.service matches Some(s) && s != service ==> grpc_match(m, service, method, lookup) is None,
        m.grpc_methods matches Some(ms) && !ms.contains(method) ==> grpc_match(
            m,
            service,
            method,
            lookup,
        ) is None,
{
    lemma_match_entities_succeeds_iff(m.headers, lookup);
}

/// Law: a matched gRPC request yields the variables its header conditions
/// capture, with `service` and `grpc_method` then set to the request's
/// service and method.
pub proof fn lemma_grpc_match_variables(
    m: GrpcRequestView,
    service: Seq<char>,
    method: Seq<char>,
    lookup: Lookup,
)
    requires
        grpc_match(m, service, method, lookup) is Some,
    ensures
        grpc_match(m, service, method, lookup)->0 == match_entities(m.headers, lookup)->0.insert(
            "service"@,
            service,
        ).insert("grpc_method"@, method),
{
}

} // verus!
