//! Whether a gRPC request meets a rule of the first rule format.

use vstd::prelude::*;

use crate::config::grpc::Rule;
use crate::grpc::rule::{add_call_variables, call_allowed, grpc_match};
use crate::utils::matchers::{answers_as, match_entity_list, Lookup};
use crate::utils::variables::{vars_view, ConfigVariables};

verus! {

/// Checks a gRPC request to `service`/`grpc_method`, with headers looked up by
/// `get_header`, against the conditions of `policy`; returns the variables
/// that the request yields, or none when it does not meet them.
pub fn check_rule<F: Fn(&str) -> Option<String>>(
    policy: &Rule,
    service: &str,
    grpc_method: &str,
    get_header: F,
) -> (r: Option<ConfigVariables>)
    requires
        forall|k: &str| get_header.requires((k,)),
    ensures
        forall|lookup: Lookup|
            #[trigger] answers_as(get_header, lookup) ==> vars_view(r) == grpc_match(
                policy.request@,
                service@,
                grpc_method@,
                lookup,
            ),
{
    if !call_allowed(&policy.request.service, &policy.request.grpc_methods, service, grpc_method) {
        return None;
    }
    let mut variables = ConfigVariables::new();
    match match_entity_list(&policy.request.headers, get_header) {
        Some(vars) => variables.extend(vars),
        None => return None,
    }
    add_call_variables(&mut variables, service, grpc_method);
    proof {
        assert forall|lookup: Lookup| #[trigger] answers_as(get_header, lookup) implies vars_view(
            Some(variables),
        ) == grpc_match(policy.request@, service@, grpc_method@, lookup) by {
            assert(Map::<Seq<char>, Seq<char>>::empty().union_prefer_right(
                crate::utils::matchers::match_entities(policy.request@.headers, lookup)->0,
            ) =~= crate::utils::matchers::match_entities(policy.request@.headers, lookup)->0);
        }
    }
    Some(variables)
}

} // verus!
