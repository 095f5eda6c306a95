//! Whether an HTTP request meets a rule of the first rule format.

use vstd::prelude::*;

pub use crate::http::rule::check_path;

use crate::config::http::Rule;
use crate::http::rule::{add_request_variables, check_path_and_method, http_match, http_match_defined};
use crate::utils::matchers::{answers_as, match_entity_list, Lookup};
use crate::utils::variables::{vars_view, ConfigVariables};

verus! {

/// Checks an HTTP `method` request for `path`, with headers looked up by
/// `get_header` and query parameters by `get_query`, against the conditions
/// of `policy`; returns the variables that the request yields, or none when
/// it does not meet them.
pub fn check_rule<F: Fn(&str) -> Option<String>, G: Fn(&str) -> Option<String>>(
    policy: &Rule,
    path: &str,
    method: &str,
    get_header: F,
    get_query: G,
) -> (r: Option<ConfigVariables>)
    requires
        http_match_defined(policy.request@, path@),
        forall|k: &str| get_header.requires((k,)),
        forall|k: &str| get_query.requires((k,)),
    ensures
        forall|headers: Lookup, query: Lookup|
            #![trigger answers_as(get_header, headers), answers_as(get_query, query)]
            answers_as(get_header, headers) && answers_as(get_query, query) ==> vars_view(r)
                == http_match(policy.request@, path@, method@, headers, query),
{
    let mut variables = match check_path_and_method(
        &policy.request.path,
        &policy.request.methods,
        path,
        method,
    ) {
        Some(vars) => vars,
        None => return None,
    };
    let header_vars = match match_entity_list(&policy.request.headers, get_header) {
        Some(vars) => vars,
        None => return None,
    };
    variables.extend(header_vars);
    let query_vars = match match_entity_list(&policy.request.query_params, get_query) {
        Some(vars) => vars,
        None => return None,
    };
    variables.extend(query_vars);
    add_request_variables(&mut variables, path, method);
    Some(variables)
}

} // verus!
