use kauthgate::config::defs::{Binding, EntityMatch, Extractor, SARAttributes};
use kauthgate::utils::matchers::match_entity;
use kauthgate::utils::policy::{compile_resource_attributes, extract_variables, match_path, resolve};
use kauthgate::utils::ConfigVariables;

fn vars(entries: &[(&str, &str)]) -> ConfigVariables {
    let mut out = ConfigVariables::new();
    for (k, v) in entries {
        out.insert(k.to_string(), v.to_string());
    }
    out
}

// -- compile_resource_attributes tests --

#[test]
fn compile_resolves_variable_in_namespace() {
    let attrs = SARAttributes {
        namespace: Binding::Variable("tenant".into()),
        api_group: Binding::Literal("example.io".into()),
        resource: Binding::Literal("widgets".into()),
        verb: Binding::Literal("get".into()),
    };
    let variables = vars(&[("tenant", "my-namespace")]);
    let result = compile_resource_attributes(&attrs, &variables);
    assert_eq!(result.namespace.unwrap(), "my-namespace");
    assert_eq!(result.group.unwrap(), "example.io");
    assert_eq!(result.resource.unwrap(), "widgets");
    assert_eq!(result.verb.unwrap(), "get");
}

#[test]
fn compile_leaves_literals_unchanged() {
    let attrs = SARAttributes {
        namespace: Binding::Literal("fixed-ns".into()),
        api_group: Binding::Literal("example.io".into()),
        resource: Binding::Literal("widgets".into()),
        verb: Binding::Literal("list".into()),
    };
    let result = compile_resource_attributes(&attrs, &vars(&[]));
    assert_eq!(result.namespace.unwrap(), "fixed-ns");
}

#[test]
fn compile_returns_none_when_variable_missing() {
    let attrs = SARAttributes {
        namespace: Binding::Variable("unknown".into()),
        api_group: Binding::Literal("example.io".into()),
        resource: Binding::Literal("widgets".into()),
        verb: Binding::Literal("get".into()),
    };
    let result = compile_resource_attributes(&attrs, &vars(&[]));
    assert_eq!(result.namespace, None);
}

#[test]
fn compile_resolves_variables_in_all_fields() {
    let attrs = SARAttributes {
        namespace: Binding::Variable("ns".into()),
        api_group: Binding::Variable("group".into()),
        resource: Binding::Variable("res".into()),
        verb: Binding::Variable("verb".into()),
    };
    let variables = vars(&[("ns", "prod"), ("group", "apps"), ("res", "deployments"), ("verb", "create")]);
    let result = compile_resource_attributes(&attrs, &variables);
    assert_eq!(result.namespace.unwrap(), "prod");
    assert_eq!(result.group.unwrap(), "apps");
    assert_eq!(result.resource.unwrap(), "deployments");
    assert_eq!(result.verb.unwrap(), "create");
}

// -- resolve tests --

#[test]
fn resolve_substitutes_variable() {
    let variables = vars(&[("tenant", "my-namespace")]);
    assert_eq!(resolve(&Binding::Variable("tenant".into()), &variables), Some("my-namespace".into()));
}

#[test]
fn resolve_returns_literal_as_is() {
    let variables = vars(&[("tenant", "my-namespace")]);
    assert_eq!(
        resolve(&Binding::Literal("literal-value".into()), &variables),
        Some("literal-value".into())
    );
}

#[test]
fn resolve_returns_none_when_variable_not_found() {
    let variables = vars(&[]);
    assert_eq!(resolve(&Binding::Variable("missing".into()), &variables), None);
}

#[test]
fn resolve_literal_ignores_variables() {
    let variables = vars(&[("key", "value")]);
    assert_eq!(resolve(&Binding::Literal("key".into()), &variables), Some("key".into()));
}

// -- match_path tests --

fn owned_vars(entries: &[(&str, &str)]) -> ConfigVariables {
    vars(entries)
}

fn pat(segments: &[&str]) -> Vec<String> {
    segments.iter().map(|s| s.to_string()).collect()
}

#[test]
fn match_path_exact_literal_segments() {
    let result = match_path("/a/b/c", pat(&["a", "b", "c"]));
    assert_eq!(result, Some(ConfigVariables::new()));
}

#[test]
fn match_path_extracts_variables() {
    let result = match_path("/svc/hello/sub/world", pat(&["svc", "{arg1}", "sub", "{arg2}"]));
    assert_eq!(result, Some(owned_vars(&[("arg1", "hello"), ("arg2", "world")])));
}

#[test]
fn match_path_wildcard_matches_any_segment() {
    let result = match_path("/v1/anything/data", pat(&["v1", "*", "data"]));
    assert_eq!(result, Some(ConfigVariables::new()));
}

#[test]
fn match_path_wildcard_and_variable_combined() {
    let result = match_path("/v1/skip/my-ns/items", pat(&["v1", "*", "{ns}", "items"]));
    assert_eq!(result, Some(owned_vars(&[("ns", "my-ns")])));
}

#[test]
fn match_path_rejects_wrong_literal() {
    let result = match_path("/a/b/c", pat(&["a", "x", "c"]));
    assert_eq!(result, None);
}

#[test]
fn match_path_rejects_too_few_segments() {
    let result = match_path("/a/b", pat(&["a", "b", "c"]));
    assert_eq!(result, None);
}

#[test]
fn match_path_rejects_too_many_segments() {
    let result = match_path("/a/b/c/d", pat(&["a", "b", "c"]));
    assert_eq!(result, None);
}

#[test]
fn match_path_handles_leading_slash() {
    let result = match_path("/x/y", pat(&["x", "y"]));
    assert_eq!(result, Some(ConfigVariables::new()));
}

#[test]
fn match_path_handles_no_leading_slash() {
    let result = match_path("x/y", pat(&["x", "y"]));
    assert_eq!(result, Some(ConfigVariables::new()));
}

#[test]
fn match_path_all_variables() {
    let result = match_path("/a/b/c", pat(&["{x}", "{y}", "{z}"]));
    assert_eq!(result, Some(owned_vars(&[("x", "a"), ("y", "b"), ("z", "c")])));
}

#[test]
fn match_path_all_wildcards() {
    let result = match_path("/a/b/c", pat(&["*", "*", "*"]));
    assert_eq!(result, Some(ConfigVariables::new()));
}

#[test]
fn match_path_empty_pattern_rejects_nonempty_path() {
    let result = match_path("/a", pat(&[]));
    assert_eq!(result, None);
}

#[test]
fn match_path_empty_path_matches_empty_pattern() {
    let result = match_path("", pat(&[]));
    assert_eq!(result, Some(ConfigVariables::new()));
}

#[test]
fn match_path_variable_name_is_not_trimmed() {
    let result = match_path("/a", pat(&["{ x }"]));
    assert_eq!(result, Some(owned_vars(&[(" x ", "a")])));
}

// -- extract_variables tests --

#[test]
fn extract_variables_from_headers_path_and_query() {
    let extractors = vec![
        Extractor::Header { name: "tenant".into(), header: "x-tenant-id".into() },
        Extractor::Path { path: pat(&["api", "{version}", "{kind}"]) },
        Extractor::Query { name: "page".into(), parameter: "p".into() },
        Extractor::Header { name: "missing".into(), header: "x-none".into() },
    ];
    let result = extract_variables(
        &extractors,
        "/api/v1",
        |h| if h == "x-tenant-id" { Some("acme".into()) } else { None },
        |q| if q == "p" { Some("3".into()) } else { None },
    );
    assert_eq!(result, owned_vars(&[("tenant", "acme"), ("version", "v1"), ("page", "3")]));
}

#[test]
fn extract_variables_later_extractor_wins() {
    let extractors = vec![
        Extractor::Query { name: "tenant".into(), parameter: "t".into() },
        Extractor::Header { name: "tenant".into(), header: "x-tenant-id".into() },
    ];
    let result = extract_variables(
        &extractors,
        "/",
        |h| if h == "x-tenant-id" { Some("from-header".into()) } else { None },
        |q| if q == "t" { Some("from-query".into()) } else { None },
    );
    assert_eq!(result, owned_vars(&[("tenant", "from-header")]));
}

// -- variables --

#[test]
fn variables_equality_ignores_insertion_order() {
    let a = owned_vars(&[("x", "1"), ("y", "2")]);
    let b = owned_vars(&[("y", "2"), ("x", "1")]);
    assert_eq!(a, b);
    assert_ne!(a, owned_vars(&[("x", "1")]));
    assert_ne!(a, owned_vars(&[("x", "1"), ("y", "3")]));
}

#[test]
fn variables_insert_replaces_and_extend_prefers_other() {
    let mut a = owned_vars(&[("x", "1"), ("y", "2")]);
    a.insert("x".into(), "9".into());
    assert_eq!(a.len(), 2);
    assert_eq!(a.get("x").unwrap(), "9");
    a.extend(owned_vars(&[("y", "7"), ("z", "8")]));
    assert_eq!(a, owned_vars(&[("x", "9"), ("y", "7"), ("z", "8")]));
    assert!(!a.is_empty());
    assert!(ConfigVariables::new().is_empty());
}

fn tenant_and_trace(h: &str) -> Option<String> {
    match h {
        "x-tenant-id" => Some("acme".into()),
        "x-trace-id" => Some("abc".into()),
        "x-env" => Some("prod".into()),
        _ => None,
    }
}

#[test]
fn match_entity_order_does_not_matter() {
    let tenant = EntityMatch::EqualsOrExtract {
        name: "x-tenant-id".into(),
        value: Binding::Variable("tenant".into()),
    };
    let trace = EntityMatch::Exists { name: "x-trace-id".into() };
    let env = EntityMatch::EqualsOrExtract {
        name: "x-env".into(),
        value: Binding::Literal("prod".into()),
    };
    let forward = vec![tenant.clone(), trace.clone(), env.clone()];
    let backward = vec![env.clone(), trace.clone(), tenant.clone()];
    let a = match_entity(&Some(forward), tenant_and_trace).unwrap();
    let b = match_entity(&Some(backward), tenant_and_trace).unwrap();
    assert!(a == b);
    assert_eq!(a.get("tenant").unwrap(), "acme");
    assert_eq!(a.len(), 1);

    let failing = EntityMatch::Exists { name: "x-missing".into() };
    assert!(match_entity(&Some(vec![tenant.clone(), failing.clone()]), tenant_and_trace).is_none());
    assert!(match_entity(&Some(vec![failing, tenant]), tenant_and_trace).is_none());
}
