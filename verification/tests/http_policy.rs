use kauthgate::config::defs::{Binding, Entity, SARAttributes};
use kauthgate::config::http::{Rule, RuleRequest};
use kauthgate::http::policy::{check_path, check_rule};
use kauthgate::utils::proxy::path_to_vec;

fn path_bindings(parts: &[&str]) -> Vec<Binding> {
    parts.iter().map(|s| Binding::from_str(s)).collect()
}

fn no_header(_: &str) -> Option<String> {
    None
}
fn no_query(_: &str) -> Option<String> {
    None
}

fn sar(namespace: Binding) -> SARAttributes {
    SARAttributes {
        namespace,
        api_group: Binding::Literal("g".into()),
        resource: Binding::Literal("r".into()),
        verb: Binding::Literal("v".into()),
    }
}

fn rule(
    path: Option<&str>,
    methods: Option<&[&str]>,
    headers: Option<Vec<Entity>>,
    query_params: Option<Vec<Entity>>,
) -> Rule {
    Rule {
        name: "test".into(),
        request: RuleRequest {
            path: path.map(|p| path_bindings(&path_to_vec(p))),
            methods: methods.map(|m| m.iter().map(|s| s.to_string()).collect()),
            headers,
            query_params,
        },
        sar_resource_attributes: sar(Binding::Literal("ns".into())),
    }
}

fn var_entity(name: &str, var: &str) -> Entity {
    Entity { name: name.into(), value: Binding::Variable(var.into()) }
}

fn literal_entity(name: &str, literal: &str) -> Entity {
    Entity { name: name.into(), value: Binding::Literal(literal.into()) }
}

#[test]
fn policy_path_exact_match() {
    let result = check_path(&path_bindings(&["api", "v1", "users"]), &path_to_vec("/api/v1/users"));
    assert!(result.is_some());
    assert!(result.unwrap().is_empty());
}

#[test]
fn policy_path_mismatch() {
    let result = check_path(&path_bindings(&["api", "v2", "users"]), &path_to_vec("/api/v1/users"));
    assert!(result.is_none());
}

#[test]
fn policy_path_variable_extraction() {
    let result = check_path(
        &path_bindings(&["api", "{version}", "tenants", "{tid}"]),
        &path_to_vec("/api/v1/tenants/acme"),
    );
    let vars = result.unwrap();
    assert_eq!(vars.get("version").unwrap(), "v1");
    assert_eq!(vars.get("tid").unwrap(), "acme");
}

#[test]
fn policy_path_wildcard_matches_any_segment() {
    let result = check_path(&path_bindings(&["api", "*", "users"]), &path_to_vec("/api/v1/users"));
    assert!(result.is_some());
}

#[test]
fn policy_path_wildcard_does_not_match_different_suffix() {
    let result = check_path(&path_bindings(&["api", "*", "users"]), &path_to_vec("/api/v1/items"));
    assert!(result.is_none());
}

#[test]
fn policy_path_globstar_matches_everything_after() {
    let result = check_path(
        &path_bindings(&["api", "**"]),
        &path_to_vec("/api/v1/users/123/profile"),
    );
    assert!(result.is_some());
}

#[test]
fn policy_path_shorter_request_rejected() {
    let result = check_path(&path_bindings(&["api", "v1", "users"]), &path_to_vec("/api"));
    assert!(result.is_none());
}

#[test]
fn policy_path_longer_request_accepted_when_pattern_shorter() {
    let result = check_path(&path_bindings(&["api", "v1"]), &path_to_vec("/api/v1/users/extra"));
    assert!(result.is_some());
}

#[test]
fn policy_rule_matches_path_and_method() {
    let r = rule(Some("/api/v1/users"), Some(&["GET"]), None, None);
    let result = check_rule(&r, "/api/v1/users", "GET", no_header, no_query);
    assert!(result.is_some());
}

#[test]
fn policy_rule_rejects_wrong_method() {
    let r = rule(Some("/api/v1/users"), Some(&["GET"]), None, None);
    let result = check_rule(&r, "/api/v1/users", "POST", no_header, no_query);
    assert!(result.is_none());
}

#[test]
fn policy_rule_rejects_wrong_path() {
    let r = rule(Some("/api/v1/users"), Some(&["GET"]), None, None);
    let result = check_rule(&r, "/api/v2/items", "GET", no_header, no_query);
    assert!(result.is_none());
}

#[test]
fn policy_rule_no_methods_accepts_any() {
    let r = rule(Some("/api"), None, None, None);
    let result = check_rule(&r, "/api", "DELETE", no_header, no_query);
    assert!(result.is_some());
}

#[test]
fn policy_rule_no_path_accepts_any() {
    let r = rule(None, Some(&["GET"]), None, None);
    let result = check_rule(&r, "/anything/here", "GET", no_header, no_query);
    assert!(result.is_some());
}

#[test]
fn policy_rule_extracts_path_variables() {
    let r = Rule {
        name: "test".into(),
        request: RuleRequest {
            path: Some(path_bindings(&["tenants", "{tid}", "resources"])),
            methods: None,
            headers: None,
            query_params: None,
        },
        sar_resource_attributes: sar(Binding::Variable("tid".into())),
    };
    let vars = check_rule(&r, "/tenants/acme/resources", "GET", no_header, no_query).unwrap();
    assert_eq!(vars.get("tid").unwrap(), "acme");
}

#[test]
fn policy_rule_requires_header_present() {
    let r = rule(Some("/api"), Some(&["GET"]), Some(vec![var_entity("x-token", "tok")]), None);
    assert!(check_rule(&r, "/api", "GET", no_header, no_query).is_none());
    let result = check_rule(
        &r,
        "/api",
        "GET",
        |h| {
            if h == "x-token" { Some("abc".into()) } else { None }
        },
        no_query,
    );
    assert!(result.is_some());
    assert_eq!(result.unwrap().get("tok").unwrap(), "abc");
}

#[test]
fn policy_rule_literal_header_rejects_wrong_value() {
    let r = rule(Some("/api"), Some(&["GET"]), Some(vec![literal_entity("x-version", "v2")]), None);
    let result = check_rule(
        &r,
        "/api",
        "GET",
        |h| {
            if h == "x-version" { Some("v1".into()) } else { None }
        },
        no_query,
    );
    assert!(result.is_none());
}

#[test]
fn policy_rule_literal_header_accepts_matching_value() {
    let r = rule(Some("/api"), Some(&["GET"]), Some(vec![literal_entity("x-version", "v2")]), None);
    let result = check_rule(
        &r,
        "/api",
        "GET",
        |h| {
            if h == "x-version" { Some("v2".into()) } else { None }
        },
        no_query,
    );
    assert!(result.is_some());
}

#[test]
fn policy_rule_requires_query_param() {
    let r = rule(Some("/search"), Some(&["GET"]), None, Some(vec![var_entity("q", "query")]));
    assert!(check_rule(&r, "/search", "GET", no_header, no_query).is_none());
    let result = check_rule(&r, "/search", "GET", no_header, |q| {
        if q == "q" { Some("rust".into()) } else { None }
    });
    assert!(result.is_some());
    assert_eq!(result.unwrap().get("query").unwrap(), "rust");
}

#[test]
fn policy_rule_literal_query_rejects_wrong_value() {
    let r = rule(Some("/api"), Some(&["GET"]), None, Some(vec![literal_entity("format", "json")]));
    let result = check_rule(&r, "/api", "GET", no_header, |q| {
        if q == "format" { Some("xml".into()) } else { None }
    });
    assert!(result.is_none());
}

#[test]
fn policy_rule_injects_path_and_method() {
    let r = rule(Some("/api"), Some(&["POST"]), None, None);
    let vars = check_rule(&r, "/api", "POST", no_header, no_query).unwrap();
    assert_eq!(vars.get("path").unwrap(), "/api");
    assert_eq!(vars.get("method").unwrap(), "POST");
}

#[test]
fn policy_rule_all_conditions_none_matches_everything() {
    let r = rule(None, None, None, None);
    let result = check_rule(&r, "/any/path", "PATCH", no_header, no_query);
    assert!(result.is_some());
}

#[test]
fn policy_rule_combines_path_and_header_variables() {
    let r = Rule {
        name: "test".into(),
        request: RuleRequest {
            path: Some(path_bindings(&["tenants", "{tid}", "data"])),
            methods: Some(vec!["POST".into()]),
            headers: Some(vec![var_entity("x-request-id", "rid")]),
            query_params: None,
        },
        sar_resource_attributes: sar(Binding::Variable("tid".into())),
    };
    let vars = check_rule(
        &r,
        "/tenants/acme/data",
        "POST",
        |h| {
            if h == "x-request-id" {
                Some("req-123".into())
            } else {
                None
            }
        },
        no_query,
    )
    .unwrap();
    assert_eq!(vars.get("tid").unwrap(), "acme");
    assert_eq!(vars.get("rid").unwrap(), "req-123");
}
