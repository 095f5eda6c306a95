use kauthgate::config::defs::{Binding, EntityMatch};
use kauthgate::config::grpc::RequestMatch;
use kauthgate::grpc::proxy::parse_grpc_path;
use kauthgate::grpc::rule::check_rule;

fn request(service: &str, actions: &[&str], headers: Vec<EntityMatch>) -> RequestMatch {
    RequestMatch {
        service: Some(service.into()),
        grpc_methods: Some(actions.iter().map(|s| s.to_string()).collect()),
        headers: if headers.is_empty() { None } else { Some(headers) },
    }
}

fn var_header(name: &str, var: &str) -> EntityMatch {
    EntityMatch::EqualsOrExtract { name: name.into(), value: Binding::Variable(var.into()) }
}

fn literal_header(name: &str, literal: &str) -> EntityMatch {
    EntityMatch::EqualsOrExtract { name: name.into(), value: Binding::Literal(literal.into()) }
}

fn exists_header(name: &str) -> EntityMatch {
    EntityMatch::Exists { name: name.into() }
}

fn no_header(_: &str) -> Option<String> {
    None
}

#[test]
fn match_rule_matches_service_and_action() {
    let r = request("my.Service", &["GetItem", "ListItems"], vec![]);
    assert!(check_rule(&r, "my.Service", "GetItem", no_header).is_some());
    assert!(check_rule(&r, "my.Service", "ListItems", no_header).is_some());
}

#[test]
fn match_rule_rejects_wrong_service() {
    let r = request("my.Service", &["GetItem"], vec![]);
    assert!(check_rule(&r, "other.Service", "GetItem", no_header).is_none());
}

#[test]
fn match_rule_rejects_wrong_action() {
    let r = request("my.Service", &["GetItem"], vec![]);
    assert!(check_rule(&r, "my.Service", "DeleteItem", no_header).is_none());
}

#[test]
fn match_rule_requires_all_headers() {
    let r = request(
        "my.Service",
        &["GetItem"],
        vec![var_header("x-tenant-id", "tenant"), var_header("x-request-id", "req_id")],
    );
    let get = |h: &str| match h {
        "x-tenant-id" => Some("t1".into()),
        "x-request-id" => Some("r1".into()),
        _ => None,
    };
    let result = check_rule(&r, "my.Service", "GetItem", get);
    assert!(result.is_some());
    let vars = result.unwrap();
    assert_eq!(vars.get("tenant").unwrap(), "t1");
    assert_eq!(vars.get("req_id").unwrap(), "r1");
}

#[test]
fn match_rule_rejects_missing_header() {
    let r = request(
        "my.Service",
        &["GetItem"],
        vec![var_header("x-tenant-id", "tenant"), var_header("x-request-id", "req_id")],
    );
    let get = |h: &str| match h {
        "x-tenant-id" => Some("t1".into()),
        _ => None,
    };
    assert!(check_rule(&r, "my.Service", "GetItem", get).is_none());
}

#[test]
fn match_rule_no_headers_always_passes() {
    let r = request("my.Service", &["GetItem"], vec![]);
    assert!(check_rule(&r, "my.Service", "GetItem", no_header).is_some());
}

#[test]
fn match_rule_literal_header_rejects_wrong_value() {
    let r = request("my.Service", &["GetItem"], vec![literal_header("x-version", "v2")]);
    let get = |h: &str| match h {
        "x-version" => Some("v1".into()),
        _ => None,
    };
    assert!(check_rule(&r, "my.Service", "GetItem", get).is_none());
}

#[test]
fn match_rule_literal_header_accepts_matching_value() {
    let r = request("my.Service", &["GetItem"], vec![literal_header("x-version", "v2")]);
    let get = |h: &str| match h {
        "x-version" => Some("v2".into()),
        _ => None,
    };
    assert!(check_rule(&r, "my.Service", "GetItem", get).is_some());
}

#[test]
fn match_rule_all_conditions_none_matches_everything() {
    let r = RequestMatch { service: None, grpc_methods: None, headers: None };
    assert!(check_rule(&r, "any.Service", "AnyMethod", no_header).is_some());
}

#[test]
fn rule_exists_header_matches_when_present() {
    let r = request("my.Service", &["GetItem"], vec![exists_header("x-trace-id")]);
    let get = |h: &str| match h {
        "x-trace-id" => Some("abc-123".into()),
        _ => None,
    };
    assert!(check_rule(&r, "my.Service", "GetItem", get).is_some());
}

#[test]
fn rule_exists_header_rejects_when_missing() {
    let r = request("my.Service", &["GetItem"], vec![exists_header("x-trace-id")]);
    assert!(check_rule(&r, "my.Service", "GetItem", no_header).is_none());
}

#[test]
fn rule_exists_header_does_not_extract_variable() {
    let r = request("my.Service", &["GetItem"], vec![exists_header("x-trace-id")]);
    let get = |h: &str| match h {
        "x-trace-id" => Some("abc-123".into()),
        _ => None,
    };
    let vars = check_rule(&r, "my.Service", "GetItem", get).unwrap();
    assert!(!vars.contains_key("x-trace-id"));
}

#[test]
fn exists_header_combined_with_extract() {
    let r = request(
        "my.Service",
        &["GetItem"],
        vec![exists_header("x-trace-id"), var_header("x-tenant-id", "tenant")],
    );
    let get = |h: &str| match h {
        "x-trace-id" => Some("abc-123".into()),
        "x-tenant-id" => Some("acme".into()),
        _ => None,
    };
    let vars = check_rule(&r, "my.Service", "GetItem", get).unwrap();
    assert_eq!(vars.get("tenant").unwrap(), "acme");
    assert!(!vars.contains_key("x-trace-id"));
}

#[test]
fn match_rule_injects_service_and_method() {
    let r = request("my.Service", &["GetItem"], vec![]);
    let vars = check_rule(&r, "my.Service", "GetItem", no_header).unwrap();
    assert_eq!(vars.get("service").unwrap(), "my.Service");
    assert_eq!(vars.get("grpc_method").unwrap(), "GetItem");
}

#[test]
fn match_rule_later_capture_of_same_variable_wins() {
    let r = request(
        "my.Service",
        &["GetItem"],
        vec![var_header("x-a", "tenant"), var_header("x-b", "tenant")],
    );
    let get = |h: &str| match h {
        "x-a" => Some("first".into()),
        "x-b" => Some("second".into()),
        _ => None,
    };
    let vars = check_rule(&r, "my.Service", "GetItem", get).unwrap();
    assert_eq!(vars.get("tenant").unwrap(), "second");
    assert_eq!(vars.len(), 3);
}

#[test]
fn match_rule_method_is_case_sensitive() {
    let r = request("my.Service", &["GetItem"], vec![]);
    assert!(check_rule(&r, "my.Service", "getitem", no_header).is_none());
}

#[test]
fn grpc_path_splits_service_and_method() {
    assert_eq!(
        parse_grpc_path("/arrow.flight.protocol.FlightService/DoGet"),
        ("arrow.flight.protocol.FlightService", "DoGet")
    );
    assert_eq!(parse_grpc_path("svc/M"), ("svc", "M"));
    assert_eq!(parse_grpc_path("/a/b/c"), ("a/b", "c"));
    assert_eq!(parse_grpc_path("/only"), ("only", ""));
    assert_eq!(parse_grpc_path(""), ("", ""));
    assert_eq!(parse_grpc_path("//x"), ("", "x"));
}
