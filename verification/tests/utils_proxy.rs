use kauthgate::auth::{AuthError, AuthInfo};
use kauthgate::config::defs::{AuthConfig, Binding, NoAuthRule, SarAttributes, SarRule};
use kauthgate::utils::proxy::{
    header_is_visible_ascii, http_denial_status,
    after_authentication, after_authorization, bearer_token, compile_resource_attributes,
    identity_headers, join_groups, path_to_vec, resolve, start_evaluation, Denial, Evaluation,
};
use kauthgate::utils::ConfigVariables;

#[test]
fn splits_absolute_path() {
    assert_eq!(path_to_vec("/api/v1/users"), vec!["api", "v1", "users"]);
}

#[test]
fn splits_relative_path() {
    assert_eq!(path_to_vec("api/v1"), vec!["api", "v1"]);
}

#[test]
fn root_path_returns_empty() {
    assert!(path_to_vec("/").is_empty());
}

#[test]
fn empty_string_returns_empty() {
    assert!(path_to_vec("").is_empty());
}

#[test]
fn ignores_consecutive_slashes() {
    assert_eq!(path_to_vec("/api//v1///users"), vec!["api", "v1", "users"]);
}

#[test]
fn trailing_slash_ignored() {
    assert_eq!(path_to_vec("/api/v1/"), vec!["api", "v1"]);
}

#[test]
fn single_segment() {
    assert_eq!(path_to_vec("/health"), vec!["health"]);
}

#[test]
fn bearer_token_is_read_after_prefix() {
    assert_eq!(bearer_token("Bearer abc.def"), Some("abc.def"));
    assert_eq!(bearer_token("Bearer "), Some(""));
    assert_eq!(bearer_token("bearer abc"), None);
    assert_eq!(bearer_token("Basic abc"), None);
    assert_eq!(bearer_token("Bearer"), None);
}

fn auth_config() -> AuthConfig {
    AuthConfig {
        cache_ttl_secs: 300,
        token_review_audiences: vec![],
        user_header: "x-remote-user".into(),
        groups_header: "x-remote-groups".into(),
        groups_header_delimiter: "|".into(),
    }
}

#[test]
fn identity_headers_carry_user_and_groups() {
    let info = AuthInfo { username: "alice".into(), groups: vec!["devs".into(), "ops".into()] };
    let headers = identity_headers(&auth_config(), &info);
    assert_eq!(
        headers,
        vec![
            ("x-remote-user".to_string(), "alice".to_string()),
            ("x-remote-groups".to_string(), "devs|ops".to_string()),
        ]
    );
    assert_eq!(join_groups(&vec![], "|"), "");
    assert_eq!(join_groups(&vec!["a".into()], ", "), "a");
    assert_eq!(join_groups(&vec!["a".into(), "b".into(), "c".into()], ", "), "a, b, c");
}

#[test]
fn auth_error_messages() {
    assert_eq!(AuthError::Unauthenticated.message(), "Unauthenticated");
    assert_eq!(AuthError::Unauthorized.message(), "Unauthorized");
    assert_eq!(AuthError::Internal("boom".into()).message(), "Internal auth error: boom");
    assert_eq!(Denial::NoRuleMatched.message(), "no rule matched");
}

fn sar_attrs(namespace: &str, resource: &str, verb: &str) -> SarAttributes {
    SarAttributes {
        namespace: Some(Binding::Literal(namespace.to_string())),
        api_group: Some(Binding::Literal("example.io".to_string())),
        api_version: None,
        resource: Some(Binding::Literal(resource.to_string())),
        sub_resource: None,
        verb: Some(Binding::Literal(verb.to_string())),
    }
}

fn sar_rule(name: &str, sar: SarAttributes) -> SarRule<()> {
    SarRule { name: name.to_string(), request: (), sar }
}

fn no_auth_rule(name: &str) -> NoAuthRule<()> {
    NoAuthRule { name: name.to_string(), request: () }
}

fn always_match(_: &()) -> Option<ConfigVariables> {
    Some(ConfigVariables::new())
}

fn never_match(_: &()) -> Option<ConfigVariables> {
    None
}

fn alice(groups: &[&str]) -> AuthInfo {
    AuthInfo { username: "alice".to_string(), groups: groups.iter().map(|s| s.to_string()).collect() }
}

#[test]
fn allows_authenticated_and_authorized_request() {
    let rules = vec![sar_rule("r1", sar_attrs("default", "pods", "get"))];
    let step = start_evaluation(Some("valid-token"), &[], always_match);
    match step {
        Evaluation::Authenticate { token } => assert_eq!(token, "valid-token"),
        other => panic!("unexpected {:?}", other),
    }
    let step = after_authentication(Ok(alice(&["devs"])), &rules, always_match);
    let allowed = match step {
        Evaluation::Authorize { rule_name, auth_info, .. } => {
            match after_authorization(Ok(()), rule_name, auth_info) {
                Evaluation::Allow(allowed) => allowed,
                other => panic!("unexpected {:?}", other),
            }
        },
        other => panic!("unexpected {:?}", other),
    };
    assert_eq!(allowed.rule_name, "r1");
    let info = allowed.auth_info.unwrap();
    assert_eq!(info.username, "alice");
    assert_eq!(info.groups, vec!["devs"]);
}

fn denial_message(step: Evaluation) -> String {
    match step {
        Evaluation::Deny(denial) => denial.message(),
        other => panic!("unexpected {:?}", other),
    }
}

#[test]
fn denies_unauthenticated_token() {
    let rules = vec![sar_rule("r1", sar_attrs("default", "pods", "get"))];
    let step = after_authentication(Err(AuthError::Unauthenticated), &rules, always_match);
    assert_eq!(denial_message(step), "Unauthenticated");
}

#[test]
fn denies_unauthorized_user() {
    let step = after_authorization(Err(AuthError::Unauthorized), "r1".into(), alice(&[]));
    assert_eq!(denial_message(step), "Unauthorized");
}

#[test]
fn denies_when_no_rule_matches() {
    let rules = vec![sar_rule("r1", sar_attrs("default", "pods", "get"))];
    let step = after_authentication(Ok(alice(&[])), &rules, never_match);
    assert_eq!(denial_message(step), "no rule matched");
}

#[test]
fn allows_no_auth_rule_without_token() {
    let no_auth_rules = vec![no_auth_rule("health")];
    match start_evaluation::<(), _>(None, &no_auth_rules, always_match) {
        Evaluation::Allow(allowed) => {
            assert_eq!(allowed.rule_name, "health");
            assert!(allowed.auth_info.is_none());
        },
        other => panic!("unexpected {:?}", other),
    }
}

#[test]
fn denies_no_token_when_no_auth_rule_doesnt_match() {
    let no_auth_rules = vec![no_auth_rule("health")];
    let step = start_evaluation::<(), _>(None, &no_auth_rules, never_match);
    assert_eq!(denial_message(step), "no rule matched");
}

#[test]
fn denies_no_token_and_no_rules() {
    let step = start_evaluation::<(), _>(None, &[], never_match);
    assert_eq!(denial_message(step), "no rule matched");
}

#[test]
fn matches_first_rule_and_skips_rest() {
    let rules = vec![
        sar_rule("first", sar_attrs("ns1", "pods", "get")),
        sar_rule("second", sar_attrs("ns2", "pods", "list")),
    ];
    match after_authentication(Ok(alice(&[])), &rules, always_match) {
        Evaluation::Authorize { rule_name, attributes, .. } => {
            assert_eq!(rule_name, "first");
            assert_eq!(attributes.namespace.as_deref(), Some("ns1"));
        },
        other => panic!("unexpected {:?}", other),
    }
}

#[test]
fn skips_rules_that_do_not_match() {
    let rules: Vec<SarRule<u8>> = vec![
        SarRule { name: "a".into(), request: 1, sar: sar_attrs("ns1", "pods", "get") },
        SarRule { name: "b".into(), request: 2, sar: sar_attrs("ns2", "pods", "list") },
    ];
    let only_two = |r: &u8| if *r == 2 { Some(ConfigVariables::new()) } else { None };
    match after_authentication(Ok(alice(&[])), &rules, only_two) {
        Evaluation::Authorize { rule_name, .. } => assert_eq!(rule_name, "b"),
        other => panic!("unexpected {:?}", other),
    }
}

#[test]
fn compiles_sar_attributes_for_authorization() {
    let rules = vec![sar_rule("r1", sar_attrs("prod", "deployments", "create"))];
    match after_authentication(Ok(alice(&[])), &rules, always_match) {
        Evaluation::Authorize { auth_info, attributes, .. } => {
            assert_eq!(auth_info.username, "alice");
            assert_eq!(attributes.namespace.as_deref(), Some("prod"));
            assert_eq!(attributes.resource.as_deref(), Some("deployments"));
            assert_eq!(attributes.verb.as_deref(), Some("create"));
            assert_eq!(attributes.api_group.as_deref(), Some("example.io"));
            assert_eq!(attributes.api_version, None);
            assert_eq!(attributes.sub_resource, None);
        },
        other => panic!("unexpected {:?}", other),
    }
}

#[test]
fn resolves_variables_in_sar_attributes() {
    let sar = SarAttributes {
        namespace: Some(Binding::Variable("tenant".to_string())),
        api_group: Some(Binding::Literal("example.io".to_string())),
        api_version: None,
        resource: Some(Binding::Literal("widgets".to_string())),
        sub_resource: None,
        verb: Some(Binding::Literal("get".to_string())),
    };
    let rules = vec![sar_rule("r1", sar)];
    let match_with_vars = |_: &()| -> Option<ConfigVariables> {
        let mut vars = ConfigVariables::new();
        vars.insert("tenant".to_string(), "acme-corp".to_string());
        Some(vars)
    };
    match after_authentication(Ok(alice(&[])), &rules, match_with_vars) {
        Evaluation::Authorize { attributes, .. } => {
            assert_eq!(attributes.namespace.as_deref(), Some("acme-corp"))
        },
        other => panic!("unexpected {:?}", other),
    }
}

#[test]
fn compile_and_resolve_optional_bindings() {
    let mut vars = ConfigVariables::new();
    vars.insert("v".into(), "1".into());
    assert_eq!(resolve(None, &vars), None);
    assert_eq!(resolve(Some(&Binding::Variable("v".into())), &vars), Some("1".to_string()));
    assert_eq!(resolve(Some(&Binding::Variable("w".into())), &vars), None);
    let attrs = SarAttributes {
        namespace: None,
        api_group: None,
        api_version: Some(Binding::Literal("v1".into())),
        resource: None,
        sub_resource: Some(Binding::Variable("v".into())),
        verb: None,
    };
    let out = compile_resource_attributes(&attrs, &vars);
    assert_eq!(out.api_version.as_deref(), Some("v1"));
    assert_eq!(out.sub_resource.as_deref(), Some("1"));
    assert_eq!(out.namespace, None);
}

#[test]
fn refused_requests_get_http_statuses() {
    let failed = Denial::AuthenticationFailed(AuthError::Unauthenticated);
    let refused = Denial::AuthorizationFailed(AuthError::Unauthorized);
    assert_eq!(http_denial_status(&failed, true), 401);
    assert_eq!(http_denial_status(&refused, true), 403);
    assert_eq!(http_denial_status(&Denial::NoRuleMatched, true), 403);
    assert_eq!(http_denial_status(&Denial::NoRuleMatched, false), 401);
}

#[test]
fn header_bytes_must_be_visible_ascii() {
    assert!(header_is_visible_ascii(b"Bearer abc.def"));
    assert!(header_is_visible_ascii(b"a\tb"));
    assert!(header_is_visible_ascii(b""));
    assert!(!header_is_visible_ascii(b"line\nbreak"));
    assert!(!header_is_visible_ascii(&[0x42, 0x7f]));
    assert!(!header_is_visible_ascii("caf\u{e9}".as_bytes()));
}
