use config::{Config, File, FileFormat};
use kauthgate::config::defs::{
    default_groups_header, default_groups_header_delimiter, default_user_header, Access,
    AuthConfig, Binding, EntityMatch, Listener, ProtocolConfig, ProxyConfig, RawProtocolConfig,
    RawRule, SarAttributes, Upstream,
};
use kauthgate::config::{grpc, http};

fn text(cfg: &Config, key: &str) -> Option<String> {
    cfg.get_string(key).ok()
}

fn binding(cfg: &Config, key: &str) -> Option<Binding> {
    text(cfg, key).map(|t| Binding::from_str(&t))
}

fn entity_matches(cfg: &Config, key: &str) -> Option<Vec<EntityMatch>> {
    let n = cfg.get_array(key).ok()?.len();
    Some(
        (0..n)
            .map(|j| {
                let name = text(cfg, &format!("{key}[{j}].name")).unwrap();
                let value = text(cfg, &format!("{key}[{j}].value"));
                EntityMatch::from_config(name, value.as_deref())
            })
            .collect(),
    )
}

fn listener(cfg: &Config, key: &str) -> Listener {
    Listener {
        host: text(cfg, &format!("{key}.host")).unwrap(),
        port: cfg.get::<u16>(&format!("{key}.port")).unwrap(),
        tls: None,
    }
}

fn upstream(cfg: &Config, key: &str) -> Upstream {
    Upstream {
        host: text(cfg, &format!("{key}.host")).unwrap(),
        port: cfg.get::<u16>(&format!("{key}.port")).unwrap(),
    }
}

fn access(cfg: &Config, key: &str) -> Access {
    let sar = format!("{key}.sar-resource-attributes");
    if cfg.get_table(&sar).is_ok() {
        Access::Sar(Box::new(SarAttributes {
            namespace: binding(cfg, &format!("{sar}.namespace")),
            api_group: binding(cfg, &format!("{sar}.api-group")),
            api_version: binding(cfg, &format!("{sar}.api-version")),
            resource: binding(cfg, &format!("{sar}.resource")),
            sub_resource: binding(cfg, &format!("{sar}.sub-resource")),
            verb: binding(cfg, &format!("{sar}.verb")),
        }))
    } else {
        assert_eq!(text(cfg, key).as_deref(), Some("no-auth"));
        Access::NoAuth
    }
}

fn protocol<R>(cfg: &Config, key: &str, request: fn(&Config, &str) -> R) -> ProtocolConfig<R> {
    let n = cfg.get_array(&format!("{key}.rules")).unwrap().len();
    let rules = (0..n)
        .map(|i| {
            let rule = format!("{key}.rules[{i}]");
            RawRule {
                name: text(cfg, &format!("{rule}.name")).unwrap(),
                request: request(cfg, &format!("{rule}.request")),
                access: access(cfg, &format!("{rule}.access")),
            }
        })
        .collect();
    ProtocolConfig::from_raw(RawProtocolConfig {
        listener: listener(cfg, &format!("{key}.listener")),
        upstream: upstream(cfg, &format!("{key}.upstream")),
        rules,
    })
}

fn grpc_request(cfg: &Config, key: &str) -> grpc::RequestMatch {
    grpc::RequestMatch {
        service: text(cfg, &format!("{key}.service")),
        grpc_methods: cfg.get::<Vec<String>>(&format!("{key}.grpc-methods")).ok(),
        headers: entity_matches(cfg, &format!("{key}.headers")),
    }
}

fn http_request(cfg: &Config, key: &str) -> http::RequestMatch {
    http::RequestMatch {
        path: text(cfg, &format!("{key}.path")).map(|p| http::path_pattern(&p)),
        methods: cfg
            .get::<Vec<String>>(&format!("{key}.methods"))
            .ok()
            .map(http::lowercase_methods),
        headers: entity_matches(cfg, &format!("{key}.headers")),
        query_params: entity_matches(cfg, &format!("{key}.query-params")),
    }
}

fn parse_yaml(yaml: &str) -> ProxyConfig {
    let cfg = Config::builder().add_source(File::from_str(yaml, FileFormat::Yaml)).build().unwrap();
    ProxyConfig {
        auth: AuthConfig {
            cache_ttl_secs: cfg.get::<u64>("auth.cache-ttl-secs").unwrap(),
            token_review_audiences: cfg.get::<Vec<String>>("auth.token-review-audiences").unwrap(),
            user_header: text(&cfg, "auth.user-header").unwrap_or_else(default_user_header),
            groups_header: text(&cfg, "auth.groups-header").unwrap_or_else(default_groups_header),
            groups_header_delimiter: text(&cfg, "auth.groups-header-delimiter")
                .unwrap_or_else(default_groups_header_delimiter),
        },
        prometheus: None,
        grpc: protocol(&cfg, "grpc", grpc_request),
        http: protocol(&cfg, "http", http_request),
    }
}

const FULL_CONFIG: &str = r#"

auth:
  cache-ttl-secs: 300
  token-review-audiences:
    - aud1

grpc:
  listener:
    host: 0.0.0.0
    port: 6188
  upstream:
    host: 127.0.0.1
    port: 50051
  rules:
    - name: flight
      request:
        service: arrow.flight.protocol.FlightService
        grpc-methods:
          - DoAction
          - DoGet
        headers:
          - name: x-tenant-id
            value: "{tenant-id}"
      access:
        sar-resource-attributes:
          namespace: "{tenant-id}"
          api-group: example.io
          resource: widgets
          verb: get

http:
  listener:
    host: 0.0.0.0
    port: 8080
  upstream:
    host: 127.0.0.1
    port: 8081
  rules: []
"#;

#[test]
fn deserializes_full_config() {
    let cfg = parse_yaml(FULL_CONFIG);
    assert_eq!(cfg.grpc.upstream.host, "127.0.0.1");
    assert_eq!(cfg.grpc.upstream.port, 50051);
    assert_eq!(cfg.auth.cache_ttl_secs, 300);
    assert_eq!(cfg.auth.token_review_audiences, vec!["aud1"]);
}

#[test]
fn deserializes_auth_rule() {
    let cfg = parse_yaml(FULL_CONFIG);
    let rule = &cfg.grpc.rules[0];
    assert_eq!(rule.name, "flight");
    assert_eq!(rule.request.service.as_deref(), Some("arrow.flight.protocol.FlightService"));
    assert_eq!(rule.request.grpc_methods, Some(vec!["DoAction".into(), "DoGet".into()]));
    let headers = rule.request.headers.as_ref().unwrap();
    assert_eq!(headers.len(), 1);
    match &headers[0] {
        EntityMatch::EqualsOrExtract { name, value } => {
            assert_eq!(name, "x-tenant-id");
            assert_eq!(*value, Binding::Variable("tenant-id".into()));
        },
        EntityMatch::Exists { .. } => panic!("the header condition has a value"),
    }
    assert_eq!(rule.sar.namespace, Some(Binding::Variable("tenant-id".into())));
    assert_eq!(rule.sar.api_group, Some(Binding::Literal("example.io".into())));
    assert_eq!(rule.sar.resource, Some(Binding::Literal("widgets".into())));
    assert_eq!(rule.sar.verb, Some(Binding::Literal("get".into())));
}

#[test]
fn deserializes_empty_audiences() {
    let yaml = r#"
auth:
  cache-ttl-secs: 60
  token-review-audiences: []
grpc:
  listener:
    host: 0.0.0.0
    port: 6188
  upstream:
    host: localhost
    port: 50051
  rules: []
http:
  listener:
    host: 0.0.0.0
    port: 8080
  upstream:
    host: localhost
    port: 8081
  rules: []
"#;
    let cfg = parse_yaml(yaml);
    assert!(cfg.auth.token_review_audiences.is_empty());
    assert!(cfg.grpc.rules.is_empty());
}

#[test]
fn config_file_defaults_and_no_auth_rules() {
    let yaml = r#"
auth:
  cache-ttl-secs: 60
  token-review-audiences: []
grpc:
  listener:
    host: 0.0.0.0
    port: 6188
  upstream:
    host: localhost
    port: 50051
  rules:
    - name: health
      request:
        service: grpc.health.v1.Health
      access: no-auth
http:
  listener:
    host: 0.0.0.0
    port: 8080
  upstream:
    host: localhost
    port: 8081
  rules:
    - name: widgets
      request:
        path: /api/{ns}/widgets
        methods: [GET, Post]
      access:
        sar-resource-attributes:
          namespace: "{ns}"
          verb: get
"#;
    let cfg = parse_yaml(yaml);
    assert_eq!(cfg.auth.user_header, "x-remote-user");
    assert_eq!(cfg.auth.groups_header, "x-remote-groups");
    assert_eq!(cfg.auth.groups_header_delimiter, "|");
    assert!(cfg.grpc.rules.is_empty());
    assert_eq!(cfg.grpc.no_auth_rules.len(), 1);
    assert_eq!(cfg.grpc.no_auth_rules[0].name, "health");
    assert!(cfg.grpc.no_auth_rules[0].request.headers.is_none());
    let rule = &cfg.http.rules[0];
    assert_eq!(
        rule.request.path,
        Some(vec![
            Binding::Literal("api".into()),
            Binding::Variable("ns".into()),
            Binding::Literal("widgets".into()),
        ])
    );
    assert_eq!(rule.request.methods, Some(vec!["get".to_string(), "post".to_string()]));
    assert_eq!(rule.sar.namespace, Some(Binding::Variable("ns".into())));
    assert_eq!(rule.sar.resource, None);
}
