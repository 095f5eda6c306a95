//! The gateway's configuration: bindings, request matchers and access rules.

use vstd::prelude::*;

use crate::text::{trim, trim_str};

verus! {

/// A configured value: a `{name}` that names a request variable, or a literal.
#[derive(Debug, Clone, PartialEq, Eq)]
pub enum Binding {
    Variable(String),
    Literal(String),
}

/// A binding, as characters.
pub enum BindingView {
    Variable(Seq<char>),
    Literal(Seq<char>),
}

impl View for Binding {
    type V = BindingView;

    open spec fn view(&self) -> BindingView {
        match self {
            Binding::Variable(name) => BindingView::Variable(name@),
            Binding::Literal(value) => BindingView::Literal(value@),
        }
    }
}

/// Whether `s` is wrapped in braces: `{` first and `}` last, two distinct characters.
pub open spec fn is_braced(s: Seq<char>) -> bool {
    s.len() >= 2 && s[0] == '{' && s.last() == '}'
}

/// What stands between the braces of a braced `s`.
pub open spec fn brace_inner(s: Seq<char>) -> Seq<char> {
    s.subrange(1, s.len() - 1)
}

/// The binding that the text `s` denotes: a braced text names the variable
/// written between the braces, white space around it dropped; any other text
/// is a literal.
pub open spec fn binding_of(s: Seq<char>) -> BindingView {
    if is_braced(s) {
        BindingView::Variable(trim(brace_inner(s)))
    } else {
        BindingView::Literal(s)
    }
}

/// Law: a text wrapped in `{` and `}` names the variable written between the
/// braces, white space around it dropped; every other text, an unclosed or
/// unopened brace included, is a literal of itself.
pub proof fn lemma_binding_of(s: Seq<char>)
    ensures
        s.len() >= 2 && s[0] == '{' && s[s.len() - 1] == '}' ==> binding_of(s) == BindingView::Variable(
            trim(s.subrange(1, s.len() - 1)),
        ),
        !(s.len() >= 2 && s[0] == '{' && s[s.len() - 1] == '}') ==> binding_of(s)
            == BindingView::Literal(s),
{
}

impl Binding {
    /// A copy of this binding.
    pub fn copy(&self) -> (r: Binding)
        ensures
            r@ == self@,
    {
        match self {
            Binding::Variable(name) => Binding::Variable(name.clone()),
            Binding::Literal(value) => Binding::Literal(value.clone()),
        }
    }

    /// Reads a configured value: `{name}` names a variable, anything else is a literal.
    pub fn from_str(s: &str) -> (r: Binding)
        ensures
            r@ == binding_of(s@),
    {
        let n = s.unicode_len();
        if n >= 2 && s.get_char(0) == '{' && s.get_char(n - 1) == '}' {
            let inner = s.substring_char(1, n - 1);
            Binding::Variable(String::from_str(trim_str(inner)))
        } else {
            Binding::Literal(String::from_str(s))
        }
    }
}

/// The views of a sequence of bindings.
pub open spec fn binding_views(s: Seq<Binding>) -> Seq<BindingView> {
    s.map_values(|b: Binding| b@)
}

/// A request field, by name, that must equal a value or that a variable captures.
#[derive(Debug, Clone)]
pub struct Entity {
    pub name: String,
    pub value: Binding,
}

impl Entity {
    /// The condition that this entity stands for.
    pub fn to_match(&self) -> (r: EntityMatch)
        ensures
            r@ == self@,
    {
        EntityMatch::EqualsOrExtract { name: self.name.clone(), value: self.value.copy() }
    }
}

/// A condition on one named request field (a header or a query parameter).
#[derive(Debug, Clone)]
pub enum EntityMatch {
    /// The field must be present; a literal value must equal it, a variable captures it.
    EqualsOrExtract { name: String, value: Binding },
    /// The field must be present; its value is not looked at.
    Exists { name: String },
}

impl EntityMatch {
    /// The condition that a configured field entry denotes: with a value, the
    /// field must equal or is captured by that value read as a binding;
    /// without one, the field must be present.
    pub fn from_config(name: String, value: Option<&str>) -> (r: EntityMatch)
        ensures
            r@ == match value {
                Some(v) => EntityMatchView::EqualsOrExtract { name: name@, value: binding_of(v@) },
                None => EntityMatchView::Exists { name: name@ },
            },
    {
        match value {
            Some(v) => EntityMatch::EqualsOrExtract { name, value: Binding::from_str(v) },
            None => EntityMatch::Exists { name },
        }
    }
}

/// A condition on one named request field, as characters.
pub enum EntityMatchView {
    EqualsOrExtract { name: Seq<char>, value: BindingView },
    Exists { name: Seq<char> },
}

impl View for EntityMatch {
    type V = EntityMatchView;

    open spec fn view(&self) -> EntityMatchView {
        match self {
            EntityMatch::EqualsOrExtract { name, value } => EntityMatchView::EqualsOrExtract {
                name: name@,
                value: value@,
            },
            EntityMatch::Exists { name } => EntityMatchView::Exists { name: name@ },
        }
    }
}

impl View for Entity {
    type V = EntityMatchView;

    /// An entity is the condition that its field equals or is captured by its value.
    open spec fn view(&self) -> EntityMatchView {
        EntityMatchView::EqualsOrExtract { name: self.name@, value: self.value@ }
    }
}

/// The views of an optional list of field conditions; none stands for no condition.
pub open spec fn entity_match_views(o: Option<Vec<EntityMatch>>) -> Seq<EntityMatchView> {
    match o {
        Some(v) => v@.map_values(|e: EntityMatch| e@),
        None => Seq::empty(),
    }
}

/// The views of an optional list of entities; none stands for no condition.
pub open spec fn entity_views(o: Option<Vec<Entity>>) -> Seq<EntityMatchView> {
    match o {
        Some(v) => v@.map_values(|e: Entity| e@),
        None => Seq::empty(),
    }
}

/// The resource attributes of an authorization query, each possibly bound
/// to a request variable.
#[derive(Debug, Clone)]
pub struct SarAttributes {
    pub namespace: Option<Binding>,
    pub api_group: Option<Binding>,
    pub api_version: Option<Binding>,
    pub resource: Option<Binding>,
    pub sub_resource: Option<Binding>,
    pub verb: Option<Binding>,
}

/// The view of an optional binding.
pub open spec fn opt_binding_view(o: Option<Binding>) -> Option<BindingView> {
    match o {
        Some(b) => Some(b@),
        None => None,
    }
}

/// The resource attributes of an authorization query, as bindings.
pub struct SarAttributesView {
    pub namespace: Option<BindingView>,
    pub api_group: Option<BindingView>,
    pub api_version: Option<BindingView>,
    pub resource: Option<BindingView>,
    pub sub_resource: Option<BindingView>,
    pub verb: Option<BindingView>,
}

impl View for SarAttributes {
    type V = SarAttributesView;

    open spec fn view(&self) -> SarAttributesView {
        SarAttributesView {
            namespace: opt_binding_view(self.namespace),
            api_group: opt_binding_view(self.api_group),
            api_version: opt_binding_view(self.api_version),
            resource: opt_binding_view(self.resource),
            sub_resource: opt_binding_view(self.sub_resource),
            verb: opt_binding_view(self.verb),
        }
    }
}

/// The four resource attributes of the first rule format, each bound.
#[derive(Debug, Clone)]
pub struct SARAttributes {
    pub namespace: Binding,
    pub api_group: Binding,
    pub resource: Binding,
    pub verb: Binding,
}

/// Where a variable of the first rule format takes its value from.
#[derive(Debug, Clone)]
pub enum Extractor {
    /// `name` takes the value of the request header `header`.
    Header { name: String, header: String },
    /// Each `{name}` segment of `path` takes the request path segment at its position.
    Path { path: Vec<String> },
    /// `name` takes the value of the query parameter `parameter`.
    Query { name: String, parameter: String },
}

/// Where requests are forwarded to.
#[derive(Debug, Clone)]
pub struct Upstream {
    pub host: String,
    pub port: u16,
}

/// How tokens are authenticated and how the authenticated identity is passed upstream.
#[derive(Debug, Clone)]
pub struct AuthConfig {
    pub cache_ttl_secs: u64,
    pub token_review_audiences: Vec<String>,
    pub user_header: String,
    pub groups_header: String,
    pub groups_header_delimiter: String,
}

/// The header that carries the authenticated user name when none is configured.
pub fn default_user_header() -> (r: String)
    ensures
        r@ == "x-remote-user"@,
{
    String::from_str("x-remote-user")
}

/// The header that carries the authenticated groups when none is configured.
pub fn default_groups_header() -> (r: String)
    ensures
        r@ == "x-remote-groups"@,
{
    String::from_str("x-remote-groups")
}

/// The text between two groups in the groups header when none is configured.
pub fn default_groups_header_delimiter() -> (r: String)
    ensures
        r@ == "|"@,
{
    String::from_str("|")
}

/// The certificate and key of a TLS listener.
#[derive(Debug, Clone, Default)]
pub struct TLSConfig {
    pub cert_file: String,
    pub key_file: String,
}

/// An address to listen on.
#[derive(Debug, Clone)]
pub struct Listener {
    pub host: String,
    pub port: u16,
    pub tls: Option<TLSConfig>,
}

/// Where metrics are served.
#[derive(Debug, Clone)]
pub struct PrometheusConfig {
    pub listener: Listener,
}

/// The whole configuration.
#[derive(Debug, Clone)]
pub struct ProxyConfig {
    pub auth: AuthConfig,
    pub prometheus: Option<PrometheusConfig>,
    pub grpc: crate::config::grpc::GrpcConfig,
    pub http: crate::config::http::HttpConfig,
}

/// How a configured rule grants access.
#[derive(Debug, Clone)]
pub enum Access {
    /// An authorization query on these resource attributes must allow the request.
    Sar(Box<SarAttributes>),
    /// No token is needed.
    NoAuth,
}

/// A rule that lets requests without a token through.
#[derive(Debug, Clone)]
pub struct NoAuthRule<R> {
    pub name: String,
    pub request: R,
}

/// A rule that lets a request through when an authorization query allows it.
#[derive(Debug, Clone)]
pub struct SarRule<R> {
    pub name: String,
    pub request: R,
    pub sar: SarAttributes,
}

/// The configuration of one protocol's gateway, rules split by how they grant access.
#[derive(Debug, Clone)]
pub struct ProtocolConfig<R> {
    pub listener: Listener,
    pub upstream: Upstream,
    pub rules: Vec<SarRule<R>>,
    pub no_auth_rules: Vec<NoAuthRule<R>>,
}

/// A rule as written in the configuration file.
#[derive(Debug, Clone)]
pub struct RawRule<R> {
    pub name: String,
    pub request: R,
    pub access: Access,
}

/// A protocol's configuration as written in the configuration file.
#[derive(Debug, Clone)]
pub struct RawProtocolConfig<R> {
    pub listener: Listener,
    pub upstream: Upstream,
    pub rules: Vec<RawRule<R>>,
}

/// The rules among `raw` that need an authorization query, in their order.
pub open spec fn sar_rules_of<R>(raw: Seq<RawRule<R>>) -> Seq<SarRule<R>>
    decreases raw.len(),
{
    if raw.len() == 0 {
        Seq::empty()
    } else {
        let earlier = sar_rules_of(raw.drop_last());
        match raw.last().access {
            Access::Sar(sar) => earlier.push(
                SarRule { name: raw.last().name, request: raw.last().request, sar: *sar },
            ),
            Access::NoAuth => earlier,
        }
    }
}

/// The rules among `raw` that need no token, in their order.
pub open spec fn no_auth_rules_of<R>(raw: Seq<RawRule<R>>) -> Seq<NoAuthRule<R>>
    decreases raw.len(),
{
    if raw.len() == 0 {
        Seq::empty()
    } else {
        let earlier = no_auth_rules_of(raw.drop_last());
        match raw.last().access {
            Access::Sar(_) => earlier,
            Access::NoAuth => earlier.push(
                NoAuthRule { name: raw.last().name, request: raw.last().request },
            ),
        }
    }
}

/// Law: splitting the configured rules keeps every one of them: each
/// lands in exactly one of the two lists.
pub proof fn lemma_rules_partitioned<R>(raw: Seq<RawRule<R>>)
    ensures
        sar_rules_of(raw).len() + no_auth_rules_of(raw).len() == raw.len(),
    decreases raw.len(),
{
    if raw.len() > 0 {
        lemma_rules_partitioned(raw.drop_last());
    }
}

/// Law: splitting the rules of a configuration made of two parts gives the
/// rules of the first part, then those of the second; a rule with resource
/// attributes becomes the rule that queries them, and a no-token rule adds
/// nothing to that list.
pub proof fn lemma_sar_rules_of_concat<R>(a: Seq<RawRule<R>>, b: Seq<RawRule<R>>, r: RawRule<R>)
    ensures
        sar_rules_of(a + b) == sar_rules_of(a) + sar_rules_of(b),
        sar_rules_of(seq![r]) == match r.access {
            Access::Sar(sar) => seq![SarRule { name: r.name, request: r.request, sar: *sar }],
            Access::NoAuth => Seq::empty(),
        },
    decreases b.len(),
{
    assert(seq![r].drop_last() =~= Seq::<RawRule<R>>::empty());
    assert(seq![r].last() == r);
    assert(sar_rules_of(Seq::<RawRule<R>>::empty()) == Seq::<SarRule<R>>::empty());
    match r.access {
        Access::Sar(sar) => {
            let e = SarRule { name: r.name, request: r.request, sar: *sar };
            assert(Seq::<SarRule<R>>::empty().push(e) =~= seq![e]);
        },
        Access::NoAuth => {},
    }
    if b.len() == 0 {
        assert(a + b =~= a);
        assert(sar_rules_of(a) + Seq::<SarRule<R>>::empty() =~= sar_rules_of(a));
    } else {
        assert((a + b).drop_last() =~= a + b.drop_last());
        lemma_sar_rules_of_concat(a, b.drop_last(), r);
        let x = sar_rules_of(a);
        let y = sar_rules_of(b.drop_last());
        match b.last().access {
            Access::Sar(sar) => {
                let e = SarRule { name: b.last().name, request: b.last().request, sar: *sar };
                assert((x + y).push(e) =~= x + y.push(e));
            },
            Access::NoAuth => {},
        }
    }
}

/// Law: splitting the rules of a configuration made of two parts gives the
/// no-token rules of the first part, then those of the second; a no-token
/// rule is kept with its name and request, and a rule with resource
/// attributes adds nothing to that list.
pub proof fn lemma_no_auth_rules_of_concat<R>(
    a: Seq<RawRule<R>>,
    b: Seq<RawRule<R>>,
    r: RawRule<R>,
)
    ensures
        no_auth_rules_of(a + b) == no_auth_rules_of(a) + no_auth_rules_of(b),
        no_auth_rules_of(seq![r]) == match r.access {
            Access::Sar(_) => Seq::empty(),
            Access::NoAuth => seq![NoAuthRule { name: r.name, request: r.request }],
        },
    decreases b.len(),
{
    assert(seq![r].drop_last() =~= Seq::<RawRule<R>>::empty());
    assert(seq![r].last() == r);
    assert(no_auth_rules_of(Seq::<RawRule<R>>::empty()) == Seq::<NoAuthRule<R>>::empty());
    match r.access {
        Access::NoAuth => {
            let e = NoAuthRule { name: r.name, request: r.request };
            assert(Seq::<NoAuthRule<R>>::empty().push(e) =~= seq![e]);
        },
        Access::Sar(_) => {},
    }
    if b.len() == 0 {
        assert(a + b =~= a);
        assert(no_auth_rules_of(a) + Seq::<NoAuthRule<R>>::empty() =~= no_auth_rules_of(a));
    } else {
        assert((a + b).drop_last() =~= a + b.drop_last());
        lemma_no_auth_rules_of_concat(a, b.drop_last(), r);
        let x = no_auth_rules_of(a);
        let y = no_auth_rules_of(b.drop_last());
        match b.last().access {
            Access::NoAuth => {
                let e = NoAuthRule { name: b.last().name, request: b.last().request };
                assert((x + y).push(e) =~= x + y.push(e));
            },
            Access::Sar(_) => {},
        }
    }
}

impl<R> ProtocolConfig<R> {
    /// Splits the configured rules into those that need an authorization query
    /// and those that need no token, each kept in the configured order.
    pub fn from_raw(raw: RawProtocolConfig<R>) -> (r: Self)
        ensures
            r.listener == raw.listener,
            r.upstream == raw.upstream,
            r.rules@ == sar_rules_of(raw.rules@),
            r.no_auth_rules@ == no_auth_rules_of(raw.rules@),
    {
        let ghost all = raw.rules@;
        let mut pending = raw.rules;
        let mut rules: Vec<SarRule<R>> = Vec::new();
        let mut no_auth_rules: Vec<NoAuthRule<R>> = Vec::new();
        let ghost mut done: int = 0;
        assert(all.take(0) =~= Seq::<RawRule<R>>::empty());
        assert(all.skip(0) =~= all);
        while pending.len() > 0
            invariant
                0 <= done <= all.len(),
                pending@ == all.skip(done),
                rules@ == sar_rules_of(all.take(done)),
                no_auth_rules@ == no_auth_rules_of(all.take(done)),
            decreases pending@.len(),
        {
            let rule = pending.remove(0);
            assert(all.take(done + 1).drop_last() =~= all.take(done));
            assert(all.take(done + 1).last() == rule);
            match rule.access {
                Access::Sar(sar) => {
                    rules.push(SarRule { name: rule.name, request: rule.request, sar: *sar });
                },
                Access::NoAuth => {
                    no_auth_rules.push(NoAuthRule { name: rule.name, request: rule.request });
                },
            }
            proof {
                assert(pending@ =~= all.skip(done + 1));
                done = done + 1;
            }
        }
        assert(all.take(done) =~= all);
        ProtocolConfig { listener: raw.listener, upstream: raw.upstream, rules, no_auth_rules }
    }
}

} // verus!
