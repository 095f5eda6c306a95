//! What the gateways decide around token authentication and authorization queries,
//! and the request data they read for it.

use vstd::prelude::*;

use crate::auth::{opt_view, AuthError, AuthInfo, RbacAttributes, RbacAttributesView};
use crate::config::defs::{
    opt_binding_view, AuthConfig, Binding, BindingView, NoAuthRule, SarAttributes,
    SarAttributesView, SarRule,
};
use crate::text::{segments, split_segments, str_views, strings_view};
use crate::utils::policy::resolve_binding;
use crate::utils::variables::{vars_view, ConfigVariables, VarMap};

verus! {

/// The value that an optional binding takes under `vars`; an absent binding has none.
pub open spec fn resolve_opt(b: Option<BindingView>, vars: VarMap) -> Option<Seq<char>> {
    match b {
        Some(b) => resolve_binding(b, vars),
        None => None,
    }
}

/// The value that `value` takes under `variables`; none when it is absent or
/// names a variable that is not set.
pub fn resolve(value: Option<&Binding>, variables: &ConfigVariables) -> (r: Option<String>)
    ensures
        opt_view(r) == resolve_opt(
            match value {
                Some(b) => Some(b@),
                None => None,
            },
            variables@,
        ),
{
    match value {
        Some(b) => crate::utils::policy::resolve(b, variables),
        None => None,
    }
}

/// The resource attributes that `sar` yields under `vars`, each resolved.
pub open spec fn compile_attributes(sar: SarAttributesView, vars: VarMap) -> RbacAttributesView {
    RbacAttributesView {
        namespace: resolve_opt(sar.namespace, vars),
        api_group: resolve_opt(sar.api_group, vars),
        api_version: resolve_opt(sar.api_version, vars),
        resource: resolve_opt(sar.resource, vars),
        sub_resource: resolve_opt(sar.sub_resource, vars),
        verb: resolve_opt(sar.verb, vars),
    }
}

/// Law: each attribute of the authorization query comes from the attribute
/// of the same name in the rule: a literal gives itself, a `{variable}`
/// gives the value the request set for it (none when it set none), and an
/// absent attribute gives none.
pub proof fn lemma_compile_attributes_fields(sar: SarAttributesView, vars: VarMap)
    ensures
        compile_attributes(sar, vars).namespace == match sar.namespace {
            Some(BindingView::Variable(n)) => if vars.contains_key(n) {
                Some(vars[n])
            } else {
                None
            },
            Some(BindingView::Literal(v)) => Some(v),
            None => None,
        },
        compile_attributes(sar, vars).api_group == match sar.api_group {
            Some(BindingView::Variable(n)) => if vars.contains_key(n) {
                Some(vars[n])
            } else {
                None
            },
            Some(BindingView::Literal(v)) => Some(v),
            None => None,
        },
        compile_attributes(sar, vars).api_version == match sar.api_version {
            Some(BindingView::Variable(n)) => if vars.contains_key(n) {
                Some(vars[n])
            } else {
                None
            },
            Some(BindingView::Literal(v)) => Some(v),
            None => None,
        },
        compile_attributes(sar, vars).resource == match sar.resource {
            Some(BindingView::Variable(n)) => if vars.contains_key(n) {
                Some(vars[n])
            } else {
                None
            },
            Some(BindingView::Literal(v)) => Some(v),
            None => None,
        },
        compile_attributes(sar, vars).sub_resource == match sar.sub_resource {
            Some(BindingView::Variable(n)) => if vars.contains_key(n) {
                Some(vars[n])
            } else {
                None
            },
            Some(BindingView::Literal(v)) => Some(v),
            None => None,
        },
        compile_attributes(sar, vars).verb == match sar.verb {
            Some(BindingView::Variable(n)) => if vars.contains_key(n) {
                Some(vars[n])
            } else {
                None
            },
            Some(BindingView::Literal(v)) => Some(v),
            None => None,
        },
{
}

/// Resolves each attribute of `resource_attributes` under `variables`.
pub fn compile_resource_attributes(
    resource_attributes: &SarAttributes,
    variables: &ConfigVariables,
) -> (r: RbacAttributes)
    ensures
        r@ == compile_attributes(resource_attributes@, variables@),
{
    let namespace = resolve(resource_attributes.namespace.as_ref(), variables);
    let api_group = resolve(resource_attributes.api_group.as_ref(), variables);
    let api_version = resolve(resource_attributes.api_version.as_ref(), variables);
    let resource = resolve(resource_attributes.resource.as_ref(), variables);
    let sub_resource = resolve(resource_attributes.sub_resource.as_ref(), variables);
    let verb = resolve(resource_attributes.verb.as_ref(), variables);
    RbacAttributes { namespace, api_group, resource, sub_resource, verb, api_version }
}

/// The non-empty `/`-separated segments of a request path, in order.
pub fn path_to_vec(path: &str) -> (r: Vec<&str>)
    ensures
        str_views(r@) == segments(path@),
{
    split_segments(path)
}

/// The text `Bearer ` that opens a bearer `authorization` header.
pub open spec fn bearer_prefix() -> Seq<char> {
    seq!['B', 'e', 'a', 'r', 'e', 'r', ' ']
}

/// The token of a bearer `authorization` header value: what follows
/// `Bearer `, or none when the value does not open with it.
pub open spec fn bearer_token_of(value: Seq<char>) -> Option<Seq<char>> {
    if bearer_prefix().is_prefix_of(value) {
        Some(value.skip(bearer_prefix().len() as int))
    } else {
        None
    }
}

/// Whether the header byte `b` is visible ASCII or a tab: the bytes that a
/// header value may hold to be read as text.
pub open spec fn is_visible_header_byte(b: u8) -> bool {
    (32 <= b && b < 127) || b == 9
}

/// Whether every byte of a raw header value is visible ASCII or a tab, so
/// that the value can be read as text.
pub fn header_is_visible_ascii(value: &[u8]) -> (r: bool)
    ensures
        r == forall|i: int| 0 <= i < value@.len() ==> #[trigger] is_visible_header_byte(value@[i]),
{
    let n = value.len();
    let mut i: usize = 0;
    while i < n
        invariant
            n == value@.len(),
            i <= n,
            forall|j: int| 0 <= j < i ==> #[trigger] is_visible_header_byte(value@[j]),
        decreases n - i,
    {
        let b = value[i];
        if !((32 <= b && b < 127) || b == 9) {
            assert(!is_visible_header_byte(value@[i as int]));
            return false;
        }
        i = i + 1;
    }
    true
}

/// Reads the token of a bearer `authorization` header value.
pub fn bearer_token(authorization: &str) -> (r: Option<&str>)
    ensures
        opt_str_view(r) == bearer_token_of(authorization@),
{
    let prefix = "Bearer ";
    proof {
        reveal_strlit("Bearer ");
        assert(prefix@ =~= bearer_prefix());
    }
    let n = authorization.unicode_len();
    if n < 7 {
        return None;
    }
    let head = authorization.substring_char(0, 7);
    if crate::text::str_eq(head, prefix) {
        assert(bearer_prefix().is_prefix_of(authorization@)) by {
            assert(authorization@.take(7) =~= head@);
        }
        let token = authorization.substring_char(7, n);
        Some(token)
    } else {
        assert(!bearer_prefix().is_prefix_of(authorization@)) by {
            assert(authorization@.take(7) =~= head@);
        }
        None
    }
}

/// Law: the token of `Bearer <token>` is `<token>`.
pub proof fn lemma_bearer_token_of(token: Seq<char>)
    ensures
        bearer_token_of(bearer_prefix() + token) == Some(token),
{
    assert((bearer_prefix() + token).skip(7) =~= token);
    assert(bearer_prefix().is_prefix_of(bearer_prefix() + token)) by {
        assert((bearer_prefix() + token).take(7) =~= bearer_prefix());
    }
}

/// The characters of an optional string slice.
pub open spec fn opt_str_view(o: Option<&str>) -> Option<Seq<char>> {
    match o {
        Some(s) => Some(s@),
        None => None,
    }
}

/// The texts of `list` joined, with `sep` between each two.
pub open spec fn join(list: Seq<Seq<char>>, sep: Seq<char>) -> Seq<char>
    decreases list.len(),
{
    if list.len() == 0 {
        Seq::empty()
    } else if list.len() == 1 {
        list[0]
    } else {
        join(list.drop_last(), sep) + sep + list.last()
    }
}

/// Law: an `authorization` value carries a bearer token exactly when it is
/// `Bearer ` (capital `B`, one space) followed by the token, and the token
/// is all that follows.
pub proof fn lemma_bearer_token_exact(value: Seq<char>, token: Seq<char>)
    ensures
        bearer_token_of(seq!['B', 'e', 'a', 'r', 'e', 'r', ' '] + token) == Some(token),
        (forall|t: Seq<char>| value != seq!['B', 'e', 'a', 'r', 'e', 'r', ' '] + t)
            ==> bearer_token_of(value) is None,
{
    let p = seq!['B', 'e', 'a', 'r', 'e', 'r', ' '];
    assert(p =~= bearer_prefix());
    assert((p + token).skip(7) =~= token);
    assert(bearer_prefix().is_prefix_of(p + token)) by {
        assert((p + token).take(7) =~= p);
    }
    if bearer_prefix().is_prefix_of(value) {
        assert(value =~= p + value.skip(7));
    }
}

/// Law: joining a single text gives it back, and joining two non-empty
/// lists one after the other puts one separator between their joins.
pub proof fn lemma_join(a: Seq<Seq<char>>, b: Seq<Seq<char>>, x: Seq<char>, sep: Seq<char>)
    ensures
        join(Seq::empty(), sep) == Seq::<char>::empty(),
        join(seq![x], sep) == x,
        a.len() > 0 && b.len() > 0 ==> join(a + b, sep) == join(a, sep) + sep + join(b, sep),
    decreases b.len(),
{
    if a.len() > 0 && b.len() > 0 {
        assert((a + b).drop_last() =~= a + b.drop_last());
        assert((a + b).last() == b.last());
        if b.len() == 1 {
            assert(a + b.drop_last() =~= a);
            assert(join(b, sep) == b[0]);
        } else {
            lemma_join(a, b.drop_last(), x, sep);
            assert(join(a, sep) + sep + join(b.drop_last(), sep) + sep + b.last() =~= join(a, sep)
                + sep + (join(b.drop_last(), sep) + sep + b.last()));
        }
    }
}

/// The groups joined with `delimiter` between each two.
pub fn join_groups(groups: &Vec<String>, delimiter: &str) -> (r: String)
    ensures
        r@ == join(strings_view(groups@), delimiter@),
{
    let ghost list = strings_view(groups@);
    let mut out = String::new();
    let n = groups.len();
    let mut i: usize = 0;
    assert(list.take(0) =~= Seq::<Seq<char>>::empty());
    while i < n
        invariant
            n == groups@.len(),
            i <= n,
            list == strings_view(groups@),
            out@ == join(list.take(i as int), delimiter@),
        decreases n - i,
    {
        assert(list.take(i + 1).drop_last() =~= list.take(i as int));
        assert(list.take(i + 1).last() == groups@[i as int]@);
        if i > 0 {
            out.append(delimiter);
        }
        out.append(groups[i].as_str());
        proof {
            if i == 0 {
                assert(out@ =~= list.take(1)[0]);
            }
        }
        i = i + 1;
    }
    assert(list.take(n as int) =~= list);
    out
}

/// The headers that carry the authenticated identity upstream: the user name
/// under the configured user header, and the groups, joined by the
/// configured delimiter, under the configured groups header.
pub fn identity_headers(config: &AuthConfig, auth_info: &AuthInfo) -> (r: Vec<(String, String)>)
    ensures
        r@.len() == 2,
        r@[0].0@ == config.user_header@,
        r@[0].1@ == auth_info.username@,
        r@[1].0@ == config.groups_header@,
        r@[1].1@ == join(strings_view(auth_info.groups@), config.groups_header_delimiter@),
{
    let groups_value = join_groups(&auth_info.groups, config.groups_header_delimiter.as_str());
    let mut out: Vec<(String, String)> = Vec::new();
    out.push((config.user_header.clone(), auth_info.username.clone()));
    out.push((config.groups_header.clone(), groups_value));
    out
}

/// A request that a rule let through: the rule's name, and the identity of
/// the token when it came with one.
#[derive(Debug)]
pub struct AllowedRequest {
    pub rule_name: String,
    pub auth_info: Option<AuthInfo>,
}

/// Why a request is not let through.
#[derive(Debug)]
pub enum Denial {
    /// Token authentication did not establish an identity.
    AuthenticationFailed(AuthError),
    /// The authorization query did not allow the request.
    AuthorizationFailed(AuthError),
    /// No rule of the kind that applies matched the request.
    NoRuleMatched,
}

impl Denial {
    /// The text that tells the client why.
    pub fn message(&self) -> (r: String)
        ensures
            match self {
                Denial::AuthenticationFailed(e) => r@ == e.message_spec(),
                Denial::AuthorizationFailed(e) => r@ == e.message_spec(),
                Denial::NoRuleMatched => r@ == "no rule matched"@,
            },
    {
        match self {
            Denial::AuthenticationFailed(e) => e.message(),
            Denial::AuthorizationFailed(e) => e.message(),
            Denial::NoRuleMatched => String::from_str("no rule matched"),
        }
    }
}

/// The HTTP status that a refused request is answered with: 401 when its
/// token did not authenticate, or when it came without one and no rule
/// open to such requests matched; 403 when the authorization query refused
/// it, or when it came with a token and no rule matched.
pub fn http_denial_status(denial: &Denial, had_token: bool) -> (r: u16)
    ensures
        r == match denial {
            Denial::AuthenticationFailed(_) => 401u16,
            Denial::AuthorizationFailed(_) => 403u16,
            Denial::NoRuleMatched => if had_token {
                403u16
            } else {
                401u16
            },
        },
{
    match denial {
        Denial::AuthenticationFailed(_) => 401,
        Denial::AuthorizationFailed(_) => 403,
        Denial::NoRuleMatched => if had_token {
            403
        } else {
            401
        },
    }
}

/// Where the evaluation of a request stands: waiting for the authentication of
/// `token`, waiting for an authorization query on `attributes` for the
/// identity `auth_info` under the rule `rule_name`, or decided.
#[derive(Debug)]
pub enum Evaluation {
    Authenticate { token: String },
    Authorize { rule_name: String, auth_info: AuthInfo, attributes: RbacAttributes },
    Allow(AllowedRequest),
    Deny(Denial),
}

/// What a rule matcher yields for each request condition: the variables,
/// or none when the request does not meet it.
pub type RuleModel<R> = spec_fn(R) -> Option<VarMap>;

/// Every answer of the rule matcher `f` is the one that `model` gives for
/// the conditions asked about.
pub open spec fn rule_answers_as<R, F: Fn(&R) -> Option<ConfigVariables>>(
    f: F,
    model: RuleModel<R>,
) -> bool {
    forall|x: &R, r: Option<ConfigVariables>| #[trigger] f.ensures((x,), r) ==> vars_view(r) == model(*x)
}

/// The position of the first of `reqs` that `model` matches, or the length
/// of `reqs` when none does.
pub open spec fn first_match<R>(reqs: Seq<R>, model: RuleModel<R>) -> int
    decreases reqs.len(),
{
    if reqs.len() == 0 {
        0
    } else {
        let k = first_match(reqs.drop_last(), model);
        if k < reqs.len() - 1 {
            k
        } else if model(reqs.last()) is Some {
            reqs.len() - 1
        } else {
            reqs.len() as int
        }
    }
}

/// Law: the rule chosen is the first that matches: every earlier one fails
/// to match, and when none matches, no rule is chosen.
pub proof fn lemma_first_match_is_first<R>(reqs: Seq<R>, model: RuleModel<R>)
    ensures
        0 <= first_match(reqs, model) <= reqs.len(),
        first_match(reqs, model) < reqs.len() ==> model(reqs[first_match(reqs, model)]) is Some,
        forall|j: int| 0 <= j < first_match(reqs, model) ==> #[trigger] model(reqs[j]) is None,
    decreases reqs.len(),
{
    if reqs.len() > 0 {
        lemma_first_match_is_first(reqs.drop_last(), model);
        assert forall|j: int| 0 <= j < first_match(reqs, model) implies #[trigger] model(reqs[j]) is None by {
            if j < reqs.len() - 1 {
                assert(model(reqs.drop_last()[j]) is None);
            }
        }
    }
}

/// The request conditions of SAR rules, in order.
pub open spec fn sar_requests<R>(rules: Seq<SarRule<R>>) -> Seq<R> {
    rules.map_values(|rule: SarRule<R>| rule.request)
}

/// The request conditions of no-token rules, in order.
pub open spec fn no_auth_requests<R>(rules: Seq<NoAuthRule<R>>) -> Seq<R> {
    rules.map_values(|rule: NoAuthRule<R>| rule.request)
}

/// Law: the request conditions that rule matching reads are those of the
/// rules themselves, one per rule, in the rules' order.
pub proof fn lemma_rule_requests<R>(rules: Seq<SarRule<R>>, open_rules: Seq<NoAuthRule<R>>)
    ensures
        sar_requests(rules).len() == rules.len(),
        forall|i: int| 0 <= i < rules.len() ==> #[trigger] sar_requests(rules)[i] == rules[i].request,
        no_auth_requests(open_rules).len() == open_rules.len(),
        forall|i: int|
            0 <= i < open_rules.len() ==> #[trigger] no_auth_requests(open_rules)[i]
                == open_rules[i].request,
{
}

/// Reading one more condition after `i` non-matching ones.
pub proof fn lemma_first_match_step<R>(reqs: Seq<R>, model: RuleModel<R>, i: int)
    requires
        0 <= i < reqs.len(),
        first_match(reqs.take(i), model) == i,
    ensures
        first_match(reqs.take(i + 1), model) == if model(reqs[i]) is Some {
            i
        } else {
            i + 1
        },
{
    assert(reqs.take(i + 1).drop_last() =~= reqs.take(i));
}

/// A match found in a prefix is the first match of the whole sequence.
pub proof fn lemma_first_match_prefix<R>(reqs: Seq<R>, model: RuleModel<R>, j: int)
    requires
        0 <= j <= reqs.len(),
        first_match(reqs.take(j), model) < j,
    ensures
        first_match(reqs, model) == first_match(reqs.take(j), model),
    decreases reqs.len(),
{
    if j == reqs.len() {
        assert(reqs.take(j) =~= reqs);
    } else {
        assert(reqs.drop_last().take(j) =~= reqs.take(j));
        lemma_first_match_prefix(reqs.drop_last(), model, j);
    }
}

/// The first of `rules` whose request conditions `match_rule` matches, with
/// the variables it yields.
fn first_matching_sar_rule<R, F: Fn(&R) -> Option<ConfigVariables>>(
    rules: &[SarRule<R>],
    match_rule: F,
) -> (r: Option<(usize, ConfigVariables)>)
    requires
        forall|x: &R| match_rule.requires((x,)),
    ensures
        r matches Some((i, _)) ==> i < rules@.len(),
        forall|model: RuleModel<R>| #[trigger]
            rule_answers_as(match_rule, model) ==> {
                let reqs = sar_requests(rules@);
                let k = first_match(reqs, model);
                match r {
                    Some((i, vars)) => i == k && k < reqs.len() && model(reqs[k]) == Some(vars@),
                    None => k == reqs.len(),
                }
            },
{
    let ghost reqs = sar_requests(rules@);
    let n = rules.len();
    let mut i: usize = 0;
    assert(reqs.take(0) =~= Seq::<R>::empty());
    while i < n
        invariant
            n == rules@.len(),
            reqs == sar_requests(rules@),
            i <= n,
            forall|x: &R| match_rule.requires((x,)),
            forall|model: RuleModel<R>| #[trigger]
                rule_answers_as(match_rule, model) ==> first_match(reqs.take(i as int), model)
                    == i,
        decreases n - i,
    {
        let found = match_rule(&rules[i].request);
        assert(reqs[i as int] == rules@[i as int].request);
        match found {
            Some(vars) => {
                assert forall|model: RuleModel<R>| #[trigger]
                    rule_answers_as(match_rule, model) implies {
                    let k = first_match(reqs, model);
                    k == i && k < reqs.len() && model(reqs[k]) == Some(vars@)
                } by {
                    assert(vars_view(Some(vars)) == model(rules@[i as int].request));
                    lemma_first_match_step(reqs, model, i as int);
                    lemma_first_match_prefix(reqs, model, i + 1);
                }
                return Some((i, vars));
            },
            None => {
                assert forall|model: RuleModel<R>| #[trigger]
                    rule_answers_as(match_rule, model) implies first_match(
                    reqs.take(i + 1),
                    model,
                ) == i + 1 by {
                    assert(vars_view(None) == model(rules@[i as int].request));
                    lemma_first_match_step(reqs, model, i as int);
                }
            },
        }
        i = i + 1;
    }
    assert(reqs.take(n as int) =~= reqs);
    None
}

/// The first of `rules` whose request conditions `match_rule` matches, with
/// the variables it yields.
fn first_matching_no_auth_rule<R, F: Fn(&R) -> Option<ConfigVariables>>(
    rules: &[NoAuthRule<R>],
    match_rule: F,
) -> (r: Option<(usize, ConfigVariables)>)
    requires
        forall|x: &R| match_rule.requires((x,)),
    ensures
        r matches Some((i, _)) ==> i < rules@.len(),
        forall|model: RuleModel<R>| #[trigger]
            rule_answers_as(match_rule, model) ==> {
                let reqs = no_auth_requests(rules@);
                let k = first_match(reqs, model);
                match r {
                    Some((i, vars)) => i == k && k < reqs.len() && model(reqs[k]) == Some(vars@),
                    None => k == reqs.len(),
                }
            },
{
    let ghost reqs = no_auth_requests(rules@);
    let n = rules.len();
    let mut i: usize = 0;
    assert(reqs.take(0) =~= Seq::<R>::empty());
    while i < n
        invariant
            n == rules@.len(),
            reqs == no_auth_requests(rules@),
            i <= n,
            forall|x: &R| match_rule.requires((x,)),
            forall|model: RuleModel<R>| #[trigger]
                rule_answers_as(match_rule, model) ==> first_match(reqs.take(i as int), model)
                    == i,
        decreases n - i,
    {
        let found = match_rule(&rules[i].request);
        assert(reqs[i as int] == rules@[i as int].request);
        match found {
            Some(vars) => {
                assert forall|model: RuleModel<R>| #[trigger]
                    rule_answers_as(match_rule, model) implies {
                    let k = first_match(reqs, model);
                    k == i && k < reqs.len() && model(reqs[k]) == Some(vars@)
                } by {
                    assert(vars_view(Some(vars)) == model(rules@[i as int].request));
                    lemma_first_match_step(reqs, model, i as int);
                    lemma_first_match_prefix(reqs, model, i + 1);
                }
                return Some((i, vars));
            },
            None => {
                assert forall|model: RuleModel<R>| #[trigger]
                    rule_answers_as(match_rule, model) implies first_match(
                    reqs.take(i + 1),
                    model,
                ) == i + 1 by {
                    assert(vars_view(None) == model(rules@[i as int].request));
                    lemma_first_match_step(reqs, model, i as int);
                }
            },
        }
        i = i + 1;
    }
    assert(reqs.take(n as int) =~= reqs);
    None
}

/// The first step of evaluating a request: with a bearer token, authenticate it;
/// without one, let the request through under the first no-token rule that
/// `match_rule` matches, or deny it when none does.
pub fn start_evaluation<R, F: Fn(&R) -> Option<ConfigVariables>>(
    bearer_token: Option<&str>,
    no_auth_rules: &[NoAuthRule<R>],
    match_rule: F,
) -> (r: Evaluation)
    requires
        forall|x: &R| match_rule.requires((x,)),
    ensures
        match bearer_token {
            Some(token) => r matches Evaluation::Authenticate { token: t } && t@ == token@,
            None => forall|model: RuleModel<R>| #[trigger]
                rule_answers_as(match_rule, model) ==> {
                    let k = first_match(no_auth_requests(no_auth_rules@), model);
                    if k < no_auth_rules@.len() {
                        r matches Evaluation::Allow(allowed) && allowed.rule_name@
                            == no_auth_rules@[k].name@ && allowed.auth_info is None
                    } else {
                        r == Evaluation::Deny(Denial::NoRuleMatched)
                    }
                },
        },
{
    match bearer_token {
        Some(token) => Evaluation::Authenticate { token: String::from_str(token) },
        None => match first_matching_no_auth_rule(no_auth_rules, match_rule) {
            Some((i, _vars)) => Evaluation::Allow(
                AllowedRequest { rule_name: no_auth_rules[i].name.clone(), auth_info: None },
            ),
            None => Evaluation::Deny(Denial::NoRuleMatched),
        },
    }
}

/// The step after token authentication: when it failed, deny the request; when
/// it established an identity, query the authorization that the first rule which
/// `match_rule` matches asks for, its attributes resolved under the
/// variables the match yields, or deny the request when no rule matches.
pub fn after_authentication<R, F: Fn(&R) -> Option<ConfigVariables>>(
    outcome: Result<AuthInfo, AuthError>,
    rules: &[SarRule<R>],
    match_rule: F,
) -> (r: Evaluation)
    requires
        forall|x: &R| match_rule.requires((x,)),
    ensures
        match outcome {
            Err(e) => r == Evaluation::Deny(Denial::AuthenticationFailed(e)),
            Ok(info) => forall|model: RuleModel<R>| #[trigger]
                rule_answers_as(match_rule, model) ==> {
                    let reqs = sar_requests(rules@);
                    let k = first_match(reqs, model);
                    if k < rules@.len() {
                        r matches Evaluation::Authorize { rule_name, auth_info, attributes }
                            && rule_name@ == rules@[k].name@ && auth_info == info && attributes@
                            == compile_attributes(rules@[k].sar@, model(reqs[k])->0)
                    } else {
                        r == Evaluation::Deny(Denial::NoRuleMatched)
                    }
                },
        },
{
    match outcome {
        Err(e) => Evaluation::Deny(Denial::AuthenticationFailed(e)),
        Ok(info) => match first_matching_sar_rule(rules, match_rule) {
            Some((i, vars)) => {
                let attributes = compile_resource_attributes(&rules[i].sar, &vars);
                Evaluation::Authorize {
                    rule_name: rules[i].name.clone(),
                    auth_info: info,
                    attributes,
                }
            },
            None => Evaluation::Deny(Denial::NoRuleMatched),
        },
    }
}

/// The step after the authorization query: let the request through under
/// `rule_name` with the identity `auth_info` when the query allowed it, and
/// deny it when it did not.
pub fn after_authorization(
    outcome: Result<(), AuthError>,
    rule_name: String,
    auth_info: AuthInfo,
) -> (r: Evaluation)
    ensures
        match outcome {
            Err(e) => r == Evaluation::Deny(Denial::AuthorizationFailed(e)),
            Ok(_) => r == Evaluation::Allow(
                AllowedRequest { rule_name, auth_info: Some(auth_info) },
            ),
        },
{
    match outcome {
        Err(e) => Evaluation::Deny(Denial::AuthorizationFailed(e)),
        Ok(_) => Evaluation::Allow(AllowedRequest { rule_name, auth_info: Some(auth_info) }),
    }
}

} // verus!
