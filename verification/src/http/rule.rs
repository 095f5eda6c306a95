//! Whether an HTTP request meets a rule's conditions, and the variables it yields.

use vstd::prelude::*;

use crate::config::defs::{binding_views, Binding, BindingView};
use crate::config::http::{HttpRequestView, RequestMatch};
use crate::text::{ascii_fold, eq_ignore_ascii_case, segments, split_segments, str_eq, str_views};
use crate::utils::matchers::{
    answers_as, entity_holds, lemma_match_entities_succeeds_iff, match_entities, match_entity, Lookup,
};
use crate::utils::variables::{vars_view, ConfigVariables, VarMap};

verus! {

/// How far a path pattern has been read against a request path: still open
/// with the variables captured so far, or closed with its outcome.
pub enum PathWalk {
    Open(VarMap),
    Closed(Option<VarMap>),
}

/// The text `*`: a pattern segment that matches any one segment.
pub open spec fn star() -> Seq<char> {
    seq!['*']
}

/// The text `**`: a pattern segment that matches all the segments after it.
pub open spec fn globstar() -> Seq<char> {
    seq!['*', '*']
}

/// Reading the pattern segment `seg` against the request segment `part`.
pub open spec fn step_segment(seg: BindingView, part: Seq<char>, vars: VarMap) -> PathWalk {
    match seg {
        BindingView::Variable(var) => PathWalk::Open(vars.insert(var, part)),
        BindingView::Literal(literal) => if literal == star() {
            PathWalk::Open(vars)
        } else if literal == globstar() {
            PathWalk::Closed(Some(vars))
        } else if part == literal {
            PathWalk::Open(vars)
        } else {
            PathWalk::Closed(None)
        },
    }
}

/// Reading the first `k` segments of `pattern` against those of `req`.
pub open spec fn walk_path(pattern: Seq<BindingView>, req: Seq<Seq<char>>, k: nat) -> PathWalk
    decreases k,
{
    if k == 0 {
        PathWalk::Open(Map::empty())
    } else {
        match walk_path(pattern, req, (k - 1) as nat) {
            PathWalk::Open(vars) => step_segment(pattern[k - 1], req[k - 1], vars),
            PathWalk::Closed(outcome) => PathWalk::Closed(outcome),
        }
    }
}

/// Whether the last segment of `pattern` is the literal `**` or the variable `{*}`.
pub open spec fn ends_any(pattern: Seq<BindingView>) -> bool {
    pattern.len() > 0 && (pattern.last() == BindingView::Literal(globstar())
        || pattern.last() == BindingView::Variable(star()))
}

/// The variables that the request path segments `req` yield under `pattern`,
/// or none when it does not match: a pattern longer than the request by more
/// than one segment fails, and so does one longer by exactly one unless it
/// ends in `**` or `{*}`; otherwise the segments are read in order, `*`
/// matching any segment, `**` ending the match, a variable capturing its
/// segment and a literal demanding an equal one. Request segments past the
/// pattern are not looked at.
pub open spec fn path_match(pattern: Seq<BindingView>, req: Seq<Seq<char>>) -> Option<VarMap> {
    let m = pattern.len();
    let r = req.len();
    if (m == r + 1 && !ends_any(pattern)) || m > r + 1 {
        None
    } else {
        match walk_path(pattern, req, m as nat) {
            PathWalk::Open(vars) => Some(vars),
            PathWalk::Closed(outcome) => outcome,
        }
    }
}

/// Whether matching `pattern` against `req` stays within the request path:
/// the pattern is not empty, and it is not the case that it is one segment
/// longer than the request, ends in the variable `{*}`, and is read up to
/// that last segment, which would then capture a segment the request lacks.
pub open spec fn path_match_defined(pattern: Seq<BindingView>, req: Seq<Seq<char>>) -> bool {
    &&& pattern.len() > 0
    &&& !(pattern.len() == req.len() + 1 && pattern.last() == BindingView::Variable(star())
        && walk_path(pattern, req, (pattern.len() - 1) as nat) is Open)
}

/// Whether `s` is the text `*`.
fn is_star(s: &str) -> (r: bool)
    ensures
        r == (s@ == star()),
{
    let n = s.unicode_len();
    if n == 1 && s.get_char(0) == '*' {
        assert(s@ =~= star());
        true
    } else {
        false
    }
}

/// Whether `s` is the text `**`.
fn is_globstar(s: &str) -> (r: bool)
    ensures
        r == (s@ == globstar()),
{
    let n = s.unicode_len();
    if n == 2 && s.get_char(0) == '*' && s.get_char(1) == '*' {
        assert(s@ =~= globstar());
        true
    } else {
        false
    }
}

/// Matches the request path segments `request_path` against the path
/// pattern `rule_path`; returns the variables its `{name}` segments capture,
/// or none when the request path does not match.
pub fn check_path(rule_path: &[Binding], request_path: &[&str]) -> (r: Option<ConfigVariables>)
    requires
        path_match_defined(binding_views(rule_path@), str_views(request_path@)),
    ensures
        vars_view(r) == path_match(binding_views(rule_path@), str_views(request_path@)),
{
    let ghost pattern = binding_views(rule_path@);
    let ghost req = str_views(request_path@);
    let mut variables = ConfigVariables::new();
    let m_len = rule_path.len();
    let r_len = request_path.len();
    assert(pattern[m_len - 1] == rule_path@[m_len - 1]@);
    let last_is_any = match &rule_path[m_len - 1] {
        Binding::Literal(literal) => is_globstar(literal.as_str()),
        Binding::Variable(var) => is_star(var.as_str()),
    };
    assert(last_is_any == ends_any(pattern));
    if m_len > r_len && m_len - 1 == r_len && !last_is_any {
        return None;
    }
    if m_len > r_len && m_len - 1 > r_len {
        return None;
    }
    let mut i: usize = 0;
    while i < m_len
        invariant
            m_len == rule_path@.len(),
            r_len == request_path@.len(),
            m_len <= r_len + 1,
            m_len == r_len + 1 ==> ends_any(pattern),
            i <= m_len,
            pattern == binding_views(rule_path@),
            req == str_views(request_path@),
            path_match_defined(pattern, req),
            walk_path(pattern, req, i as nat) == PathWalk::Open(variables@),
        decreases m_len - i,
    {
        assert(pattern[i as int] == rule_path@[i as int]@);
        match &rule_path[i] {
            Binding::Variable(var) => {
                assert(i < r_len);
                assert(req[i as int] == request_path@[i as int]@);
                variables.insert(var.clone(), String::from_str(request_path[i]));
            },
            Binding::Literal(literal) => {
                if is_star(literal.as_str()) {
                } else if is_globstar(literal.as_str()) {
                    assert(walk_path(pattern, req, (i + 1) as nat) == PathWalk::Closed(
                        Some(variables@),
                    ));
                    proof {
                        lemma_walk_closed_stays(pattern, req, (i + 1) as nat, m_len as nat);
                    }
                    return Some(variables);
                } else {
                    assert(i < r_len);
                    assert(req[i as int] == request_path@[i as int]@);
                    if !str_eq(request_path[i], literal.as_str()) {
                        proof {
                            lemma_walk_closed_stays(pattern, req, (i + 1) as nat, m_len as nat);
                        }
                        return None;
                    }
                }
            },
        }
        i = i + 1;
    }
    Some(variables)
}

/// Whether matching the path pattern `rule_path` against the request path
/// segments `request_path` stays within the request path, so that
/// `check_path` may be called on them.
pub fn check_path_defined(rule_path: &[Binding], request_path: &[&str]) -> (r: bool)
    ensures
        r == path_match_defined(binding_views(rule_path@), str_views(request_path@)),
{
    let ghost pattern = binding_views(rule_path@);
    let ghost req = str_views(request_path@);
    let m_len = rule_path.len();
    let r_len = request_path.len();
    if m_len == 0 {
        return false;
    }
    if !(m_len > r_len && m_len - 1 == r_len) {
        return true;
    }
    assert(pattern[m_len - 1] == rule_path@[m_len - 1]@);
    let last_is_star_variable = match &rule_path[m_len - 1] {
        Binding::Variable(var) => is_star(var.as_str()),
        Binding::Literal(_) => false,
    };
    if !last_is_star_variable {
        return true;
    }
    let k = m_len - 1;
    let mut i: usize = 0;
    while i < k
        invariant
            k == r_len,
            r_len == request_path@.len(),
            m_len == rule_path@.len(),
            k < m_len,
            i <= k,
            pattern == binding_views(rule_path@),
            req == str_views(request_path@),
            walk_path(pattern, req, i as nat) is Open,
        decreases k - i,
    {
        assert(pattern[i as int] == rule_path@[i as int]@);
        assert(req[i as int] == request_path@[i as int]@);
        match &rule_path[i] {
            Binding::Variable(_) => {},
            Binding::Literal(literal) => {
                if is_star(literal.as_str()) {
                } else if is_globstar(literal.as_str()) {
                    proof {
                        lemma_walk_closed_stays(pattern, req, (i + 1) as nat, k as nat);
                    }
                    return true;
                } else if !str_eq(request_path[i], literal.as_str()) {
                    proof {
                        lemma_walk_closed_stays(pattern, req, (i + 1) as nat, k as nat);
                    }
                    return true;
                }
            },
        }
        i = i + 1;
    }
    false
}

/// Whether the path conditions of `matches` can be checked against `path`,
/// so that `check_rule` may be called on them.
pub fn rule_path_defined(pattern: &Option<Vec<Binding>>, path: &str) -> (r: bool)
    ensures
        r == (match *pattern {
            Some(p) => path_match_defined(binding_views(p@), segments(path@)),
            None => true,
        }),
{
    match pattern {
        Some(rule_path) => {
            let parts = split_segments(path);
            check_path_defined(rule_path.as_slice(), parts.as_slice())
        },
        None => true,
    }
}

/// Once the walk is closed, reading more segments does not change it.
pub proof fn lemma_walk_closed_stays(
    pattern: Seq<BindingView>,
    req: Seq<Seq<char>>,
    k: nat,
    j: nat,
)
    requires
        k <= j,
        walk_path(pattern, req, k) is Closed,
    ensures
        walk_path(pattern, req, j) == walk_path(pattern, req, k),
    decreases j - k,
{
    if k < j {
        lemma_walk_closed_stays(pattern, req, k, (j - 1) as nat);
    }
}

/// Whether the method conditions allow `method`: absent, or one of them
/// equal to it without regard to ASCII case.
pub open spec fn methods_allow(methods: Option<Seq<Seq<char>>>, method: Seq<char>) -> bool {
    match methods {
        Some(list) => method_listed(list, method),
        None => true,
    }
}

/// Whether one of `list` equals `method` without regard to ASCII case.
pub open spec fn method_listed(list: Seq<Seq<char>>, method: Seq<char>) -> bool {
    exists|j: int| 0 <= j < list.len() && eq_ignore_ascii_case(#[trigger] list[j], method)
}

/// Whether the path conditions of `m` can be checked against `path` within
/// the request path (see `path_match_defined`).
pub open spec fn http_match_defined(m: HttpRequestView, path: Seq<char>) -> bool {
    m.path matches Some(pattern) ==> path_match_defined(pattern, segments(path))
}

/// The variables that an HTTP `method` request for `path` yields under the
/// conditions `m`, its headers looked up by `headers` and its query
/// parameters by `query`, or none when a condition fails: the path
/// variables, then the header variables, then the query variables, each
/// replacing earlier ones of the same name, then `path` and `method` set to
/// the request's path and method.
pub open spec fn http_match(
    m: HttpRequestView,
    path: Seq<char>,
    method: Seq<char>,
    headers: Lookup,
    query: Lookup,
) -> Option<VarMap> {
    let path_vars = match m.path {
        Some(pattern) => path_match(pattern, segments(path)),
        None => Some(Map::empty()),
    };
    match path_vars {
        None => None,
        Some(path_vars) => if !methods_allow(m.methods, method) {
            None
        } else {
            match match_entities(m.headers, headers) {
                None => None,
                Some(header_vars) => match match_entities(m.query_params, query) {
                    None => None,
                    Some(query_vars) => Some(
                        path_vars.union_prefer_right(header_vars).union_prefer_right(
                            query_vars,
                        ).insert("path"@, path).insert("method"@, method),
                    ),
                },
            }
        },
    }
}

/// Whether one of `methods` equals `method` without regard to ASCII case.
pub fn any_method_matches(methods: &Vec<String>, method: &str) -> (r: bool)
    ensures
        r == method_listed(crate::text::strings_view(methods@), method@),
{
    let ghost list = crate::text::strings_view(methods@);
    let n = methods.len();
    let mut i: usize = 0;
    while i < n
        invariant
            n == methods@.len(),
            i <= n,
            list == crate::text::strings_view(methods@),
            forall|j: int| 0 <= j < i ==> !eq_ignore_ascii_case(#[trigger] list[j], method@),
        decreases n - i,
    {
        assert(list[i as int] == methods@[i as int]@);
        if crate::text::str_eq_ignore_ascii_case(methods[i].as_str(), method) {
            assert(eq_ignore_ascii_case(list[i as int], method@));
            assert(exists|j: int|
                0 <= j < list.len() && eq_ignore_ascii_case(#[trigger] list[j], method@));
            return true;
        }
        i = i + 1;
    }
    false
}

/// Checks the path and method conditions and returns the path variables.
pub fn check_path_and_method(
    pattern: &Option<Vec<Binding>>,
    methods: &Option<Vec<String>>,
    path: &str,
    method: &str,
) -> (r: Option<ConfigVariables>)
    requires
        pattern matches Some(p) ==> path_match_defined(binding_views(p@), segments(path@)),
    ensures
        vars_view(r) == ({
            let path_vars = match *pattern {
                Some(p) => path_match(binding_views(p@), segments(path@)),
                None => Some(Map::empty()),
            };
            if path_vars is Some && methods_allow(crate::text::opt_strings_view(*methods), method@) {
                path_vars
            } else {
                None
            }
        }),
{
    let parts = split_segments(path);
    let mut variables = ConfigVariables::new();
    if let Some(rule_path) = pattern {
        match check_path(rule_path.as_slice(), parts.as_slice()) {
            Some(path_vars) => variables.extend(path_vars),
            None => return None,
        }
        assert(variables@ =~= path_match(binding_views(rule_path@), segments(path@))->0);
    }
    if let Some(list) = methods {
        if !any_method_matches(list, method) {
            return None;
        }
    }
    Some(variables)
}

/// Adds the request's path and method to `vars` as `path` and `method`.
pub fn add_request_variables(vars: &mut ConfigVariables, path: &str, method: &str)
    ensures
        final(vars)@ == old(vars)@.insert("path"@, path@).insert("method"@, method@),
{
    vars.insert(String::from_str("path"), String::from_str(path));
    vars.insert(String::from_str("method"), String::from_str(method));
}

/// Checks an HTTP `method` request for `path`, with headers looked up by
/// `get_header` and query parameters by `get_query`, against the conditions
/// `matches`; returns the variables that the request yields, or none when it
/// does not meet them.
pub fn check_rule<F: Fn(&str) -> Option<String>, G: Fn(&str) -> Option<String>>(
    matches: &RequestMatch,
    path: &str,
    method: &str,
    get_header: F,
    get_query: G,
) -> (r: Option<ConfigVariables>)
    requires
        http_match_defined(matches@, path@),
        forall|k: &str| get_header.requires((k,)),
        forall|k: &str| get_query.requires((k,)),
    ensures
        forall|headers: Lookup, query: Lookup|
            #![trigger answers_as(get_header, headers), answers_as(get_query, query)]
            answers_as(get_header, headers) && answers_as(get_query, query) ==> vars_view(r)
                == http_match(matches@, path@, method@, headers, query),
{
    let mut variables = match check_path_and_method(&matches.path, &matches.methods, path, method) {
        Some(vars) => vars,
        None => return None,
    };
    let ghost path_vars = variables@;
    let header_vars = match match_entity(&matches.headers, get_header) {
        Some(vars) => vars,
        None => return None,
    };
    let ghost hv = header_vars@;
    variables.extend(header_vars);
    let query_vars = match match_entity(&matches.query_params, get_query) {
        Some(vars) => vars,
        None => return None,
    };
    let ghost qv = query_vars@;
    variables.extend(query_vars);
    add_request_variables(&mut variables, path, method);
    Some(variables)
}

/// Law: a rule without conditions matches every HTTP request, and yields
/// just its path and method.
pub proof fn lemma_http_unconditioned_rule_matches_all(
    path: Seq<char>,
    method: Seq<char>,
    headers: Lookup,
    query: Lookup,
)
    ensures
        http_match(
            HttpRequestView {
                path: None,
                methods: None,
                headers: Seq::empty(),
                query_params: Seq::empty(),
            },
            path,
            method,
            headers,
            query,
        ) == Some(Map::<Seq<char>, Seq<char>>::empty().insert("path"@, path).insert(
            "method"@,
            method,
        )),
{
    let e = Map::<Seq<char>, Seq<char>>::empty();
    assert(e.union_prefer_right(e).union_prefer_right(e) =~= e);
}

/// Law: method conditions do not tell ASCII letter cases apart: two methods
/// that differ only in case are allowed alike.
pub proof fn lemma_methods_allow_ignores_case(
    methods: Option<Seq<Seq<char>>>,
    a: Seq<char>,
    b: Seq<char>,
)
    requires
        eq_ignore_ascii_case(a, b),
    ensures
        methods_allow(methods, a) == methods_allow(methods, b),
{
    if let Some(list) = methods {
        if method_listed(list, a) {
            let j = choose|j: int| 0 <= j < list.len() && eq_ignore_ascii_case(#[trigger] list[j], a);
            assert(eq_ignore_ascii_case(list[j], b));
        }
        if method_listed(list, b) {
            let j = choose|j: int| 0 <= j < list.len() && eq_ignore_ascii_case(#[trigger] list[j], b);
            assert forall|i: int| 0 <= i < list[j].len() implies ascii_fold(#[trigger] list[j][i])
                == ascii_fold(a[i]) by {
                assert(ascii_fold(b[i]) == ascii_fold(a[i]));
            }
            assert(eq_ignore_ascii_case(list[j], a));
        }
    }
}

/// Reading a pattern against a request path does not look past the segments read.
proof fn lemma_walk_path_prefix(
    pattern: Seq<BindingView>,
    req: Seq<Seq<char>>,
    extra: Seq<Seq<char>>,
    k: nat,
)
    requires
        k <= req.len(),
    ensures
        walk_path(pattern, req + extra, k) == walk_path(pattern, req, k),
    decreases k,
{
    if k > 0 {
        lemma_walk_path_prefix(pattern, req, extra, (k - 1) as nat);
        assert((req + extra)[k - 1] == req[k - 1]);
    }
}

/// Law: a path pattern no longer than the request path only looks at as
/// many segments as it has: the request path may go on with any segments
/// without changing the outcome, so a pattern matches every path that a
/// matching path leads to.
pub proof fn lemma_path_match_ignores_longer_paths(
    pattern: Seq<BindingView>,
    req: Seq<Seq<char>>,
    extra: Seq<Seq<char>>,
)
    requires
        0 < pattern.len() <= req.len(),
    ensures
        path_match_defined(pattern, req),
        path_match_defined(pattern, req + extra),
        path_match(pattern, req + extra) == path_match(pattern, req),
{
    lemma_walk_path_prefix(pattern, req, extra, pattern.len());
}

/// Law: a pattern ending in `**` matches every path that its other segments
/// match, however many segments follow them, and yields the variables that
/// those other segments capture.
pub proof fn lemma_globstar_matches_rest(
    pattern: Seq<BindingView>,
    req: Seq<Seq<char>>,
    extra: Seq<Seq<char>>,
)
    requires
        pattern.len() > 0,
        pattern.last() == BindingView::Literal(globstar()),
        pattern.len() - 1 <= req.len(),
        walk_path(pattern, req, (pattern.len() - 1) as nat) is Open,
    ensures
        path_match_defined(pattern, req + extra),
        path_match(pattern, req + extra) == Some(
            walk_path(pattern, req, (pattern.len() - 1) as nat)->Open_0,
        ),
{
    let k = (pattern.len() - 1) as nat;
    lemma_walk_path_prefix(pattern, req, extra, k);
    assert(globstar().len() != star().len());
}


/// Law: a method list allows a method exactly when one of its entries, at
/// any position, equals the method without regard to ASCII case; without a
/// method list every method is allowed.
pub proof fn lemma_methods_allow_listed(list: Seq<Seq<char>>, method: Seq<char>)
    ensures
        forall|j: int|
            0 <= j < list.len() && eq_ignore_ascii_case(#[trigger] list[j], method) ==> methods_allow(
                Some(list),
                method,
            ),
        (forall|j: int| 0 <= j < list.len() ==> !eq_ignore_ascii_case(#[trigger] list[j], method))
            ==> !methods_allow(Some(list), method),
        methods_allow(None, method),
{
}

/// Law: an HTTP request meets a rule exactly when each condition the rule
/// gives holds: its path pattern matches the request path, its method list
/// holds the method (ASCII case aside), and every header and query
/// parameter condition holds.
pub proof fn lemma_http_conditions(
    m: HttpRequestView,
    path: Seq<char>,
    method: Seq<char>,
    headers: Lookup,
    query: Lookup,
)
    ensures
        http_match(m, path, method, headers, query) is Some <==> {
            &&& (m.path matches Some(p) ==> path_match(p, segments(path)) is Some)
            &&& (m.methods matches Some(list) ==> exists|j: int|
                0 <= j < list.len() && eq_ignore_ascii_case(#[trigger] list[j], method))
            &&& forall|i: int| 0 <= i < m.headers.len() ==> #[trigger] entity_holds(m.headers[i], headers)
            &&& forall|i: int|
                0 <= i < m.query_params.len() ==> #[trigger] entity_holds(m.query_params[i], query)
        },
{
    lemma_match_entities_succeeds_iff(m.headers, headers);
    lemma_match_entities_succeeds_iff(m.query_params, query);
}

/// Law: the variables of a matched HTTP request: `path` and `method` are the
/// request's path and method; any other variable takes its value from the
/// query parameter conditions when they capture it, else from the header
/// conditions when they do, else from the path pattern; and no other
/// variable is set.
pub proof fn lemma_http_match_variables(
    m: HttpRequestView,
    path: Seq<char>,
    method: Seq<char>,
    headers: Lookup,
    query: Lookup,
    var: Seq<char>,
)
    requires
        http_match(m, path, method, headers, query) is Some,
    ensures
        ({
            let r = http_match(m, path, method, headers, query)->0;
            let pv = match m.path {
                Some(p) => path_match(p, segments(path))->0,
                None => Map::empty(),
            };
            let hv = match_entities(m.headers, headers)->0;
            let qv = match_entities(m.query_params, query)->0;
            &&& r.contains_key("path"@) && r["path"@] == path
            &&& r.contains_key("method"@) && r["method"@] == method
            &&& var != "path"@ && var != "method"@ ==> {
                &&& r.contains_key(var) <==> (qv.contains_key(var) || hv.contains_key(var)
                    || pv.contains_key(var))
                &&& qv.contains_key(var) ==> r[var] == qv[var]
                &&& !qv.contains_key(var) && hv.contains_key(var) ==> r[var] == hv[var]
                &&& !qv.contains_key(var) && !hv.contains_key(var) && pv.contains_key(var)
                    ==> r[var] == pv[var]
            }
        }),
{
    reveal_strlit("path");
    reveal_strlit("method");
    assert("path"@.len() != "method"@.len());
}


/// Reading a pattern without `**` never ends a match early with success.
proof fn lemma_walk_no_globstar(pattern: Seq<BindingView>, req: Seq<Seq<char>>, k: nat)
    requires
        k <= pattern.len(),
        forall|j: int| 0 <= j < k ==> pattern[j] != BindingView::Literal(globstar()),
    ensures
        walk_path(pattern, req, k) is Open || walk_path(pattern, req, k) == PathWalk::Closed(None),
    decreases k,
{
    if k > 0 {
        lemma_walk_no_globstar(pattern, req, (k - 1) as nat);
    }
}

/// Reading a pattern without `**` stays open exactly while every literal
/// segment other than `*` equals its request segment.
proof fn lemma_walk_open_iff(pattern: Seq<BindingView>, req: Seq<Seq<char>>, k: nat)
    requires
        k <= pattern.len(),
        forall|j: int| 0 <= j < k ==> pattern[j] != BindingView::Literal(globstar()),
    ensures
        walk_path(pattern, req, k) is Open <==> forall|i: int|
            0 <= i < k ==> (#[trigger] pattern[i] matches BindingView::Literal(l) ==> l == star()
                || req[i] == l),
    decreases k,
{
    if k > 0 {
        lemma_walk_open_iff(pattern, req, (k - 1) as nat);
        if walk_path(pattern, req, k) is Open {
            assert forall|i: int| 0 <= i < k implies (#[trigger] pattern[i] matches BindingView::Literal(
                l,
            ) ==> l == star() || req[i] == l) by {
                if i < k - 1 {
                } else {
                    assert(pattern[k - 1] != BindingView::Literal(globstar()));
                }
            }
        } else {
            if walk_path(pattern, req, (k - 1) as nat) is Open {
                let i = k - 1;
                assert(pattern[i] != BindingView::Literal(globstar()));
                assert(!(pattern[i] matches BindingView::Literal(l) ==> l == star() || req[i] == l));
            }
        }
    }
}

/// The variables of an open walk: those its variable segments name, each
/// holding the request segment where it was last captured.
proof fn lemma_walk_vars(pattern: Seq<BindingView>, req: Seq<Seq<char>>, k: nat)
    requires
        k <= pattern.len(),
        walk_path(pattern, req, k) is Open,
    ensures
        forall|v: Seq<char>|
            #[trigger] walk_path(pattern, req, k)->Open_0.contains_key(v) <==> exists|i: int|
                0 <= i < k && pattern[i] == BindingView::Variable(v),
        forall|i: int, v: Seq<char>|
            #![trigger pattern[i], walk_path(pattern, req, k)->Open_0.index(v)]
            0 <= i < k && pattern[i] == BindingView::Variable(v) && (forall|j: int|
                i < j < k ==> pattern[j] != BindingView::Variable(v)) ==> walk_path(
                pattern,
                req,
                k,
            )->Open_0.index(v) == req[i],
    decreases k,
{
    if k > 0 {
        let prev = walk_path(pattern, req, (k - 1) as nat);
        assert(prev is Open);
        lemma_walk_vars(pattern, req, (k - 1) as nat);
        let vars = walk_path(pattern, req, k)->Open_0;
        assert forall|v: Seq<char>| #[trigger] vars.contains_key(v) <==> exists|i: int|
            0 <= i < k && pattern[i] == BindingView::Variable(v) by {
            if vars.contains_key(v) && pattern[k - 1] != BindingView::Variable(v) {
                assert(prev->Open_0.contains_key(v));
            }
            if exists|i: int| 0 <= i < k && pattern[i] == BindingView::Variable(v) {
                let i = choose|i: int| 0 <= i < k && pattern[i] == BindingView::Variable(v);
                if i < k - 1 {
                    assert(prev->Open_0.contains_key(v));
                }
            }
        }
        assert forall|i: int, v: Seq<char>|
            #![trigger pattern[i], walk_path(pattern, req, k)->Open_0.index(v)]
            0 <= i < k && pattern[i] == BindingView::Variable(v) && (forall|j: int|
                i < j < k ==> pattern[j] != BindingView::Variable(v)) implies walk_path(
            pattern,
            req,
            k,
        )->Open_0.index(v) == req[i] by {
            if i < k - 1 {
                assert(pattern[k - 1] != BindingView::Variable(v));
                assert(forall|j: int| i < j < k - 1 ==> pattern[j] != BindingView::Variable(v));
                assert(prev->Open_0.index(v) == req[i]);
            }
        }
    }
}

/// Law: a pattern more than one segment longer than the request path never
/// matches, and one exactly one segment longer matches only when it ends in
/// `**` or `{*}`.
pub proof fn lemma_path_match_too_long(pattern: Seq<BindingView>, req: Seq<Seq<char>>)
    ensures
        pattern.len() > req.len() + 1 ==> path_match(pattern, req) is None,
        pattern.len() == req.len() + 1 && pattern.last() != BindingView::Literal(globstar())
            && pattern.last() != BindingView::Variable(star()) ==> path_match(pattern, req) is None,
{
}

/// Law: a literal pattern segment other than `*` and `**` matches only an
/// equal request segment: where it differs, and no `**` comes before it,
/// the pattern does not match.
pub proof fn lemma_path_literal_mismatch(
    pattern: Seq<BindingView>,
    req: Seq<Seq<char>>,
    i: int,
    l: Seq<char>,
)
    requires
        0 <= i < pattern.len(),
        i < req.len(),
        pattern[i] == BindingView::Literal(l),
        l != star(),
        l != globstar(),
        req[i] != l,
        forall|j: int| 0 <= j < i ==> pattern[j] != BindingView::Literal(globstar()),
    ensures
        path_match(pattern, req) is None,
{
    lemma_walk_no_globstar(pattern, req, i as nat);
    assert(walk_path(pattern, req, (i + 1) as nat) == PathWalk::Closed(None));
    let m = pattern.len();
    if !((m == req.len() + 1 && !ends_any(pattern)) || m > req.len() + 1) {
        lemma_walk_closed_stays(pattern, req, (i + 1) as nat, m as nat);
    }
}

/// Law: a pattern without `**` and no longer than the request path matches
/// exactly when each of its literal segments other than `*` equals the
/// request segment at its position; a variable segment and `*` match any
/// segment.
pub proof fn lemma_path_match_iff(pattern: Seq<BindingView>, req: Seq<Seq<char>>)
    requires
        pattern.len() <= req.len(),
        forall|j: int| 0 <= j < pattern.len() ==> pattern[j] != BindingView::Literal(globstar()),
    ensures
        path_match(pattern, req) is Some <==> forall|i: int|
            0 <= i < pattern.len() ==> (#[trigger] pattern[i] matches BindingView::Literal(l) ==> l
                == star() || req[i] == l),
{
    lemma_walk_no_globstar(pattern, req, pattern.len());
    lemma_walk_open_iff(pattern, req, pattern.len());
}

/// Law: the variables of a matching pattern without `**` are exactly those
/// its variable segments name, each holding the request segment at the
/// position of the last segment naming it.
pub proof fn lemma_path_match_variables(
    pattern: Seq<BindingView>,
    req: Seq<Seq<char>>,
    i: int,
    v: Seq<char>,
)
    requires
        pattern.len() <= req.len(),
        forall|j: int| 0 <= j < pattern.len() ==> pattern[j] != BindingView::Literal(globstar()),
        path_match(pattern, req) is Some,
    ensures
        path_match(pattern, req)->0.contains_key(v) <==> exists|j: int|
            0 <= j < pattern.len() && pattern[j] == BindingView::Variable(v),
        0 <= i < pattern.len() && pattern[i] == BindingView::Variable(v) && (forall|j: int|
            i < j < pattern.len() ==> pattern[j] != BindingView::Variable(v)) ==> path_match(
            pattern,
            req,
        )->0[v] == req[i],
{
    lemma_walk_no_globstar(pattern, req, pattern.len());
    lemma_walk_vars(pattern, req, pattern.len());
    assert(path_match(pattern, req)->0.contains_key(v) == walk_path(
        pattern,
        req,
        pattern.len(),
    )->Open_0.contains_key(v));
}

} // verus!
