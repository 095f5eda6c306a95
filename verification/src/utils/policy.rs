//! Variable extraction and resource attributes of the first rule format.

use vstd::prelude::*;

use crate::auth::opt_view;
use crate::config::defs::{brace_inner, is_braced, Binding, BindingView, Extractor, SARAttributes};
use crate::text::{segments, split_segments, str_eq, str_views, strings_view};
use crate::utils::matchers::{answers_as, Lookup};
use crate::utils::variables::{vars_view, ConfigVariables, VarMap};

verus! {

/// The value that `b` takes under `vars`: a literal is its own value, a
/// variable takes the value set for it, and is unresolved when none is.
pub open spec fn resolve_binding(b: BindingView, vars: VarMap) -> Option<Seq<char>> {
    match b {
        BindingView::Variable(name) => if vars.contains_key(name) {
            Some(vars[name])
        } else {
            None
        },
        BindingView::Literal(value) => Some(value),
    }
}

/// Law: a literal binding resolves to itself, a `{variable}` to the value
/// set for the variable, and a variable that is not set to nothing.
pub proof fn lemma_resolve_binding(b: BindingView, vars: VarMap)
    ensures
        forall|v: Seq<char>| b == BindingView::Literal(v) ==> resolve_binding(b, vars) == Some(v),
        forall|n: Seq<char>|
            b == BindingView::Variable(n) && vars.contains_key(n) ==> resolve_binding(b, vars) == Some(
                vars[n],
            ),
        forall|n: Seq<char>|
            b == BindingView::Variable(n) && !vars.contains_key(n) ==> resolve_binding(b, vars) is None,
{
}

/// The value that `value` takes under `variables`.
pub fn resolve(value: &Binding, variables: &ConfigVariables) -> (r: Option<String>)
    ensures
        opt_view(r) == resolve_binding(value@, variables@),
{
    match value {
        Binding::Variable(name) => match variables.get(name.as_str()) {
            Some(v) => Some(v.clone()),
            None => None,
        },
        Binding::Literal(value) => Some(value.clone()),
    }
}

/// The resource attributes of an authorization query of the first rule format.
#[derive(Debug, Clone)]
pub struct ResourceAttributes {
    pub namespace: Option<String>,
    pub group: Option<String>,
    pub resource: Option<String>,
    pub verb: Option<String>,
}

/// Resolves each bound attribute of `resource_attributes` under `variables`.
pub fn compile_resource_attributes(
    resource_attributes: &SARAttributes,
    variables: &ConfigVariables,
) -> (r: ResourceAttributes)
    ensures
        opt_view(r.namespace) == resolve_binding(resource_attributes.namespace@, variables@),
        opt_view(r.group) == resolve_binding(resource_attributes.api_group@, variables@),
        opt_view(r.resource) == resolve_binding(resource_attributes.resource@, variables@),
        opt_view(r.verb) == resolve_binding(resource_attributes.verb@, variables@),
{
    let namespace = resolve(&resource_attributes.namespace, variables);
    let group = resolve(&resource_attributes.api_group, variables);
    let resource = resolve(&resource_attributes.resource, variables);
    let verb = resolve(&resource_attributes.verb, variables);
    ResourceAttributes { namespace, group, resource, verb }
}

/// An extractor, as characters.
pub enum ExtractorView {
    Header { name: Seq<char>, header: Seq<char> },
    Path { path: Seq<Seq<char>> },
    Query { name: Seq<char>, parameter: Seq<char> },
}

impl View for Extractor {
    type V = ExtractorView;

    open spec fn view(&self) -> ExtractorView {
        match self {
            Extractor::Header { name, header } => ExtractorView::Header {
                name: name@,
                header: header@,
            },
            Extractor::Path { path } => ExtractorView::Path { path: strings_view(path@) },
            Extractor::Query { name, parameter } => ExtractorView::Query {
                name: name@,
                parameter: parameter@,
            },
        }
    }
}

/// `vars` after every `{name}` among the first `k` pattern segments has
/// captured the request segment at its position.
pub open spec fn path_captures(
    patterns: Seq<Seq<char>>,
    parts: Seq<Seq<char>>,
    k: nat,
    vars: VarMap,
) -> VarMap
    decreases k,
{
    if k == 0 {
        vars
    } else {
        let earlier = path_captures(patterns, parts, (k - 1) as nat, vars);
        if is_braced(patterns[k - 1]) {
            earlier.insert(brace_inner(patterns[k - 1]), parts[k - 1])
        } else {
            earlier
        }
    }
}

/// `vars` after the extractor `e` has run on a request whose path has the
/// segments `parts`, headers looked up by `headers` and query parameters by `query`.
pub open spec fn extract_step(
    e: ExtractorView,
    parts: Seq<Seq<char>>,
    headers: Lookup,
    query: Lookup,
    vars: VarMap,
) -> VarMap {
    match e {
        ExtractorView::Header { name, header } => match headers(header) {
            Some(value) => vars.insert(name, value),
            None => vars,
        },
        ExtractorView::Path { path } => {
            let k = if path.len() < parts.len() {
                path.len()
            } else {
                parts.len()
            };
            path_captures(path, parts, k, vars)
        },
        ExtractorView::Query { name, parameter } => match query(parameter) {
            Some(value) => vars.insert(name, value),
            None => vars,
        },
    }
}

/// The variables that `extractors`, run in order, take from a request whose
/// path has the segments `parts`.
pub open spec fn extract_all(
    extractors: Seq<ExtractorView>,
    parts: Seq<Seq<char>>,
    headers: Lookup,
    query: Lookup,
) -> VarMap
    decreases extractors.len(),
{
    if extractors.len() == 0 {
        Map::empty()
    } else {
        extract_step(
            extractors.last(),
            parts,
            headers,
            query,
            extract_all(extractors.drop_last(), parts, headers, query),
        )
    }
}

/// Runs the `{name}` segments of `path` against the request segments `parts`.
fn capture_path_segments(
    path: &Vec<String>,
    parts: &Vec<&str>,
    variables: &mut ConfigVariables,
)
    ensures
        final(variables)@ == path_captures(
            strings_view(path@),
            str_views(parts@),
            if path@.len() < parts@.len() {
                path@.len() as nat
            } else {
                parts@.len() as nat
            },
            old(variables)@,
        ),
{
    let k = if path.len() < parts.len() {
        path.len()
    } else {
        parts.len()
    };
    let mut i: usize = 0;
    while i < k
        invariant
            k <= path@.len(),
            k <= parts@.len(),
            k == (if path@.len() < parts@.len() {
                path@.len()
            } else {
                parts@.len()
            }),
            i <= k,
            variables@ == path_captures(
                strings_view(path@),
                str_views(parts@),
                i as nat,
                old(variables)@,
            ),
        decreases k - i,
    {
        let pattern = path[i].as_str();
        let n = pattern.unicode_len();
        assert(strings_view(path@)[i as int] == pattern@);
        assert(str_views(parts@)[i as int] == parts@[i as int]@);
        if n >= 2 && pattern.get_char(0) == '{' && pattern.get_char(n - 1) == '}' {
            let name = pattern.substring_char(1, n - 1);
            variables.insert(String::from_str(name), String::from_str(parts[i]));
        }
        i = i + 1;
    }
}

/// Runs `extractors` in order on a request for `req_path` whose headers
/// `header_fn` and query parameters `query_fn` look up, and returns the
/// variables they take from it.
pub fn extract_variables<F: Fn(&str) -> Option<String>, G: Fn(&str) -> Option<String>>(
    extractors: &[Extractor],
    req_path: &str,
    header_fn: F,
    query_fn: G,
) -> (r: ConfigVariables)
    requires
        forall|k: &str| header_fn.requires((k,)),
        forall|k: &str| query_fn.requires((k,)),
    ensures
        forall|headers: Lookup, query: Lookup|
            #![trigger answers_as(header_fn, headers), answers_as(query_fn, query)]
            answers_as(header_fn, headers) && answers_as(query_fn, query) ==> r@ == extract_all(
                extractors@.map_values(|e: Extractor| e@),
                segments(req_path@),
                headers,
                query,
            ),
{
    let ghost es = extractors@.map_values(|e: Extractor| e@);
    let parts = split_segments(req_path);
    let mut variables = ConfigVariables::new();
    let n = extractors.len();
    let mut i: usize = 0;
    assert(es.take(0) =~= Seq::<ExtractorView>::empty());
    while i < n
        invariant
            n == extractors@.len(),
            i <= n,
            es == extractors@.map_values(|e: Extractor| e@),
            str_views(parts@) == segments(req_path@),
            forall|k: &str| header_fn.requires((k,)),
            forall|k: &str| query_fn.requires((k,)),
            forall|headers: Lookup, query: Lookup|
                #![trigger answers_as(header_fn, headers), answers_as(query_fn, query)]
                answers_as(header_fn, headers) && answers_as(query_fn, query) ==> variables@
                    == extract_all(es.take(i as int), segments(req_path@), headers, query),
        decreases n - i,
    {
        assert(es.take(i + 1).drop_last() =~= es.take(i as int));
        assert(es.take(i + 1).last() == extractors@[i as int]@);
        let ghost before = variables@;
        match &extractors[i] {
            Extractor::Header { name, header } => {
                let key: &str = header.as_str();
                let found = header_fn(key);
                if let Some(value) = found {
                    variables.insert(name.clone(), value);
                }
                assert forall|headers: Lookup, query: Lookup|
                    #![trigger answers_as(header_fn, headers), answers_as(query_fn, query)]
                    answers_as(header_fn, headers) && answers_as(query_fn, query) implies variables@
                    == extract_all(es.take(i + 1), segments(req_path@), headers, query) by {
                    assert(opt_view(found) == headers(key@));
                }
            },
            Extractor::Path { path } => {
                capture_path_segments(path, &parts, &mut variables);
            },
            Extractor::Query { name, parameter } => {
                let key: &str = parameter.as_str();
                let found = query_fn(key);
                if let Some(value) = found {
                    variables.insert(name.clone(), value);
                }
                assert forall|headers: Lookup, query: Lookup|
                    #![trigger answers_as(header_fn, headers), answers_as(query_fn, query)]
                    answers_as(header_fn, headers) && answers_as(query_fn, query) implies variables@
                    == extract_all(es.take(i + 1), segments(req_path@), headers, query) by {
                    assert(opt_view(found) == query(key@));
                }
            },
        }
        i = i + 1;
    }
    assert(es.take(n as int) =~= es);
    variables
}

/// The variables that `path` yields under the segment patterns `patterns`,
/// read up to the `k`-th segment, or none when a literal segment differs:
/// `*` matches any segment and `{name}` captures it.
pub open spec fn match_path_walk(
    patterns: Seq<Seq<char>>,
    parts: Seq<Seq<char>>,
    k: nat,
) -> Option<VarMap>
    decreases k,
{
    if k == 0 {
        Some(Map::empty())
    } else {
        match match_path_walk(patterns, parts, (k - 1) as nat) {
            None => None,
            Some(vars) => {
                let pattern = patterns[k - 1];
                if pattern == seq!['*'] {
                    Some(vars)
                } else if is_braced(pattern) {
                    Some(vars.insert(brace_inner(pattern), parts[k - 1]))
                } else if pattern != parts[k - 1] {
                    None
                } else {
                    Some(vars)
                }
            },
        }
    }
}

/// The variables that the request path `path` yields under the segment
/// patterns `patterns`, or none when it has another number of segments or a
/// literal segment differs.
pub open spec fn path_pattern_match(path: Seq<char>, patterns: Seq<Seq<char>>) -> Option<VarMap> {
    let parts = segments(path);
    if parts.len() != patterns.len() {
        None
    } else {
        match_path_walk(patterns, parts, patterns.len())
    }
}

/// Matches the request path `path` against one pattern per segment: `*`
/// matches any segment, `{name}` captures it, any other text must equal it.
pub fn match_path(path: &str, path_pattern: Vec<String>) -> (r: Option<ConfigVariables>)
    ensures
        vars_view(r) == path_pattern_match(path@, strings_view(path_pattern@)),
{
    let ghost patterns = strings_view(path_pattern@);
    let parts = split_segments(path);
    if parts.len() != path_pattern.len() {
        return None;
    }
    let mut variables = ConfigVariables::new();
    let n = parts.len();
    let mut i: usize = 0;
    while i < n
        invariant
            n == parts@.len(),
            n == path_pattern@.len(),
            i <= n,
            patterns == strings_view(path_pattern@),
            str_views(parts@) == segments(path@),
            match_path_walk(patterns, segments(path@), i as nat) == Some(variables@),
        decreases n - i,
    {
        let pattern = path_pattern[i].as_str();
        let part = parts[i];
        assert(patterns[i as int] == pattern@);
        assert(segments(path@)[i as int] == part@);
        let m = pattern.unicode_len();
        if m == 1 && pattern.get_char(0) == '*' {
            assert(pattern@ =~= seq!['*']);
        } else {
            assert(pattern@ != seq!['*']);
            if m >= 2 && pattern.get_char(0) == '{' && pattern.get_char(m - 1) == '}' {
                let name = pattern.substring_char(1, m - 1);
                variables.insert(String::from_str(name), String::from_str(part));
            } else if !str_eq(pattern, part) {
                proof {
                    lemma_match_path_walk_fails(patterns, segments(path@), (i + 1) as nat, n as nat);
                }
                return None;
            }
        }
        i = i + 1;
    }
    Some(variables)
}

/// Once a literal segment has differed, the walk stays failed.
pub proof fn lemma_match_path_walk_fails(
    patterns: Seq<Seq<char>>,
    parts: Seq<Seq<char>>,
    k: nat,
    j: nat,
)
    requires
        k <= j,
        match_path_walk(patterns, parts, k) is None,
    ensures
        match_path_walk(patterns, parts, j) is None,
    decreases j - k,
{
    if k < j {
        lemma_match_path_walk_fails(patterns, parts, k, (j - 1) as nat);
    }
}


/// The captures of the first `k` pattern segments: a `{name}` segment sets
/// `name` to the request segment at its position, the last one naming it
/// winning; variables no segment names keep their values.
proof fn lemma_path_captures(patterns: Seq<Seq<char>>, parts: Seq<Seq<char>>, k: nat, vars: VarMap)
    requires
        k <= patterns.len(),
    ensures
        forall|v: Seq<char>|
            #[trigger] path_captures(patterns, parts, k, vars).contains_key(v) <==> (
            vars.contains_key(v) || exists|i: int|
                0 <= i < k && is_braced(patterns[i]) && brace_inner(patterns[i]) == v),
        forall|i: int, v: Seq<char>|
            #![trigger patterns[i], path_captures(patterns, parts, k, vars).index(v)]
            0 <= i < k && is_braced(patterns[i]) && brace_inner(patterns[i]) == v && (forall|j: int|
                i < j < k ==> !(is_braced(patterns[j]) && brace_inner(patterns[j]) == v))
                ==> path_captures(patterns, parts, k, vars).index(v) == parts[i],
        forall|v: Seq<char>|
            vars.contains_key(v) && (forall|i: int|
                0 <= i < k ==> !(is_braced(patterns[i]) && brace_inner(patterns[i]) == v))
                ==> #[trigger] path_captures(patterns, parts, k, vars).index(v) == vars[v],
    decreases k,
{
    if k > 0 {
        lemma_path_captures(patterns, parts, (k - 1) as nat, vars);
        let prev = path_captures(patterns, parts, (k - 1) as nat, vars);
        let cur = path_captures(patterns, parts, k, vars);
        assert forall|v: Seq<char>| #[trigger] cur.contains_key(v) <==> (vars.contains_key(v)
            || exists|i: int| 0 <= i < k && is_braced(patterns[i]) && brace_inner(patterns[i]) == v) by {
            if exists|i: int| 0 <= i < k && is_braced(patterns[i]) && brace_inner(patterns[i]) == v {
                let i = choose|i: int|
                    0 <= i < k && is_braced(patterns[i]) && brace_inner(patterns[i]) == v;
                if i < k - 1 {
                    assert(prev.contains_key(v));
                }
            }
            if cur.contains_key(v) && !(is_braced(patterns[k - 1]) && brace_inner(patterns[k - 1])
                == v) {
                assert(prev.contains_key(v));
            }
        }
        assert forall|i: int, v: Seq<char>|
            #![trigger patterns[i], path_captures(patterns, parts, k, vars).index(v)]
            0 <= i < k && is_braced(patterns[i]) && brace_inner(patterns[i]) == v && (forall|j: int|
                i < j < k ==> !(is_braced(patterns[j]) && brace_inner(patterns[j]) == v)) implies cur.index(
            v,
        ) == parts[i] by {
            if i < k - 1 {
                assert(!(is_braced(patterns[k - 1]) && brace_inner(patterns[k - 1]) == v));
                assert(forall|j: int|
                    i < j < k - 1 ==> !(is_braced(patterns[j]) && brace_inner(patterns[j]) == v));
                assert(prev.index(v) == parts[i]);
            }
        }
        assert forall|v: Seq<char>|
            vars.contains_key(v) && (forall|i: int|
                0 <= i < k ==> !(is_braced(patterns[i]) && brace_inner(patterns[i]) == v))
                implies #[trigger] cur.index(v) == vars[v] by {
            assert(!(is_braced(patterns[k - 1]) && brace_inner(patterns[k - 1]) == v));
            assert(forall|i: int|
                0 <= i < k - 1 ==> !(is_braced(patterns[i]) && brace_inner(patterns[i]) == v));
        }
    }
}

/// Law: extractors run in order, each on the variables the earlier ones
/// left: a header or query extractor sets its variable to the header or
/// parameter it reads when the request has it and changes nothing when not;
/// a path extractor sets each variable that a `{name}` segment of its pattern
/// names (within the shorter of the pattern and the request path) to the
/// request segment at the position of the last segment naming it, and leaves
/// the other variables as they were. No extractor gives no variables.
pub proof fn lemma_extract_all_steps(
    es: Seq<ExtractorView>,
    e: ExtractorView,
    parts: Seq<Seq<char>>,
    headers: Lookup,
    query: Lookup,
)
    ensures
        extract_all(Seq::empty(), parts, headers, query) == Map::<Seq<char>, Seq<char>>::empty(),
        ({
            let before = extract_all(es, parts, headers, query);
            let after = extract_all(es.push(e), parts, headers, query);
            match e {
                ExtractorView::Header { name, header } => after == match headers(header) {
                    Some(value) => before.insert(name, value),
                    None => before,
                },
                ExtractorView::Query { name, parameter } => after == match query(parameter) {
                    Some(value) => before.insert(name, value),
                    None => before,
                },
                ExtractorView::Path { path } => {
                    let k = if path.len() < parts.len() {
                        path.len()
                    } else {
                        parts.len()
                    };
                    &&& forall|v: Seq<char>| #[trigger]
                        after.contains_key(v) <==> (before.contains_key(v) || exists|i: int|
                            0 <= i < k && is_braced(path[i]) && brace_inner(path[i]) == v)
                    &&& forall|i: int, v: Seq<char>|
                        #![trigger path[i], after.index(v)]
                        0 <= i < k && is_braced(path[i]) && brace_inner(path[i]) == v && (forall|
                            j: int,
                        | i < j < k ==> !(is_braced(path[j]) && brace_inner(path[j]) == v))
                            ==> after.index(v) == parts[i]
                    &&& forall|v: Seq<char>|
                        before.contains_key(v) && (forall|i: int|
                            0 <= i < k ==> !(is_braced(path[i]) && brace_inner(path[i]) == v))
                            ==> #[trigger] after.index(v) == before[v]
                },
            }
        }),
{
    assert(es.push(e).drop_last() =~= es);
    if let ExtractorView::Path { path } = e {
        let k = if path.len() < parts.len() {
            path.len()
        } else {
            parts.len()
        };
        lemma_path_captures(path, parts, k as nat, extract_all(es, parts, headers, query));
    }
}

/// Whether the path pattern segment `p` is a `{name}` capture.
pub open spec fn segment_is_capture(p: Seq<char>) -> bool {
    p.len() >= 2 && p[0] == '{' && p[p.len() - 1] == '}'
}

/// The walk over a path stays matched exactly while every segment pattern
/// other than `*` and `{name}` equals its request segment.
proof fn lemma_match_path_walk_iff(patterns: Seq<Seq<char>>, parts: Seq<Seq<char>>, k: nat)
    requires
        k <= patterns.len(),
    ensures
        match_path_walk(patterns, parts, k) is Some <==> forall|i: int|
            0 <= i < k ==> #[trigger] patterns[i] == seq!['*'] || segment_is_capture(patterns[i])
                || patterns[i] == parts[i],
    decreases k,
{
    if k > 0 {
        lemma_match_path_walk_iff(patterns, parts, (k - 1) as nat);
        if match_path_walk(patterns, parts, (k - 1) as nat) is None {
            let i = choose|i: int|
                0 <= i < k - 1 && !(#[trigger] patterns[i] == seq!['*'] || segment_is_capture(
                    patterns[i],
                ) || patterns[i] == parts[i]);
            assert(0 <= i < k);
        }
    }
}

/// The variables of a matched walk: those its `{name}` segments name, each
/// holding the request segment of the last segment naming it.
proof fn lemma_match_path_walk_vars(patterns: Seq<Seq<char>>, parts: Seq<Seq<char>>, k: nat)
    requires
        k <= patterns.len(),
        match_path_walk(patterns, parts, k) is Some,
    ensures
        forall|v: Seq<char>|
            #[trigger] match_path_walk(patterns, parts, k)->0.contains_key(v) <==> exists|i: int|
                0 <= i < k && patterns[i] != seq!['*'] && segment_is_capture(patterns[i])
                    && patterns[i].subrange(1, patterns[i].len() - 1) == v,
        forall|i: int, v: Seq<char>|
            #![trigger patterns[i], match_path_walk(patterns, parts, k)->0.index(v)]
            0 <= i < k && segment_is_capture(patterns[i]) && patterns[i].subrange(
                1,
                patterns[i].len() - 1,
            ) == v && (forall|j: int|
                i < j < k ==> !(segment_is_capture(patterns[j]) && patterns[j].subrange(
                    1,
                    patterns[j].len() - 1,
                ) == v)) ==> match_path_walk(patterns, parts, k)->0.index(v) == parts[i],
    decreases k,
{
    if k > 0 {
        let prev = match_path_walk(patterns, parts, (k - 1) as nat);
        assert(prev is Some);
        lemma_match_path_walk_vars(patterns, parts, (k - 1) as nat);
        let last = patterns[k - 1];
        let cur = match_path_walk(patterns, parts, k)->0;
        assert(segment_is_capture(last) ==> last != seq!['*']);
        assert forall|v: Seq<char>| #[trigger] cur.contains_key(v) <==> exists|i: int|
            0 <= i < k && patterns[i] != seq!['*'] && segment_is_capture(patterns[i])
                && patterns[i].subrange(1, patterns[i].len() - 1) == v by {
            if exists|i: int|
                0 <= i < k && patterns[i] != seq!['*'] && segment_is_capture(patterns[i])
                    && patterns[i].subrange(1, patterns[i].len() - 1) == v {
                let i = choose|i: int|
                    0 <= i < k && patterns[i] != seq!['*'] && segment_is_capture(patterns[i])
                        && patterns[i].subrange(1, patterns[i].len() - 1) == v;
                if i < k - 1 {
                    assert(prev->0.contains_key(v));
                }
            }
            if cur.contains_key(v) && !(last != seq!['*'] && segment_is_capture(last)
                && last.subrange(1, last.len() - 1) == v) {
                assert(prev->0.contains_key(v));
            }
        }
        assert forall|i: int, v: Seq<char>|
            #![trigger patterns[i], match_path_walk(patterns, parts, k)->0.index(v)]
            0 <= i < k && segment_is_capture(patterns[i]) && patterns[i].subrange(
                1,
                patterns[i].len() - 1,
            ) == v && (forall|j: int|
                i < j < k ==> !(segment_is_capture(patterns[j]) && patterns[j].subrange(
                    1,
                    patterns[j].len() - 1,
                ) == v)) implies cur.index(v) == parts[i] by {
            if i < k - 1 {
                assert(!(segment_is_capture(last) && last.subrange(1, last.len() - 1) == v));
                assert(forall|j: int|
                    i < j < k - 1 ==> !(segment_is_capture(patterns[j]) && patterns[j].subrange(
                        1,
                        patterns[j].len() - 1,
                    ) == v));
                assert(prev->0.index(v) == parts[i]);
            }
        }
    }
}

/// Law: a request path matches one pattern per segment exactly when it has
/// as many segments as there are patterns and each pattern is `*`, a
/// `{name}` capture, or equal to its segment.
pub proof fn lemma_path_pattern_match_iff(path: Seq<char>, patterns: Seq<Seq<char>>)
    ensures
        path_pattern_match(path, patterns) is Some <==> segments(path).len() == patterns.len()
            && forall|i: int|
            0 <= i < patterns.len() ==> #[trigger] patterns[i] == seq!['*'] || segment_is_capture(
                patterns[i],
            ) || patterns[i] == segments(path)[i],
{
    lemma_match_path_walk_iff(patterns, segments(path), patterns.len());
}

/// Law: the variables of a matched path are exactly the names of its
/// `{name}` patterns (braces dropped), each holding the request segment of
/// the last pattern naming it.
pub proof fn lemma_path_pattern_match_variables(path: Seq<char>, patterns: Seq<Seq<char>>)
    requires
        path_pattern_match(path, patterns) is Some,
    ensures
        forall|v: Seq<char>|
            #[trigger] path_pattern_match(path, patterns)->0.contains_key(v) <==> exists|i: int|
                0 <= i < patterns.len() && patterns[i] != seq!['*'] && segment_is_capture(patterns[i])
                    && patterns[i].subrange(1, patterns[i].len() - 1) == v,
        forall|i: int, v: Seq<char>|
            #![trigger patterns[i], path_pattern_match(path, patterns)->0.index(v)]
            0 <= i < patterns.len() && segment_is_capture(patterns[i]) && patterns[i].subrange(
                1,
                patterns[i].len() - 1,
            ) == v && (forall|j: int|
                i < j < patterns.len() ==> !(segment_is_capture(patterns[j]) && patterns[j].subrange(
                    1,
                    patterns[j].len() - 1,
                ) == v)) ==> path_pattern_match(path, patterns)->0.index(v) == segments(path)[i],
{
    lemma_match_path_walk_vars(patterns, segments(path), patterns.len());
}

} // verus!
