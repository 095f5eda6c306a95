//! Conditions on named request fields, and the variables they capture.

use vstd::prelude::*;

use crate::auth::opt_view;
use crate::config::defs::{
    entity_match_views, entity_views, Binding, BindingView, Entity, EntityMatch, EntityMatchView,
};
use crate::utils::variables::{vars_view, ConfigVariables, VarMap};

verus! {

/// A lookup of request fields by name: the value of the field, or none when it is absent.
pub type Lookup = spec_fn(Seq<char>) -> Option<Seq<char>>;

/// Every answer of `f` is the one that `lookup` gives for the name asked.
pub open spec fn answers_as<F: Fn(&str) -> Option<String>>(f: F, lookup: Lookup) -> bool {
    forall|k: &str, r: Option<String>| #[trigger] f.ensures((k,), r) ==> opt_view(r) == lookup(k@)
}

/// The variables after checking the condition `e` on top of `vars`, or none when it fails.
pub open spec fn entity_step(e: EntityMatchView, lookup: Lookup, vars: VarMap) -> Option<VarMap> {
    match e {
        EntityMatchView::EqualsOrExtract { name, value } => match lookup(name) {
            Some(found) => match value {
                BindingView::Variable(var) => Some(vars.insert(var, found)),
                BindingView::Literal(literal) => if found == literal {
                    Some(vars)
                } else {
                    None
                },
            },
            None => None,
        },
        EntityMatchView::Exists { name } => if lookup(name) is Some {
            Some(vars)
        } else {
            None
        },
    }
}

/// The variables that the conditions `es` capture, checked in order, or none
/// when one of them fails.
pub open spec fn match_entities(es: Seq<EntityMatchView>, lookup: Lookup) -> Option<VarMap>
    decreases es.len(),
{
    if es.len() == 0 {
        Some(Map::empty())
    } else {
        match match_entities(es.drop_last(), lookup) {
            Some(vars) => entity_step(es.last(), lookup, vars),
            None => None,
        }
    }
}

/// Once a prefix of the conditions fails, all of them fail.
pub proof fn lemma_match_entities_fails_on(es: Seq<EntityMatchView>, k: int, lookup: Lookup)
    requires
        0 <= k <= es.len(),
        match_entities(es.take(k), lookup) is None,
    ensures
        match_entities(es, lookup) is None,
    decreases es.len(),
{
    if k == es.len() {
        assert(es.take(k) =~= es);
    } else {
        assert(es.drop_last().take(k) =~= es.take(k));
        lemma_match_entities_fails_on(es.drop_last(), k, lookup);
    }
}

/// Whether the condition `e` holds of the request fields that `lookup` finds:
/// the field is present, and equal to the value when that is a literal.
pub open spec fn entity_holds(e: EntityMatchView, lookup: Lookup) -> bool {
    match e {
        EntityMatchView::EqualsOrExtract { name, value } => match value {
            BindingView::Literal(literal) => lookup(name) == Some(literal),
            BindingView::Variable(_) => lookup(name) is Some,
        },
        EntityMatchView::Exists { name } => lookup(name) is Some,
    }
}

/// Whether the condition `e` captures its field into the variable `var`.
pub open spec fn captures(e: EntityMatchView, var: Seq<char>) -> bool {
    match e {
        EntityMatchView::EqualsOrExtract { name, value } => match value {
            BindingView::Variable(v) => v == var,
            BindingView::Literal(_) => false,
        },
        EntityMatchView::Exists { name } => false,
    }
}

/// Law: a request meets a list of field conditions exactly when it meets each
/// of them: every named field is present, and a literal one equals its value.
pub proof fn lemma_match_entities_succeeds_iff(es: Seq<EntityMatchView>, lookup: Lookup)
    ensures
        match_entities(es, lookup) is Some <==> forall|i: int|
            0 <= i < es.len() ==> #[trigger] entity_holds(es[i], lookup),
    decreases es.len(),
{
    if es.len() > 0 {
        lemma_match_entities_succeeds_iff(es.drop_last(), lookup);
        if match_entities(es, lookup) is Some {
            assert forall|i: int| 0 <= i < es.len() implies #[trigger] entity_holds(es[i], lookup) by {
                if i < es.len() - 1 {
                    assert(entity_holds(es.drop_last()[i], lookup));
                }
            }
        } else {
            if forall|i: int| 0 <= i < es.len() ==> #[trigger] entity_holds(es[i], lookup) {
                assert forall|i: int| 0 <= i < es.drop_last().len() implies #[trigger] entity_holds(
                    es.drop_last()[i],
                    lookup,
                ) by {
                    assert(entity_holds(es[i], lookup));
                }
                assert(entity_holds(es[es.len() - 1], lookup));
            }
        }
    }
}

/// Law: only a field condition with a variable value captures anything;
/// literal and presence conditions set no variable.
pub proof fn lemma_match_entities_captures_only_variables(
    es: Seq<EntityMatchView>,
    lookup: Lookup,
    var: Seq<char>,
)
    requires
        match_entities(es, lookup) matches Some(vars) && vars.contains_key(var),
    ensures
        exists|i: int| 0 <= i < es.len() && #[trigger] captures(es[i], var),
    decreases es.len(),
{
    let vars = match_entities(es, lookup)->0;
    let before = match_entities(es.drop_last(), lookup)->0;
    if captures(es.last(), var) {
        assert(captures(es[es.len() - 1], var));
    } else {
        assert(before.contains_key(var));
        lemma_match_entities_captures_only_variables(es.drop_last(), lookup, var);
        let i = choose|i: int| 0 <= i < es.drop_last().len() && #[trigger] captures(es.drop_last()[i], var);
        assert(captures(es[i], var));
    }
}

/// Law: a variable holds the value of the field that the last condition
/// capturing it names.
pub proof fn lemma_match_entities_capture_value(
    es: Seq<EntityMatchView>,
    lookup: Lookup,
    i: int,
    name: Seq<char>,
    var: Seq<char>,
)
    requires
        match_entities(es, lookup) is Some,
        0 <= i < es.len(),
        es[i] == (EntityMatchView::EqualsOrExtract { name, value: BindingView::Variable(var) }),
        forall|j: int| i < j < es.len() ==> !#[trigger] captures(es[j], var),
    ensures
        match_entities(es, lookup)->0.contains_key(var),
        lookup(name) matches Some(found) && match_entities(es, lookup)->0[var] == found,
    decreases es.len(),
{
    if i < es.len() - 1 {
        assert(!captures(es[es.len() - 1], var));
        assert forall|j: int| i < j < es.drop_last().len() implies !#[trigger] captures(
            es.drop_last()[j],
            var,
        ) by {
            assert(!captures(es[j], var));
        }
        lemma_match_entities_capture_value(es.drop_last(), lookup, i, name, var);
    }
}

/// Whether no variable is captured by two of the conditions `es`.
pub open spec fn captures_distinct(es: Seq<EntityMatchView>) -> bool {
    forall|i: int, j: int, var: Seq<char>|
        0 <= i < j < es.len() && #[trigger] captures(es[i], var) ==> !#[trigger] captures(es[j], var)
}

/// The name of the request field that the condition `e` is about.
pub open spec fn entity_name(e: EntityMatchView) -> Seq<char> {
    match e {
        EntityMatchView::EqualsOrExtract { name, .. } => name,
        EntityMatchView::Exists { name } => name,
    }
}

/// What one sequence holds, a sequence with the same elements holds.
proof fn lemma_permutation_contains(es1: Seq<EntityMatchView>, es2: Seq<EntityMatchView>, x: EntityMatchView)
    requires
        es1.to_multiset() == es2.to_multiset(),
        es1.contains(x),
    ensures
        es2.contains(x),
{
    es1.to_multiset_ensures();
    es2.to_multiset_ensures();
    assert(es1.to_multiset().count(x) > 0);
    assert(es2.to_multiset().count(x) > 0);
}

/// Two positions holding `x` count it at least twice.
proof fn lemma_two_copies(s: Seq<EntityMatchView>, x: EntityMatchView, i: int, j: int)
    requires
        0 <= i < j < s.len(),
        s[i] == x,
        s[j] == x,
    ensures
        s.to_multiset().count(x) >= 2,
{
    s.to_multiset_ensures();
    s.remove(i).to_multiset_ensures();
    let t = s.remove(i);
    assert(t[j - 1] == x);
    assert(t.contains(x));
    assert(t.to_multiset().count(x) > 0);
    assert(t.to_multiset() =~= s.to_multiset().remove(x));
    assert(vstd::multiset::Multiset::singleton(x).count(x) == 1);
    assert(s.to_multiset().remove(x).count(x) > 0);
}

/// An element counted at least twice stands at two positions.
proof fn lemma_count_two(s: Seq<EntityMatchView>, x: EntityMatchView) -> (r: (int, int))
    requires
        s.to_multiset().count(x) >= 2,
    ensures
        0 <= r.0 < r.1 < s.len(),
        s[r.0] == x,
        s[r.1] == x,
{
    s.to_multiset_ensures();
    let k = choose|k: int| 0 <= k < s.len() && s[k] == x;
    let t = s.remove(k);
    t.to_multiset_ensures();
    assert(t.to_multiset().count(x) > 0);
    let m = choose|m: int| 0 <= m < t.len() && t[m] == x;
    if m < k {
        assert(s[m] == t[m]);
        (m, k)
    } else {
        assert(s[m + 1] == t[m]);
        (k, m + 1)
    }
}

/// Reordering the conditions keeps that no variable is captured twice.
proof fn lemma_permutation_keeps_distinct(es1: Seq<EntityMatchView>, es2: Seq<EntityMatchView>)
    requires
        es1.to_multiset() == es2.to_multiset(),
        captures_distinct(es1),
    ensures
        captures_distinct(es2),
{
    es1.to_multiset_ensures();
    es2.to_multiset_ensures();
    assert forall|i: int, j: int, var: Seq<char>|
        0 <= i < j < es2.len() && #[trigger] captures(es2[i], var) implies !#[trigger] captures(
        es2[j],
        var,
    ) by {
        if captures(es2[j], var) {
            let x = es2[i];
            let y = es2[j];
            if x == y {
                lemma_two_copies(es2, x, i, j);
                let (a, b) = lemma_count_two(es1, x);
                assert(captures(es1[a], var) && captures(es1[b], var));
            } else {
                assert(es2[i] == x && es2[j] == y);
                lemma_permutation_contains(es2, es1, x);
                lemma_permutation_contains(es2, es1, y);
                let a = choose|a: int| 0 <= a < es1.len() && es1[a] == x;
                let b = choose|b: int| 0 <= b < es1.len() && es1[b] == y;
                if a < b {
                    assert(captures(es1[a], var) && captures(es1[b], var));
                } else {
                    assert(captures(es1[b], var) && captures(es1[a], var));
                }
            }
        }
    }
}

/// Where no variable is captured twice, a capturing condition sets its
/// variable to the value of the field it names.
proof fn lemma_distinct_capture(es: Seq<EntityMatchView>, lookup: Lookup, i: int, var: Seq<char>)
    requires
        match_entities(es, lookup) is Some,
        captures_distinct(es),
        0 <= i < es.len(),
        captures(es[i], var),
    ensures
        match_entities(es, lookup)->0.contains_key(var),
        match_entities(es, lookup)->0[var] == lookup(entity_name(es[i]))->0,
{
    assert forall|j: int| i < j < es.len() implies !#[trigger] captures(es[j], var) by {
        assert(captures(es[i], var));
    }
    match es[i] {
        EntityMatchView::EqualsOrExtract { name, value } => {
            lemma_match_entities_capture_value(es, lookup, i, name, var);
        },
        EntityMatchView::Exists { .. } => {},
    }
}

/// Law: the order of the field conditions does not matter. Conditions with
/// the same elements in another order succeed exactly when the first ones do,
/// and, when no variable is captured by two of them, yield the same variables.
pub proof fn lemma_match_entities_permutation(
    es1: Seq<EntityMatchView>,
    es2: Seq<EntityMatchView>,
    lookup: Lookup,
)
    requires
        es1.to_multiset() == es2.to_multiset(),
    ensures
        match_entities(es1, lookup) is Some <==> match_entities(es2, lookup) is Some,
        captures_distinct(es1) ==> match_entities(es1, lookup) == match_entities(es2, lookup),
{
    lemma_match_entities_succeeds_iff(es1, lookup);
    lemma_match_entities_succeeds_iff(es2, lookup);
    if match_entities(es1, lookup) is Some {
        assert forall|i: int| 0 <= i < es2.len() implies #[trigger] entity_holds(es2[i], lookup) by {
            assert(es2[i] == es2[i]);
            lemma_permutation_contains(es2, es1, es2[i]);
            let k = choose|k: int| 0 <= k < es1.len() && es1[k] == es2[i];
            assert(entity_holds(es1[k], lookup));
        }
    }
    if match_entities(es2, lookup) is Some {
        assert forall|i: int| 0 <= i < es1.len() implies #[trigger] entity_holds(es1[i], lookup) by {
            assert(es1[i] == es1[i]);
            lemma_permutation_contains(es1, es2, es1[i]);
            let k = choose|k: int| 0 <= k < es2.len() && es2[k] == es1[i];
            assert(entity_holds(es2[k], lookup));
        }
    }
    if captures_distinct(es1) && match_entities(es1, lookup) is Some {
        lemma_permutation_keeps_distinct(es1, es2);
        let v1 = match_entities(es1, lookup)->0;
        let v2 = match_entities(es2, lookup)->0;
        assert forall|var: Seq<char>| #[trigger] v1.contains_key(var) implies v2.contains_key(var)
            && v1[var] == v2[var] by {
            lemma_match_entities_captures_only_variables(es1, lookup, var);
            let i = choose|i: int| 0 <= i < es1.len() && #[trigger] captures(es1[i], var);
            lemma_distinct_capture(es1, lookup, i, var);
            lemma_permutation_contains(es1, es2, es1[i]);
            let k = choose|k: int| 0 <= k < es2.len() && es2[k] == es1[i];
            lemma_distinct_capture(es2, lookup, k, var);
        }
        assert forall|var: Seq<char>| #[trigger] v2.contains_key(var) implies v1.contains_key(var) by {
            lemma_match_entities_captures_only_variables(es2, lookup, var);
            let i = choose|i: int| 0 <= i < es2.len() && #[trigger] captures(es2[i], var);
            lemma_permutation_contains(es2, es1, es2[i]);
            let k = choose|k: int| 0 <= k < es1.len() && es1[k] == es2[i];
            lemma_distinct_capture(es1, lookup, k, var);
        }
        assert(v1 =~= v2);
    }
}

/// Checks every condition of `entities` against the request fields that
/// `get_fn` looks up, and returns the variables they capture, or none when
/// a field is absent or differs from a literal.
pub fn match_entity<F: Fn(&str) -> Option<String>>(
    entities: &Option<Vec<EntityMatch>>,
    get_fn: F,
) -> (r: Option<ConfigVariables>)
    requires
        forall|k: &str| get_fn.requires((k,)),
    ensures
        forall|lookup: Lookup|
            #[trigger] answers_as(get_fn, lookup) ==> vars_view(r) == match_entities(
                entity_match_views(*entities),
                lookup,
            ),
{
    let mut variables = ConfigVariables::new();
    match entities {
        None => {
            return Some(variables);
        },
        Some(list) => {
            let ghost es = entity_match_views(*entities);
            let n = list.len();
            let mut i: usize = 0;
            assert(es.take(0) =~= Seq::<EntityMatchView>::empty());
            while i < n
                invariant
                    n == list@.len(),
                    i <= n,
                    es == list@.map_values(|e: EntityMatch| e@),
                    es == entity_match_views(*entities),
                    forall|k: &str| get_fn.requires((k,)),
                    forall|lookup: Lookup|
                        #[trigger] answers_as(get_fn, lookup) ==> match_entities(
                            es.take(i as int),
                            lookup,
                        ) == Some(variables@),
                decreases n - i,
            {
                let ghost before = variables@;
                assert(es.take(i + 1).drop_last() =~= es.take(i as int));
                assert(es.take(i + 1).last() == list@[i as int]@);
                match &list[i] {
                    EntityMatch::EqualsOrExtract { name, value } => {
                        let key: &str = name.as_str();
                        let found = get_fn(key);
                        if found.is_none() {
                            assert forall|lookup: Lookup|
                                #[trigger] answers_as(get_fn, lookup) implies match_entities(
                                es,
                                lookup,
                            ) is None by {
                                assert(opt_view(found) == lookup(key@));
                                lemma_match_entities_fails_on(es, i + 1, lookup);
                            }
                            return None;
                        }
                        let h = found.unwrap();
                        assert(opt_view(found) == Some(h@));
                        match value {
                            Binding::Variable(var) => {
                                variables.insert(var.clone(), h);
                            },
                            Binding::Literal(literal) => {
                                if !crate::text::str_eq(h.as_str(), literal.as_str()) {
                                    assert forall|lookup: Lookup|
                                        #[trigger] answers_as(
                                            get_fn,
                                            lookup,
                                        ) implies match_entities(es, lookup) is None by {
                                        assert(opt_view(found) == lookup(key@));
                                        lemma_match_entities_fails_on(es, i + 1, lookup);
                                    }
                                    return None;
                                }
                            },
                        }
                        assert forall|lookup: Lookup|
                            #[trigger] answers_as(get_fn, lookup) implies match_entities(
                            es.take(i + 1),
                            lookup,
                        ) == Some(variables@) by {
                            assert(opt_view(found) == lookup(key@));
                        }
                    },
                    EntityMatch::Exists { name } => {
                        let key: &str = name.as_str();
                        let found = get_fn(key);
                        if found.is_none() {
                            assert forall|lookup: Lookup|
                                #[trigger] answers_as(get_fn, lookup) implies match_entities(
                                es,
                                lookup,
                            ) is None by {
                                assert(opt_view(found) == lookup(key@));
                                lemma_match_entities_fails_on(es, i + 1, lookup);
                            }
                            return None;
                        }
                        assert forall|lookup: Lookup|
                            #[trigger] answers_as(get_fn, lookup) implies match_entities(
                            es.take(i + 1),
                            lookup,
                        ) == Some(variables@) by {
                            assert(opt_view(found) == lookup(key@));
                        }
                    },
                }
                i = i + 1;
            }
            assert(es.take(n as int) =~= es);
            Some(variables)
        },
    }
}

/// Checks every entity of `entities` against the request fields that
/// `get_fn` looks up: each field must be present, equal a literal value or be
/// captured by a variable.
pub fn match_entity_list<F: Fn(&str) -> Option<String>>(
    entities: &Option<Vec<Entity>>,
    get_fn: F,
) -> (r: Option<ConfigVariables>)
    requires
        forall|k: &str| get_fn.requires((k,)),
    ensures
        forall|lookup: Lookup|
            #[trigger] answers_as(get_fn, lookup) ==> vars_view(r) == match_entities(
                entity_views(*entities),
                lookup,
            ),
{
    let converted: Option<Vec<EntityMatch>> = match entities {
        None => None,
        Some(list) => {
            let mut out: Vec<EntityMatch> = Vec::new();
            let n = list.len();
            let mut i: usize = 0;
            while i < n
                invariant
                    n == list@.len(),
                    i <= n,
                    out@.len() == i,
                    forall|j: int| 0 <= j < i ==> #[trigger] out@[j]@ == list@[j]@,
                decreases n - i,
            {
                out.push(list[i].to_match());
                i = i + 1;
            }
            assert(out@.map_values(|e: EntityMatch| e@) =~= list@.map_values(|e: Entity| e@));
            Some(out)
        },
    };
    match_entity(&converted, get_fn)
}

} // verus!
