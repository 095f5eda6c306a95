//! Reading an HTTP request's query parameters.

use vstd::prelude::*;

use crate::text::{
    index_of, lemma_index_of, split_all, split_on, split_once, split_once_spec, split_scan, str_views,
};
use crate::utils::variables::{ConfigVariables, VarMap};

verus! {

/// The parameters that the `name=value` pieces of a query yield, read in
/// order, a later piece replacing an earlier one of the same name; a piece
/// without `=` is skipped, and a piece is cut at its first `=`.
pub open spec fn query_pairs(pieces: Seq<Seq<char>>) -> VarMap
    decreases pieces.len(),
{
    if pieces.len() == 0 {
        Map::empty()
    } else {
        let earlier = query_pairs(pieces.drop_last());
        match split_once_spec(pieces.last(), '=') {
            Some((name, value)) => earlier.insert(name, value),
            None => earlier,
        }
    }
}

/// The parameters of a query string: its `&`-separated pieces read as
/// `name=value`; no query yields no parameters.
pub open spec fn query_params(query: Option<Seq<char>>) -> VarMap {
    match query {
        Some(q) => query_pairs(split_all(q, '&')),
        None => Map::empty(),
    }
}

/// Reads the parameters of a request's query string.
pub fn parse_query(query: Option<&str>) -> (r: ConfigVariables)
    ensures
        r@ == query_params(
            match query {
                Some(q) => Some(q@),
                None => None,
            },
        ),
{
    let mut params = ConfigVariables::new();
    match query {
        None => params,
        Some(q) => {
            let pieces = split_on(q, '&');
            let ghost all = str_views(pieces@);
            let n = pieces.len();
            let mut i: usize = 0;
            assert(all.take(0) =~= Seq::<Seq<char>>::empty());
            while i < n
                invariant
                    n == pieces@.len(),
                    i <= n,
                    all == str_views(pieces@),
                    params@ == query_pairs(all.take(i as int)),
                decreases n - i,
            {
                assert(all.take(i + 1).drop_last() =~= all.take(i as int));
                assert(all.take(i + 1).last() == pieces@[i as int]@);
                match split_once(pieces[i], '=') {
                    Some((name, value)) => {
                        params.insert(String::from_str(name), String::from_str(value));
                    },
                    None => {},
                }
                i = i + 1;
            }
            assert(all.take(n as int) =~= all);
            params
        },
    }
}


/// Splitting a text without `sep` leaves it whole and open.
proof fn lemma_split_scan_plain(s: Seq<char>, sep: char)
    requires
        !s.contains(sep),
    ensures
        split_scan(s, sep) == (Seq::<Seq<char>>::empty(), s),
    decreases s.len(),
{
    if s.len() > 0 {
        assert(!s.drop_last().contains(sep)) by {
            if s.drop_last().contains(sep) {
                let j = choose|j: int| 0 <= j < s.drop_last().len() && s.drop_last()[j] == sep;
                assert(s[j] == sep);
            }
        }
        lemma_split_scan_plain(s.drop_last(), sep);
        assert(s[s.len() - 1] != sep);
        assert(s.drop_last().push(s.last()) =~= s);
    }
}

/// Splitting `x + b`, where the split of `x` has no open piece, adds the
/// pieces of `b` to those of `x`.
proof fn lemma_split_scan_after_closed(x: Seq<char>, b: Seq<char>, sep: char)
    requires
        split_scan(x, sep).1.len() == 0,
    ensures
        split_scan(x + b, sep) == (split_scan(x, sep).0 + split_scan(b, sep).0, split_scan(b, sep).1),
    decreases b.len(),
{
    if b.len() == 0 {
        assert(x + b =~= x);
        assert(split_scan(x, sep).0 + Seq::<Seq<char>>::empty() =~= split_scan(x, sep).0);
        assert(split_scan(x, sep).1 =~= Seq::<char>::empty());
    } else {
        assert((x + b).drop_last() =~= x + b.drop_last());
        assert((x + b).last() == b.last());
        lemma_split_scan_after_closed(x, b.drop_last(), sep);
        let (d, o) = split_scan(b.drop_last(), sep);
        let dx = split_scan(x, sep).0;
        assert((dx + d).push(o) =~= dx + d.push(o));
    }
}

/// Splitting at a `sep` between `a` and `b` gives the pieces of `a`, then those of `b`.
proof fn lemma_split_all_concat(a: Seq<char>, b: Seq<char>, sep: char)
    ensures
        split_all(a + seq![sep] + b, sep) == split_all(a, sep) + split_all(b, sep),
{
    let x = a + seq![sep];
    assert(x.drop_last() =~= a);
    assert(x.last() == sep);
    lemma_split_scan_after_closed(x, b, sep);
    let (d, o) = split_scan(b, sep);
    assert((split_all(a, sep) + d).push(o) =~= split_all(a, sep) + d.push(o));
}

/// Reading pieces `p1` then `p2` gives the parameters of `p1`, replaced
/// where `p2` sets the same names.
proof fn lemma_query_pairs_concat(p1: Seq<Seq<char>>, p2: Seq<Seq<char>>)
    ensures
        query_pairs(p1 + p2) == query_pairs(p1).union_prefer_right(query_pairs(p2)),
    decreases p2.len(),
{
    if p2.len() == 0 {
        assert(p1 + p2 =~= p1);
        assert(query_pairs(p1).union_prefer_right(Map::empty()) =~= query_pairs(p1));
    } else {
        assert((p1 + p2).drop_last() =~= p1 + p2.drop_last());
        assert((p1 + p2).last() == p2.last());
        lemma_query_pairs_concat(p1, p2.drop_last());
        let e = query_pairs(p1);
        let d = query_pairs(p2.drop_last());
        match split_once_spec(p2.last(), '=') {
            Some((name, value)) => {
                assert(e.union_prefer_right(d).insert(name, value) =~= e.union_prefer_right(
                    d.insert(name, value),
                ));
            },
            None => {},
        }
    }
}

/// Law: a request without a query string has no parameters.
pub proof fn lemma_query_params_none()
    ensures
        query_params(None) == Map::<Seq<char>, Seq<char>>::empty(),
{
}

/// Law: a query of one piece `name=value` sets `name` to exactly `value`,
/// as written, when the name holds no `=`; the value may hold `=`.
pub proof fn lemma_query_params_single(name: Seq<char>, value: Seq<char>)
    requires
        !name.contains('='),
        !name.contains('&'),
        !value.contains('&'),
    ensures
        query_params(Some(name + seq!['='] + value)) == map![name => value],
{
    let q = name + seq!['='] + value;
    assert(!q.contains('&')) by {
        if q.contains('&') {
            let j = choose|j: int| 0 <= j < q.len() && q[j] == '&';
            if j < name.len() {
                assert(name[j] == '&');
            } else if j > name.len() {
                assert(value[j - name.len() - 1] == '&');
            }
        }
    }
    lemma_split_scan_plain(q, '&');
    assert(split_all(q, '&') =~= seq![q]);
    assert forall|j: int| 0 <= j < name.len() implies q[j] != '=' by {
        assert(q[j] == name[j]);
    }
    lemma_index_of(q, '=', name.len() as int);
    assert(q.take(name.len() as int) =~= name);
    assert(q.skip(name.len() as int + 1) =~= value);
    assert(seq![q].drop_last() =~= Seq::<Seq<char>>::empty());
    assert(seq![q].last() == q);
    assert(index_of(q, '=') == name.len());
    assert(split_once_spec(q, '=') == Some((name, value)));
    assert(query_pairs(Seq::<Seq<char>>::empty()) == Map::<Seq<char>, Seq<char>>::empty());
    assert(query_pairs(seq![q]) == Map::<Seq<char>, Seq<char>>::empty().insert(name, value));
    assert(Map::<Seq<char>, Seq<char>>::empty().insert(name, value) =~= map![name => value]);
}

/// Law: a query of one piece without `=` sets no parameter.
pub proof fn lemma_query_params_bare_piece(piece: Seq<char>)
    requires
        !piece.contains('='),
        !piece.contains('&'),
    ensures
        query_params(Some(piece)) == Map::<Seq<char>, Seq<char>>::empty(),
{
    lemma_split_scan_plain(piece, '&');
    assert(split_all(piece, '&') =~= seq![piece]);
    assert forall|j: int| 0 <= j < piece.len() implies piece[j] != '=' by {
        assert(!(piece[j] == '='));
    }
    lemma_index_of(piece, '=', piece.len() as int);
    assert(seq![piece].drop_last() =~= Seq::<Seq<char>>::empty());
    assert(seq![piece].last() == piece);
    assert(split_once_spec(piece, '=') is None);
    assert(query_pairs(Seq::<Seq<char>>::empty()) == Map::<Seq<char>, Seq<char>>::empty());
}

/// Law: the pieces of a query are read left to right: the parameters of
/// `a&b` are those of `a`, with those of `b` replacing any of the same name.
pub proof fn lemma_query_params_concat(a: Seq<char>, b: Seq<char>)
    ensures
        query_params(Some(a + seq!['&'] + b)) == query_params(Some(a)).union_prefer_right(
            query_params(Some(b)),
        ),
{
    lemma_split_all_concat(a, b, '&');
    lemma_query_pairs_concat(split_all(a, '&'), split_all(b, '&'));
}

} // verus!
