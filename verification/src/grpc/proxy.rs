//! Reading the gRPC service and method from a request path.

use vstd::prelude::*;

verus! {

/// `p` without one leading `/`.
pub open spec fn strip_leading_slash(p: Seq<char>) -> Seq<char> {
    if p.len() > 0 && p[0] == '/' {
        p.drop_first()
    } else {
        p
    }
}

/// The position of the last `/` in `s`, or -1 when there is none.
pub open spec fn last_slash(s: Seq<char>) -> int
    decreases s.len(),
{
    if s.len() == 0 {
        -1
    } else if s.last() == '/' {
        s.len() - 1
    } else {
        last_slash(s.drop_last())
    }
}

/// The service and the method that a gRPC request path names: with one
/// leading `/` dropped, what stands before and after the last `/`; the whole
/// text and an empty method when there is no `/` left.
pub open spec fn grpc_path_parts(p: Seq<char>) -> (Seq<char>, Seq<char>) {
    let t = strip_leading_slash(p);
    let j = last_slash(t);
    if j < 0 {
        (t, Seq::empty())
    } else {
        (t.take(j), t.skip(j + 1))
    }
}

/// Splits a gRPC request path `/package.Service/Method` into its service and method.
pub fn parse_grpc_path(path: &str) -> (r: (&str, &str))
    ensures
        (r.0@, r.1@) == grpc_path_parts(path@),
{
    let n = path.unicode_len();
    let start: usize = if n > 0 && path.get_char(0) == '/' {
        1
    } else {
        0
    };
    let ghost t = path@.subrange(start as int, n as int);
    assert(t == strip_leading_slash(path@));
    let mut k: usize = n;
    assert(t.take(t.len() as int) =~= t);
    while k > start
        invariant
            n == path@.len(),
            start <= k <= n,
            t == path@.subrange(start as int, n as int),
            t == strip_leading_slash(path@),
            last_slash(t) == last_slash(t.take(k - start)),
        decreases k,
    {
        let c = path.get_char(k - 1);
        assert(t.take(k - start).last() == c);
        if c == '/' {
            let service = path.substring_char(start, k - 1);
            let method = path.substring_char(k, n);
            assert(last_slash(t) == k - 1 - start);
            assert(service@ =~= t.take(k - 1 - start));
            assert(method@ =~= t.skip(k - start));
            return (service, method);
        }
        assert(t.take(k - start).drop_last() =~= t.take(k - 1 - start));
        k = k - 1;
    }
    assert(t.take(0) =~= Seq::<char>::empty());
    let service = path.substring_char(start, n);
    let method = path.substring_char(n, n);
    assert(method@ =~= Seq::<char>::empty());
    (service, method)
}

/// The last `/` of a text stands before a tail without `/`.
proof fn lemma_last_slash_before_plain_tail(a: Seq<char>, tail: Seq<char>)
    requires
        !tail.contains('/'),
    ensures
        last_slash(a + seq!['/'] + tail) == a.len(),
    decreases tail.len(),
{
    let s = a + seq!['/'] + tail;
    if tail.len() == 0 {
        assert(s.last() == '/');
    } else {
        assert(s.drop_last() =~= a + seq!['/'] + tail.drop_last());
        assert(!tail.drop_last().contains('/')) by {
            if tail.drop_last().contains('/') {
                let j = choose|j: int| 0 <= j < tail.drop_last().len() && tail.drop_last()[j] == '/';
                assert(tail[j] == '/');
            }
        }
        assert(tail[tail.len() - 1] != '/');
        lemma_last_slash_before_plain_tail(a, tail.drop_last());
    }
}

/// Law: the path `/<service>/<method>` names the service and the method,
/// whenever the method holds no `/`.
pub proof fn lemma_grpc_path_roundtrip(service: Seq<char>, method: Seq<char>)
    requires
        !method.contains('/'),
    ensures
        grpc_path_parts(seq!['/'] + service + seq!['/'] + method) == (service, method),
{
    let p = seq!['/'] + service + seq!['/'] + method;
    let t = service + seq!['/'] + method;
    assert(strip_leading_slash(p) =~= t);
    lemma_last_slash_before_plain_tail(service, method);
    assert(t.take(service.len() as int) =~= service);
    assert(t.skip(service.len() + 1 as int) =~= method);
}


/// A text without `/` has no last `/`.
proof fn lemma_last_slash_plain(s: Seq<char>)
    requires
        !s.contains('/'),
    ensures
        last_slash(s) == -1,
    decreases s.len(),
{
    if s.len() > 0 {
        assert(s[s.len() - 1] != '/');
        assert(!s.drop_last().contains('/')) by {
            if s.drop_last().contains('/') {
                let j = choose|j: int| 0 <= j < s.drop_last().len() && s.drop_last()[j] == '/';
                assert(s[j] == '/');
            }
        }
        lemma_last_slash_plain(s.drop_last());
    }
}

/// Law: a path with no `/` after its leading one names a service and no
/// method: the service is the whole path, leading `/` dropped.
pub proof fn lemma_grpc_path_without_method(service: Seq<char>)
    requires
        !service.contains('/'),
    ensures
        grpc_path_parts(seq!['/'] + service) == (service, Seq::<char>::empty()),
        grpc_path_parts(service) == (service, Seq::<char>::empty()),
{
    assert(strip_leading_slash(seq!['/'] + service) =~= service);
    if service.len() > 0 {
        assert(service[0] != '/');
    }
    assert(strip_leading_slash(service) == service);
    lemma_last_slash_plain(service);
}

} // verus!
