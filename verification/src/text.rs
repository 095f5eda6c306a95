//! Character-level helpers on strings, each specified over `Seq<char>`.

use vstd::prelude::*;

verus! {

/// The Unicode `White_Space` property, the set of characters that
/// `char::is_whitespace` reports.
pub open spec fn is_white_space(c: char) -> bool {
    let u = c as u32;
    ||| (0x9 <= u && u <= 0xD)
    ||| u == 0x20
    ||| u == 0x85
    ||| u == 0xA0
    ||| u == 0x1680
    ||| (0x2000 <= u && u <= 0x200A)
    ||| u == 0x2028
    ||| u == 0x2029
    ||| u == 0x202F
    ||| u == 0x205F
    ||| u == 0x3000
}

/// `s` without its leading white space.
pub open spec fn trim_start(s: Seq<char>) -> Seq<char>
    decreases s.len(),
{
    if s.len() > 0 && is_white_space(s[0]) {
        trim_start(s.drop_first())
    } else {
        s
    }
}

/// `s` without its trailing white space.
pub open spec fn trim_end(s: Seq<char>) -> Seq<char>
    decreases s.len(),
{
    if s.len() > 0 && is_white_space(s.last()) {
        trim_end(s.drop_last())
    } else {
        s
    }
}

/// `s` without leading and trailing white space.
pub open spec fn trim(s: Seq<char>) -> Seq<char> {
    trim_end(trim_start(s))
}

/// Whether `c` has the Unicode `White_Space` property.
pub fn is_white_space_char(c: char) -> (r: bool)
    ensures
        r == is_white_space(c),
{
    let u = c as u32;
    (0x9 <= u && u <= 0xD) || u == 0x20 || u == 0x85 || u == 0xA0 || u == 0x1680 || (0x2000 <= u
        && u <= 0x200A) || u == 0x2028 || u == 0x2029 || u == 0x202F || u == 0x205F || u == 0x3000
}

/// The part of `s` left once leading and trailing white space is removed.
pub fn trim_str(s: &str) -> (r: &str)
    ensures
        r@ == trim(s@),
{
    let n = s.unicode_len();
    let mut i: usize = 0;
    assert(s@.subrange(0, n as int) =~= s@);
    while i < n
        invariant
            n == s@.len(),
            i <= n,
            trim_start(s@) == trim_start(s@.subrange(i as int, n as int)),
        ensures
            i == n || !is_white_space(s@[i as int]),
        decreases n - i,
    {
        if !is_white_space_char(s.get_char(i)) {
            break;
        }
        assert(s@.subrange(i as int, n as int).drop_first() =~= s@.subrange(i + 1, n as int));
        i = i + 1;
    }
    assert(trim_start(s@) == s@.subrange(i as int, n as int)) by {
        if i == n {
            assert(s@.subrange(i as int, n as int).len() == 0);
        }
    }
    let mut j: usize = n;
    while j > i
        invariant
            n == s@.len(),
            i <= j <= n,
            trim(s@) == trim_end(s@.subrange(i as int, j as int)),
        ensures
            j == i || !is_white_space(s@[j - 1]),
        decreases j,
    {
        if !is_white_space_char(s.get_char(j - 1)) {
            break;
        }
        assert(s@.subrange(i as int, j as int).drop_last() =~= s@.subrange(i as int, j - 1));
        j = j - 1;
    }
    assert(trim(s@) == s@.subrange(i as int, j as int));
    s.substring_char(i, j)
}

/// The views of a sequence of string slices.
pub open spec fn str_views(v: Seq<&str>) -> Seq<Seq<char>> {
    v.map_values(|x: &str| x@)
}

/// Reading `s` from the left: the finished non-empty `/`-free runs, and the
/// run still open at the end of `s`.
pub open spec fn scan_segments(s: Seq<char>) -> (Seq<Seq<char>>, Seq<char>)
    decreases s.len(),
{
    if s.len() == 0 {
        (Seq::empty(), Seq::empty())
    } else {
        let (done, open) = scan_segments(s.drop_last());
        if s.last() == '/' {
            if open.len() > 0 {
                (done.push(open), Seq::empty())
            } else {
                (done, open)
            }
        } else {
            (done, open.push(s.last()))
        }
    }
}

/// The maximal non-empty runs of characters other than `/` in `s`, in order:
/// `s` split at every `/`, with the empty pieces left out.
pub open spec fn segments(s: Seq<char>) -> Seq<Seq<char>> {
    let (done, open) = scan_segments(s);
    if open.len() > 0 {
        done.push(open)
    } else {
        done
    }
}

/// Splits `path` at every `/` and keeps the non-empty pieces.
pub fn split_segments<'a>(path: &'a str) -> (r: Vec<&'a str>)
    ensures
        str_views(r@) == segments(path@),
{
    let n = path.unicode_len();
    let mut out: Vec<&'a str> = Vec::new();
    let mut start: usize = 0;
    let mut i: usize = 0;
    assert(path@.take(0) =~= Seq::<char>::empty());
    while i < n
        invariant
            n == path@.len(),
            start <= i <= n,
            scan_segments(path@.take(i as int)) == (str_views(out@), path@.subrange(
                start as int,
                i as int,
            )),
        decreases n - i,
    {
        let c = path.get_char(i);
        assert(path@.take(i + 1).drop_last() =~= path@.take(i as int));
        assert(path@.take(i + 1).last() == c);
        if c == '/' {
            if i > start {
                let piece = path.substring_char(start, i);
                out.push(piece);
                assert(str_views(out@) =~= str_views(out@.drop_last()).push(piece@));
            }
            start = i + 1;
            assert(path@.subrange(start as int, i + 1) =~= Seq::<char>::empty());
        } else {
            assert(path@.subrange(start as int, i + 1) =~= path@.subrange(
                start as int,
                i as int,
            ).push(c));
        }
        i = i + 1;
    }
    assert(path@.take(n as int) =~= path@);
    if n > start {
        let piece = path.substring_char(start, n);
        out.push(piece);
        assert(str_views(out@) =~= str_views(out@.drop_last()).push(piece@));
    }
    out
}

/// Whether two strings hold the same characters.
pub fn str_eq(a: &str, b: &str) -> (r: bool)
    ensures
        r == (a@ == b@),
{
    let n = a.unicode_len();
    if n != b.unicode_len() {
        return false;
    }
    let mut i: usize = 0;
    while i < n
        invariant
            n == a@.len(),
            n == b@.len(),
            i <= n,
            forall|j: int| 0 <= j < i ==> a@[j] == b@[j],
        decreases n - i,
    {
        if a.get_char(i) != b.get_char(i) {
            return false;
        }
        i = i + 1;
    }
    assert(a@ =~= b@);
    true
}

/// The characters of each string in a sequence.
pub open spec fn strings_view(v: Seq<String>) -> Seq<Seq<char>> {
    v.map_values(|x: String| x@)
}

/// The characters of each string in an optional list.
pub open spec fn opt_strings_view(o: Option<Vec<String>>) -> Option<Seq<Seq<char>>> {
    match o {
        Some(v) => Some(strings_view(v@)),
        None => None,
    }
}

/// Whether `name` is one of `names`.
pub fn contains_str(names: &Vec<String>, name: &str) -> (r: bool)
    ensures
        r == strings_view(names@).contains(name@),
{
    let n = names.len();
    let mut i: usize = 0;
    while i < n
        invariant
            n == names@.len(),
            i <= n,
            forall|j: int| 0 <= j < i ==> names@[j]@ != name@,
        decreases n - i,
    {
        if str_eq(names[i].as_str(), name) {
            assert(strings_view(names@)[i as int] == name@);
            return true;
        }
        i = i + 1;
    }
    assert(!strings_view(names@).contains(name@)) by {
        if strings_view(names@).contains(name@) {
            let j = choose|j: int| 0 <= j < n && strings_view(names@)[j] == name@;
            assert(names@[j]@ == name@);
        }
    }
    false
}

/// The code of `c`, with the ASCII capitals `A`..`Z` taken to their small letters.
pub open spec fn ascii_fold(c: char) -> u32 {
    let u = c as u32;
    if 65 <= u && u <= 90 {
        (u + 32) as u32
    } else {
        u
    }
}

/// Whether `a` and `b` are the same text when ASCII letters are compared
/// without regard to case.
pub open spec fn eq_ignore_ascii_case(a: Seq<char>, b: Seq<char>) -> bool {
    a.len() == b.len() && forall|i: int| 0 <= i < a.len() ==> ascii_fold(#[trigger] a[i]) == ascii_fold(b[i])
}

/// The code of `c`, with an ASCII capital taken to its small letter.
pub fn fold_ascii_char(c: char) -> (r: u32)
    ensures
        r == ascii_fold(c),
{
    let u = c as u32;
    if 65 <= u && u <= 90 {
        u + 32
    } else {
        u
    }
}

/// Whether `a` and `b` are the same text when ASCII letters are compared
/// without regard to case.
pub fn str_eq_ignore_ascii_case(a: &str, b: &str) -> (r: bool)
    ensures
        r == eq_ignore_ascii_case(a@, b@),
{
    let n = a.unicode_len();
    if n != b.unicode_len() {
        return false;
    }
    let mut i: usize = 0;
    while i < n
        invariant
            n == a@.len(),
            n == b@.len(),
            i <= n,
            forall|j: int| 0 <= j < i ==> ascii_fold(#[trigger] a@[j]) == ascii_fold(b@[j]),
        decreases n - i,
    {
        if fold_ascii_char(a.get_char(i)) != fold_ascii_char(b.get_char(i)) {
            return false;
        }
        i = i + 1;
    }
    true
}

/// The lower-case form of `s` that `str::to_lowercase` gives (full Unicode case mapping).
pub uninterp spec fn lowercase_of(s: Seq<char>) -> Seq<char>;

/// Calls `str::to_lowercase`, which maps every character of `s` to its
/// Unicode lower case; its result depends on `s` alone, and is named
/// `lowercase_of` here without being spelled out.
#[verifier::external_body]
pub(crate) fn to_lowercase(s: &str) -> (r: String)
    ensures
        r@ == lowercase_of(s@),
{
    s.to_lowercase()
}

/// Reading `s` from the left: the pieces finished by a `sep`, and the piece still open.
pub open spec fn split_scan(s: Seq<char>, sep: char) -> (Seq<Seq<char>>, Seq<char>)
    decreases s.len(),
{
    if s.len() == 0 {
        (Seq::empty(), Seq::empty())
    } else {
        let (done, open) = split_scan(s.drop_last(), sep);
        if s.last() == sep {
            (done.push(open), Seq::empty())
        } else {
            (done, open.push(s.last()))
        }
    }
}

/// `s` cut at every `sep`, empty pieces kept: `str::split` with a character.
pub open spec fn split_all(s: Seq<char>, sep: char) -> Seq<Seq<char>> {
    let (done, open) = split_scan(s, sep);
    done.push(open)
}

/// Cuts `s` at every `sep`, keeping empty pieces.
pub fn split_on<'a>(s: &'a str, sep: char) -> (r: Vec<&'a str>)
    ensures
        str_views(r@) == split_all(s@, sep),
{
    let n = s.unicode_len();
    let mut out: Vec<&'a str> = Vec::new();
    let mut start: usize = 0;
    let mut i: usize = 0;
    assert(s@.take(0) =~= Seq::<char>::empty());
    while i < n
        invariant
            n == s@.len(),
            start <= i <= n,
            split_scan(s@.take(i as int), sep) == (str_views(out@), s@.subrange(
                start as int,
                i as int,
            )),
        decreases n - i,
    {
        let c = s.get_char(i);
        assert(s@.take(i + 1).drop_last() =~= s@.take(i as int));
        assert(s@.take(i + 1).last() == c);
        if c == sep {
            let piece = s.substring_char(start, i);
            out.push(piece);
            assert(str_views(out@) =~= str_views(out@.drop_last()).push(piece@));
            start = i + 1;
            assert(s@.subrange(start as int, i + 1) =~= Seq::<char>::empty());
        } else {
            assert(s@.subrange(start as int, i + 1) =~= s@.subrange(start as int, i as int).push(
                c,
            ));
        }
        i = i + 1;
    }
    assert(s@.take(n as int) =~= s@);
    let piece = s.substring_char(start, n);
    out.push(piece);
    assert(str_views(out@) =~= str_views(out@.drop_last()).push(piece@));
    out
}

/// The position of the first `c` in `s`, or -1 when there is none.
pub open spec fn index_of(s: Seq<char>, c: char) -> int
    decreases s.len(),
{
    if s.len() == 0 {
        -1
    } else if s[0] == c {
        0
    } else {
        let k = index_of(s.drop_first(), c);
        if k < 0 {
            -1
        } else {
            k + 1
        }
    }
}

/// The first `c` in `s` stands at `i` when none stands before it.
pub proof fn lemma_index_of(s: Seq<char>, c: char, i: int)
    requires
        0 <= i <= s.len(),
        i < s.len() ==> s[i] == c,
        forall|j: int| 0 <= j < i ==> s[j] != c,
    ensures
        index_of(s, c) == if i < s.len() {
            i
        } else {
            -1
        },
    decreases i,
{
    if i > 0 {
        lemma_index_of(s.drop_first(), c, i - 1);
    }
}

/// `s` cut at its first `sep`: `str::split_once` with a character.
pub open spec fn split_once_spec(s: Seq<char>, sep: char) -> Option<(Seq<char>, Seq<char>)> {
    let k = index_of(s, sep);
    if k < 0 {
        None
    } else {
        Some((s.take(k), s.skip(k + 1)))
    }
}

/// Cuts `s` at its first `sep`, if it holds one.
pub fn split_once<'a>(s: &'a str, sep: char) -> (r: Option<(&'a str, &'a str)>)
    ensures
        match r {
            Some((a, b)) => split_once_spec(s@, sep) == Some((a@, b@)),
            None => split_once_spec(s@, sep) is None,
        },
{
    let n = s.unicode_len();
    let mut i: usize = 0;
    while i < n
        invariant
            n == s@.len(),
            i <= n,
            forall|j: int| 0 <= j < i ==> s@[j] != sep,
        decreases n - i,
    {
        if s.get_char(i) == sep {
            proof {
                lemma_index_of(s@, sep, i as int);
            }
            let a = s.substring_char(0, i);
            let b = s.substring_char(i + 1, n);
            assert(a@ =~= s@.take(i as int));
            assert(b@ =~= s@.skip(i + 1));
            return Some((a, b));
        }
        i = i + 1;
    }
    proof {
        lemma_index_of(s@, sep, n as int);
    }
    None
}

/// One character more read by the segment scan.
pub open spec fn segment_step(state: (Seq<Seq<char>>, Seq<char>), c: char) -> (
    Seq<Seq<char>>,
    Seq<char>,
) {
    let (done, open) = state;
    if c == '/' {
        if open.len() > 0 {
            (done.push(open), Seq::empty())
        } else {
            (done, open)
        }
    } else {
        (done, open.push(c))
    }
}

/// The segment scan of `t`, started from `state`.
pub open spec fn scan_from(state: (Seq<Seq<char>>, Seq<char>), t: Seq<char>) -> (
    Seq<Seq<char>>,
    Seq<char>,
)
    decreases t.len(),
{
    if t.len() == 0 {
        state
    } else {
        segment_step(scan_from(state, t.drop_last()), t.last())
    }
}

/// Scanning `s + t` is scanning `t` from where the scan of `s` stopped.
proof fn lemma_scan_concat(s: Seq<char>, t: Seq<char>)
    ensures
        scan_segments(s + t) == scan_from(scan_segments(s), t),
    decreases t.len(),
{
    if t.len() == 0 {
        assert(s + t =~= s);
    } else {
        assert((s + t).drop_last() =~= s + t.drop_last());
        lemma_scan_concat(s, t.drop_last());
    }
}

/// Scanning from a state with no open segment only adds to the finished ones.
proof fn lemma_scan_from_closed(done: Seq<Seq<char>>, t: Seq<char>)
    ensures
        scan_from((done, Seq::empty()), t) == (
            done + scan_from((Seq::empty(), Seq::empty()), t).0,
            scan_from((Seq::empty(), Seq::empty()), t).1,
        ),
    decreases t.len(),
{
    if t.len() == 0 {
        assert(done + Seq::<Seq<char>>::empty() =~= done);
    } else {
        lemma_scan_from_closed(done, t.drop_last());
        let inner = scan_from((Seq::<Seq<char>>::empty(), Seq::<char>::empty()), t.drop_last());
        assert((done + inner.0).push(inner.1) =~= done + inner.0.push(inner.1));
    }
}

/// The plain scan is the scan from the empty state.
proof fn lemma_scan_is_scan_from(t: Seq<char>)
    ensures
        scan_segments(t) == scan_from((Seq::empty(), Seq::empty()), t),
    decreases t.len(),
{
    if t.len() > 0 {
        lemma_scan_is_scan_from(t.drop_last());
    }
}

/// Law: a `/` separates segments, whatever stands around it: the segments
/// of `a/b` are those of `a` followed by those of `b`. So leading, trailing
/// and repeated slashes do not change the segments.
pub proof fn lemma_segments_split_at_slash(a: Seq<char>, b: Seq<char>)
    ensures
        segments(a + seq!['/'] + b) == segments(a) + segments(b),
{
    let a1 = a + seq!['/'];
    assert(a1.drop_last() =~= a);
    assert(a1.last() == '/');
    assert(scan_segments(a1).1 =~= Seq::<char>::empty());
    assert(scan_segments(a1).0 == segments(a));
    lemma_scan_concat(a1, b);
    lemma_scan_from_closed(segments(a), b);
    lemma_scan_is_scan_from(b);
    let (d, o) = scan_segments(b);
    if o.len() > 0 {
        assert((segments(a) + d).push(o) =~= segments(a) + d.push(o));
    }
}

/// Law: every segment is non-empty and holds no `/`.
pub proof fn lemma_segments_well_formed(s: Seq<char>)
    ensures
        forall|i: int|
            0 <= i < segments(s).len() ==> #[trigger] segments(s)[i].len() > 0 && !segments(
                s,
            )[i].contains('/'),
{
    lemma_scan_well_formed(s);
}

/// The finished segments of a scan are non-empty and free of `/`, and so is the open one.
proof fn lemma_scan_well_formed(s: Seq<char>)
    ensures
        forall|i: int|
            0 <= i < scan_segments(s).0.len() ==> #[trigger] scan_segments(s).0[i].len() > 0
                && !scan_segments(s).0[i].contains('/'),
        !scan_segments(s).1.contains('/'),
    decreases s.len(),
{
    if s.len() > 0 {
        lemma_scan_well_formed(s.drop_last());
        let (d, o) = scan_segments(s.drop_last());
        if s.last() != '/' {
            assert forall|j: int| 0 <= j < o.push(s.last()).len() implies o.push(s.last())[j]
                != '/' by {
                if j < o.len() {
                    assert(o.push(s.last())[j] == o[j]);
                }
            }
        }
    }
}

/// Law: a non-empty text without `/` is a single segment.
pub proof fn lemma_segments_of_segment(s: Seq<char>)
    requires
        s.len() > 0,
        !s.contains('/'),
    ensures
        segments(s) == seq![s],
{
    lemma_scan_plain(s);
}

/// Scanning a text without `/` leaves it all open.
proof fn lemma_scan_plain(s: Seq<char>)
    requires
        !s.contains('/'),
    ensures
        scan_segments(s) == (Seq::<Seq<char>>::empty(), s),
    decreases s.len(),
{
    if s.len() > 0 {
        assert(!s.drop_last().contains('/')) by {
            if s.drop_last().contains('/') {
                let j = choose|j: int| 0 <= j < s.drop_last().len() && s.drop_last()[j] == '/';
                assert(s[j] == '/');
            }
        }
        lemma_scan_plain(s.drop_last());
        assert(s[s.len() - 1] != '/');
        assert(s.drop_last().push(s.last()) =~= s);
    }
}


/// The leading white space of `s` ends at the returned position.
proof fn lemma_trim_start_at(s: Seq<char>) -> (i: int)
    ensures
        0 <= i <= s.len(),
        trim_start(s) == s.skip(i),
        forall|k: int| 0 <= k < i ==> is_white_space(#[trigger] s[k]),
        i < s.len() ==> !is_white_space(s[i]),
    decreases s.len(),
{
    if s.len() > 0 && is_white_space(s[0]) {
        let i1 = lemma_trim_start_at(s.drop_first());
        assert(s.drop_first().skip(i1) =~= s.skip(i1 + 1));
        assert forall|k: int| 0 <= k < i1 + 1 implies is_white_space(#[trigger] s[k]) by {
            if k > 0 {
                assert(s[k] == s.drop_first()[k - 1]);
            }
        }
        if i1 + 1 < s.len() {
            assert(s[i1 + 1] == s.drop_first()[i1]);
        }
        i1 + 1
    } else {
        assert(s.skip(0) =~= s);
        0
    }
}

/// The trailing white space of `s` starts at the returned position.
proof fn lemma_trim_end_at(s: Seq<char>) -> (j: int)
    ensures
        0 <= j <= s.len(),
        trim_end(s) == s.take(j),
        forall|k: int| j <= k < s.len() ==> is_white_space(#[trigger] s[k]),
        j > 0 ==> !is_white_space(s[j - 1]),
    decreases s.len(),
{
    if s.len() > 0 && is_white_space(s.last()) {
        let j1 = lemma_trim_end_at(s.drop_last());
        assert(s.drop_last().take(j1) =~= s.take(j1));
        assert forall|k: int| j1 <= k < s.len() implies is_white_space(#[trigger] s[k]) by {
            if k < s.len() - 1 {
                assert(s[k] == s.drop_last()[k]);
            }
        }
        if j1 > 0 {
            assert(s[j1 - 1] == s.drop_last()[j1 - 1]);
        }
        j1
    } else {
        assert(s.take(s.len() as int) =~= s);
        s.len() as int
    }
}

/// Law: trimming keeps a middle run of `s`: only white space is cut before
/// and after it, and the run neither starts nor ends with white space.
pub proof fn lemma_trim(s: Seq<char>)
    ensures
        exists|i: int, j: int|
            0 <= i <= j <= s.len() && trim(s) == s.subrange(i, j) && (forall|k: int|
                0 <= k < i ==> is_white_space(#[trigger] s[k])) && (forall|k: int|
                j <= k < s.len() ==> is_white_space(#[trigger] s[k])),
        trim(s).len() > 0 ==> !is_white_space(trim(s)[0]) && !is_white_space(trim(s).last()),
{
    let i = lemma_trim_start_at(s);
    let t = s.skip(i);
    let j = lemma_trim_end_at(t);
    assert(trim(s) == t.take(j));
    assert(t.take(j) =~= s.subrange(i, i + j));
    assert forall|k: int| i + j <= k < s.len() implies is_white_space(#[trigger] s[k]) by {
        assert(s[k] == t[k - i]);
    }
    if j > 0 {
        assert(t.take(j)[0] == s[i]);
        assert(t.take(j).last() == t[j - 1]);
    }
    assert(0 <= i <= i + j <= s.len() && trim(s) == s.subrange(i, i + j) && (forall|k: int|
        0 <= k < i ==> is_white_space(#[trigger] s[k])) && (forall|k: int|
        i + j <= k < s.len() ==> is_white_space(#[trigger] s[k])));
}

/// Law: two texts are equal without regard to ASCII case exactly when they
/// have the same length and, at each position, the same character code or
/// the codes of the capital and small form of one ASCII letter.
pub proof fn lemma_eq_ignore_ascii_case_iff(a: Seq<char>, b: Seq<char>)
    ensures
        eq_ignore_ascii_case(a, b) <==> a.len() == b.len() && forall|i: int|
            #![trigger a[i], b[i]]
            0 <= i < a.len() ==> a[i] as u32 == b[i] as u32 || (65 <= a[i] as u32 <= 90 && b[i] as u32
                == a[i] as u32 + 32) || (65 <= b[i] as u32 <= 90 && a[i] as u32 == b[i] as u32 + 32),
{
    assert forall|x: char, y: char| #[trigger] ascii_fold(x) == #[trigger] ascii_fold(y) <==> (x
        as u32 == y as u32 || (65 <= x as u32 <= 90 && y as u32 == x as u32 + 32) || (65 <= y as u32
        <= 90 && x as u32 == y as u32 + 32)) by {}
    if a.len() == b.len() {
        if eq_ignore_ascii_case(a, b) {
            assert forall|i: int| #![trigger a[i], b[i]] 0 <= i < a.len() implies a[i] as u32 == b[i]
                as u32 || (65 <= a[i] as u32 <= 90 && b[i] as u32 == a[i] as u32 + 32) || (65 <= b[i]
                as u32 <= 90 && a[i] as u32 == b[i] as u32 + 32) by {
                assert(ascii_fold(a[i]) == ascii_fold(b[i]));
            }
        }
    }
}

/// Law: the empty text has no segments.
pub proof fn lemma_segments_empty()
    ensures
        segments(Seq::empty()) == Seq::<Seq<char>>::empty(),
{
}

} // verus!
