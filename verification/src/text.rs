//! Character-level text utilities used by the parsers and the renderers.
//!
//! Texts are modelled as `Seq<char>`; the spec functions here describe
//! splitting, trimming and line breaking the way std's `str` methods do.

use vstd::prelude::*;

verus! {

// ---------------------------------------------------------------------
// Specifications
// ---------------------------------------------------------------------

/// Unicode `White_Space` property, which `char::is_whitespace` and
/// `str::trim` go by.
pub open spec fn is_whitespace(c: char) -> bool {
    ||| ('\u{9}' <= c && c <= '\u{d}')
    ||| c == ' '
    ||| c == '\u{85}'
    ||| c == '\u{a0}'
    ||| c == '\u{1680}'
    ||| ('\u{2000}' <= c && c <= '\u{200a}')
    ||| c == '\u{2028}'
    ||| c == '\u{2029}'
    ||| c == '\u{202f}'
    ||| c == '\u{205f}'
    ||| c == '\u{3000}'
}

/// `s` without its leading whitespace.
pub open spec fn trim_start(s: Seq<char>) -> Seq<char>
    decreases s.len(),
{
    if s.len() > 0 && is_whitespace(s[0]) {
        trim_start(s.drop_first())
    } else {
        s
    }
}

/// `s` without its trailing whitespace.
pub open spec fn trim_end(s: Seq<char>) -> Seq<char>
    decreases s.len(),
{
    if s.len() > 0 && is_whitespace(s.last()) {
        trim_end(s.drop_last())
    } else {
        s
    }
}

/// `s` without leading and trailing whitespace (`str::trim`).
pub open spec fn trim(s: Seq<char>) -> Seq<char> {
    trim_end(trim_start(s))
}

/// The pieces of `s` between occurrences of `sep` (`str::split` with a
/// `char` pattern): always at least one piece, empty pieces included.
pub open spec fn split(s: Seq<char>, sep: char) -> Seq<Seq<char>>
    decreases s.len(),
{
    if s.len() == 0 {
        seq![Seq::<char>::empty()]
    } else {
        let p = split(s.drop_last(), sep);
        if s.last() == sep {
            p.push(Seq::<char>::empty())
        } else {
            p.update(p.len() - 1, p.last().push(s.last()))
        }
    }
}

/// At most `n` pieces of `s` split at `sep`, the last one holding the rest
/// of the text (`str::splitn`), for `n >= 1`.
pub open spec fn splitn(s: Seq<char>, n: nat, sep: char) -> Seq<Seq<char>>
    decreases s.len(),
{
    if s.len() == 0 {
        seq![Seq::<char>::empty()]
    } else {
        let p = splitn(s.drop_last(), n, sep);
        if s.last() == sep && p.len() < n {
            p.push(Seq::<char>::empty())
        } else {
            p.update(p.len() - 1, p.last().push(s.last()))
        }
    }
}

/// A line without the carriage return that ends it, if any.
pub open spec fn strip_cr(l: Seq<char>) -> Seq<char> {
    if l.len() > 0 && l.last() == '\r' {
        l.drop_last()
    } else {
        l
    }
}

/// The lines of `s` (`str::lines`): split at `\n`, a `\r` before the `\n`
/// removed, no line after a final `\n`, none at all for an empty text.
pub open spec fn lines(s: Seq<char>) -> Seq<Seq<char>> {
    if s.len() == 0 {
        Seq::empty()
    } else {
        let p = split(s, '\n');
        let ended = p.drop_last().map_values(|l: Seq<char>| strip_cr(l));
        if s.last() == '\n' {
            ended
        } else {
            ended.push(p.last())
        }
    }
}

/// The character sequences held by a vector of character vectors.
pub open spec fn views(v: Seq<Vec<char>>) -> Seq<Seq<char>> {
    v.map_values(|p: Vec<char>| p@)
}

/// Keeps the values that `f` gives for the elements of `s`, in order.
pub open spec fn filter_map<A, B>(s: Seq<A>, f: spec_fn(A) -> Option<B>) -> Seq<B>
    decreases s.len(),
{
    if s.len() == 0 {
        Seq::empty()
    } else {
        let prev = filter_map(s.drop_last(), f);
        match f(s.last()) {
            Some(b) => prev.push(b),
            None => prev,
        }
    }
}

/// `pat` occurs in `s` as a contiguous run.
pub open spec fn contains(s: Seq<char>, pat: Seq<char>) -> bool {
    exists|i: int| 0 <= i && i + pat.len() <= s.len() && #[trigger] s.subrange(i, i + pat.len()) == pat
}

/// `split` always yields at least one piece.
pub proof fn lemma_split_len(s: Seq<char>, sep: char)
    ensures
        split(s, sep).len() >= 1,
    decreases s.len(),
{
    if s.len() > 0 {
        lemma_split_len(s.drop_last(), sep);
    }
}

/// `splitn` yields between one and `n` pieces.
pub proof fn lemma_splitn_len(s: Seq<char>, n: nat, sep: char)
    requires
        n >= 1,
    ensures
        1 <= splitn(s, n, sep).len() <= n,
    decreases s.len(),
{
    if s.len() > 0 {
        lemma_splitn_len(s.drop_last(), n, sep);
    }
}

// ---------------------------------------------------------------------
// Executable helpers
// ---------------------------------------------------------------------

/// Appends one character to a `String` with std's `String::push`; the
/// contract claims that the string afterwards is the one before with that
/// character added at its end.
#[verifier::external_body]
pub(crate) fn push_char(s: &mut String, c: char)
    ensures
        final(s)@ == old(s)@.push(c),
{
    s.push(c);
}

/// The characters of `s`, in order.
pub fn to_chars(s: &str) -> (v: Vec<char>)
    ensures
        v@ == s@,
{
    let mut v: Vec<char> = Vec::new();
    for c in it: s.chars()
        invariant
            v@ == it.seq().take(it.index() as int),
            it.seq() == s@,
    {
        v.push(c);
    }
    v
}

/// The string made of the characters `v[lo..hi]`.
pub fn string_of(v: &Vec<char>, lo: usize, hi: usize) -> (s: String)
    requires
        lo <= hi <= v.len(),
    ensures
        s@ == v@.subrange(lo as int, hi as int),
{
    let mut s = String::new();
    let mut i = lo;
    while i < hi
        invariant
            lo <= i <= hi <= v.len(),
            s@ == v@.subrange(lo as int, i as int),
        decreases hi - i,
    {
        push_char(&mut s, v[i]);
        i = i + 1;
    }
    s
}

/// The characters `v[lo..hi]` as a new vector.
pub fn sub_chars(v: &Vec<char>, lo: usize, hi: usize) -> (r: Vec<char>)
    requires
        lo <= hi <= v.len(),
    ensures
        r@ == v@.subrange(lo as int, hi as int),
{
    let mut r: Vec<char> = Vec::new();
    let mut i = lo;
    while i < hi
        invariant
            lo <= i <= hi <= v.len(),
            r@ == v@.subrange(lo as int, i as int),
        decreases hi - i,
    {
        r.push(v[i]);
        i = i + 1;
    }
    r
}

/// Whether `c` is Unicode whitespace (`char::is_whitespace`).
pub fn is_whitespace_char(c: char) -> (b: bool)
    ensures
        b == is_whitespace(c),
{
    ('\u{9}' <= c && c <= '\u{d}') || c == ' ' || c == '\u{85}' || c == '\u{a0}' || c == '\u{1680}'
        || ('\u{2000}' <= c && c <= '\u{200a}') || c == '\u{2028}' || c == '\u{2029}'
        || c == '\u{202f}' || c == '\u{205f}' || c == '\u{3000}'
}

proof fn lemma_trim_start_suffix(s: Seq<char>, i: int)
    requires
        0 <= i <= s.len(),
        forall|j: int| 0 <= j < i ==> is_whitespace(#[trigger] s[j]),
    ensures
        trim_start(s) == trim_start(s.subrange(i, s.len() as int)),
    decreases i,
{
    if i > 0 {
        assert(s.drop_first().subrange(i - 1, s.drop_first().len() as int) =~= s.subrange(i, s.len() as int));
        lemma_trim_start_suffix(s.drop_first(), i - 1);
    } else {
        assert(s.subrange(0, s.len() as int) =~= s);
    }
}

proof fn lemma_trim_end_prefix(s: Seq<char>, i: int)
    requires
        0 <= i <= s.len(),
        forall|j: int| i <= j < s.len() ==> is_whitespace(#[trigger] s[j]),
    ensures
        trim_end(s) == trim_end(s.subrange(0, i)),
    decreases s.len() - i,
{
    if i < s.len() {
        assert(s.drop_last().subrange(0, i) =~= s.subrange(0, i));
        lemma_trim_end_prefix(s.drop_last(), i);
    } else {
        assert(s.subrange(0, i) =~= s);
    }
}

/// The bounds `(a, b)` such that `v[a..b]` is `v[lo..hi]` trimmed.
pub fn trim_bounds(v: &Vec<char>, lo: usize, hi: usize) -> (r: (usize, usize))
    requires
        lo <= hi <= v.len(),
    ensures
        lo <= r.0 <= r.1 <= hi,
        v@.subrange(r.0 as int, r.1 as int) == trim(v@.subrange(lo as int, hi as int)),
{
    let ghost w = v@.subrange(lo as int, hi as int);
    let mut a = lo;
    while a < hi && is_whitespace_char(v[a])
        invariant
            lo <= a <= hi <= v.len(),
            w == v@.subrange(lo as int, hi as int),
            forall|j: int| lo <= j < a ==> is_whitespace(#[trigger] v@[j]),
        decreases hi - a,
    {
        a = a + 1;
    }
    proof {
        assert forall|j: int| 0 <= j < a - lo implies is_whitespace(#[trigger] w[j]) by {
            assert(w[j] == v@[lo + j]);
        }
        lemma_trim_start_suffix(w, a - lo);
        assert(w.subrange(a - lo, w.len() as int) =~= v@.subrange(a as int, hi as int));
        let u = v@.subrange(a as int, hi as int);
        if a < hi {
            assert(u[0] == v@[a as int]);
        }
        assert(trim_start(u) == u);
    }
    let mut b = hi;
    while b > a && is_whitespace_char(v[b - 1])
        invariant
            lo <= a <= b <= hi <= v.len(),
            forall|j: int| b <= j < hi ==> is_whitespace(#[trigger] v@[j]),
        decreases b - a,
    {
        b = b - 1;
    }
    proof {
        let u = v@.subrange(a as int, hi as int);
        assert forall|j: int| b - a <= j < u.len() implies is_whitespace(#[trigger] u[j]) by {
            assert(u[j] == v@[a + j]);
        }
        lemma_trim_end_prefix(u, b - a);
        assert(u.subrange(0, b - a) =~= v@.subrange(a as int, b as int));
        let t = v@.subrange(a as int, b as int);
        if b > a {
            assert(t.last() == v@[b - 1]);
        }
        assert(trim_end(t) == t);
    }
    (a, b)
}

/// The pieces of `v` between occurrences of `sep` (see [`split`]).
pub fn split_chars(v: &Vec<char>, sep: char) -> (r: Vec<Vec<char>>)
    ensures
        views(r@) == split(v@, sep),
{
    let mut pieces: Vec<Vec<char>> = Vec::new();
    let mut cur: Vec<char> = Vec::new();
    let mut i: usize = 0;
    assert(v@.take(0) =~= Seq::<char>::empty());
    assert(views(pieces@).push(cur@) =~= split(v@.take(0), sep));
    while i < v.len()
        invariant
            i <= v.len(),
            views(pieces@).push(cur@) == split(v@.take(i as int), sep),
        decreases v.len() - i,
    {
        let c = v[i];
        let ghost p = split(v@.take(i as int), sep);
        proof { lemma_split_len(v@.take(i as int), sep); }
        assert(v@.take(i + 1).drop_last() =~= v@.take(i as int));
        assert(v@.take(i + 1).last() == c);
        if c == sep {
            pieces.push(cur);
            cur = Vec::new();
            assert(views(pieces@).push(cur@) =~= p.push(Seq::<char>::empty()));
        } else {
            let ghost old_pieces = views(pieces@);
            cur.push(c);
            assert(views(pieces@) == old_pieces);
            assert(views(pieces@).push(cur@) =~= p.update(p.len() - 1, p.last().push(c)));
        }
        i = i + 1;
    }
    assert(v@.take(v.len() as int) =~= v@);
    pieces.push(cur);
    pieces
}

/// At most `n` pieces of `v` split at `sep` (see [`splitn`]).
pub fn splitn_chars(v: &Vec<char>, n: usize, sep: char) -> (r: Vec<Vec<char>>)
    requires
        n >= 1,
    ensures
        views(r@) == splitn(v@, n as nat, sep),
{
    let mut pieces: Vec<Vec<char>> = Vec::new();
    let mut cur: Vec<char> = Vec::new();
    let mut i: usize = 0;
    assert(v@.take(0) =~= Seq::<char>::empty());
    assert(views(pieces@).push(cur@) =~= splitn(v@.take(0), n as nat, sep));
    while i < v.len()
        invariant
            i <= v.len(),
            n >= 1,
            views(pieces@).push(cur@) == splitn(v@.take(i as int), n as nat, sep),
        decreases v.len() - i,
    {
        let c = v[i];
        let ghost p = splitn(v@.take(i as int), n as nat, sep);
        proof { lemma_splitn_len(v@.take(i as int), n as nat, sep); }
        assert(v@.take(i + 1).drop_last() =~= v@.take(i as int));
        assert(v@.take(i + 1).last() == c);
        assert(p.len() == pieces.len() + 1);
        if c == sep && pieces.len() + 1 < n {
            pieces.push(cur);
            cur = Vec::new();
            assert(views(pieces@).push(cur@) =~= p.push(Seq::<char>::empty()));
        } else {
            let ghost old_pieces = views(pieces@);
            cur.push(c);
            assert(views(pieces@) == old_pieces);
            assert(views(pieces@).push(cur@) =~= p.update(p.len() - 1, p.last().push(c)));
        }
        i = i + 1;
    }
    assert(v@.take(v.len() as int) =~= v@);
    pieces.push(cur);
    pieces
}

/// `l` without a final carriage return (see [`strip_cr`]).
fn strip_cr_chars(l: Vec<char>) -> (r: Vec<char>)
    ensures
        r@ == strip_cr(l@),
{
    let mut l = l;
    if l.len() > 0 && l[l.len() - 1] == '\r' {
        l.pop();
    }
    l
}

/// The lines of `v` (see [`lines`]).
pub fn lines_chars(v: &Vec<char>) -> (r: Vec<Vec<char>>)
    ensures
        views(r@) == lines(v@),
{
    let mut out: Vec<Vec<char>> = Vec::new();
    let mut cur: Vec<char> = Vec::new();
    let mut i: usize = 0;
    assert(v@.take(0) =~= Seq::<char>::empty());
    assert(views(out@) =~= split(v@.take(0), '\n').drop_last().map_values(|l: Seq<char>| strip_cr(l)));
    while i < v.len()
        invariant
            i <= v.len(),
            views(out@) == split(v@.take(i as int), '\n').drop_last().map_values(|l: Seq<char>| strip_cr(l)),
            cur@ == split(v@.take(i as int), '\n').last(),
        decreases v.len() - i,
    {
        let c = v[i];
        let ghost p = split(v@.take(i as int), '\n');
        proof { lemma_split_len(v@.take(i as int), '\n'); }
        assert(v@.take(i + 1).drop_last() =~= v@.take(i as int));
        assert(v@.take(i + 1).last() == c);
        if c == '\n' {
            let ghost old_out = views(out@);
            let line = strip_cr_chars(cur);
            out.push(line);
            cur = Vec::new();
            assert(p.push(Seq::<char>::empty()).drop_last() =~= p);
            assert(p.drop_last().push(p.last()) =~= p);
            assert(views(out@) =~= old_out.push(strip_cr(p.last())));
            assert(p.map_values(|l: Seq<char>| strip_cr(l)) =~= p.drop_last().map_values(|l: Seq<char>| strip_cr(l)).push(strip_cr(p.last())));
        } else {
            let ghost old_out = views(out@);
            cur.push(c);
            assert(views(out@) == old_out);
            assert(p.update(p.len() - 1, p.last().push(c)).drop_last() =~= p.drop_last());
        }
        i = i + 1;
    }
    assert(v@.take(v.len() as int) =~= v@);
    proof { lemma_split_len(v@, '\n'); }
    if v.len() > 0 && v[v.len() - 1] != '\n' {
        out.push(cur);
    } else if v.len() > 0 {
        assert(v@.last() == '\n');
    }
    out
}

/// Whether `hay[i..i + pat.len()]` is `pat`.
fn matches_at(hay: &Vec<char>, pat: &Vec<char>, i: usize) -> (b: bool)
    requires
        i + pat.len() <= hay.len(),
    ensures
        b == (hay@.subrange(i as int, i + pat.len()) == pat@),
{
    let mut j: usize = 0;
    while j < pat.len()
        invariant
            j <= pat.len(),
            i + pat.len() <= hay.len(),
            forall|k: int| 0 <= k < j ==> hay@[i + k] == pat@[k],
        decreases pat.len() - j,
    {
        if hay[i + j] != pat[j] {
            assert(hay@.subrange(i as int, i + pat.len())[j as int] != pat@[j as int]);
            return false;
        }
        j = j + 1;
    }
    assert(hay@.subrange(i as int, i + pat.len()) =~= pat@);
    true
}

/// Whether `pat` occurs in `hay` (see [`contains`]).
pub fn contains_chars(hay: &Vec<char>, pat: &Vec<char>) -> (b: bool)
    ensures
        b == contains(hay@, pat@),
{
    if pat.len() > hay.len() {
        return false;
    }
    let last = hay.len() - pat.len();
    let mut i: usize = 0;
    loop
        invariant
            i <= last,
            last + pat.len() == hay.len(),
            forall|k: int| 0 <= k < i ==> #[trigger] hay@.subrange(k, k + pat.len()) != pat@,
        decreases last - i,
    {
        if matches_at(hay, pat, i) {
            return true;
        }
        if i == last {
            return false;
        }
        i = i + 1;
    }
}

/// Whether `pat` occurs in `hay` (`str::contains` with a `&str` pattern).
pub fn contains_str(hay: &str, pat: &str) -> (b: bool)
    ensures
        b == contains(hay@, pat@),
{
    let h = to_chars(hay);
    let p = to_chars(pat);
    contains_chars(&h, &p)
}

/// The view of an optional string.
pub open spec fn opt_view(o: Option<String>) -> Option<Seq<char>> {
    match o {
        Some(s) => Some(s@),
        None => None,
    }
}

/// The character sequences held by a vector of strings.
pub open spec fn string_views(v: Seq<String>) -> Seq<Seq<char>> {
    v.map_values(|s: String| s@)
}

/// `filter_map` over the first `k + 1` elements, in terms of the first `k`.
pub proof fn lemma_filter_map_step<A, B>(s: Seq<A>, k: int, f: spec_fn(A) -> Option<B>)
    requires
        0 <= k < s.len(),
    ensures
        filter_map(s.take(k + 1), f) == (match f(s[k]) {
            Some(b) => filter_map(s.take(k), f).push(b),
            None => filter_map(s.take(k), f),
        }),
{
    assert(s.take(k + 1).drop_last() =~= s.take(k));
    assert(s.take(k + 1).last() == s[k]);
}

/// A new `String` holding the characters of `s`.
pub fn owned(s: &str) -> (r: String)
    ensures
        r@ == s@,
{
    let mut r = String::new();
    r.append(s);
    assert(r@ =~= s@);
    r
}

/// A copy of `s`.
pub fn copy_string(s: &String) -> (r: String)
    ensures
        r@ == s@,
{
    owned(s.as_str())
}

/// `filter_map` of a sequence with one more element at its end.
pub proof fn lemma_filter_map_push<A, B>(s: Seq<A>, x: A, f: spec_fn(A) -> Option<B>)
    ensures
        filter_map(s.push(x), f) == (match f(x) {
            Some(b) => filter_map(s, f).push(b),
            None => filter_map(s, f),
        }),
{
    assert(s.push(x).drop_last() =~= s);
}

/// `filter_map` of a prefix is a prefix of `filter_map`.
pub proof fn lemma_filter_map_prefix<A, B>(s: Seq<A>, k: int, f: spec_fn(A) -> Option<B>)
    requires
        0 <= k <= s.len(),
    ensures
        filter_map(s.take(k), f).len() <= filter_map(s, f).len(),
        forall|i: int|
            0 <= i < filter_map(s.take(k), f).len() ==> #[trigger] filter_map(s.take(k), f)[i]
                == filter_map(s, f)[i],
    decreases s.len(),
{
    if k < s.len() {
        assert(s.drop_last().take(k) =~= s.take(k));
        lemma_filter_map_prefix(s.drop_last(), k, f);
    } else {
        assert(s.take(k) =~= s);
    }
}

/// The texts of `parts` one after the other.
pub open spec fn concat(parts: Seq<Seq<char>>) -> Seq<char>
    decreases parts.len(),
{
    if parts.len() == 0 {
        Seq::empty()
    } else {
        concat(parts.drop_last()) + parts.last()
    }
}

/// `concat` over the first `k + 1` parts, in terms of the first `k`.
pub proof fn lemma_concat_step(parts: Seq<Seq<char>>, k: int)
    requires
        0 <= k < parts.len(),
    ensures
        concat(parts.take(k + 1)) == concat(parts.take(k)) + parts[k],
{
    assert(parts.take(k + 1).drop_last() =~= parts.take(k));
    assert(parts.take(k + 1).last() == parts[k]);
}

/// The texts of `parts` with `sep` between each two (`slice::join`).
pub open spec fn join(parts: Seq<Seq<char>>, sep: Seq<char>) -> Seq<char>
    decreases parts.len(),
{
    if parts.len() == 0 {
        Seq::empty()
    } else if parts.len() == 1 {
        parts[0]
    } else {
        join(parts.drop_last(), sep) + sep + parts.last()
    }
}

/// Appends the strings of `parts` with `sep` between each two.
pub fn push_joined(out: &mut String, parts: &Vec<String>, sep: &str)
    ensures
        final(out)@ == old(out)@ + join(string_views(parts@), sep@),
{
    let ghost start = out@;
    let ghost pv = string_views(parts@);
    let mut k: usize = 0;
    assert(pv.take(0) =~= Seq::<Seq<char>>::empty());
    assert(out@ =~= start + join(pv.take(0), sep@));
    while k < parts.len()
        invariant
            k <= parts.len(),
            pv == string_views(parts@),
            out@ == start + join(pv.take(k as int), sep@),
        decreases parts.len() - k,
    {
        assert(pv.take(k + 1).drop_last() =~= pv.take(k as int));
        assert(pv.take(k + 1).last() == parts@[k as int]@);
        if k > 0 {
            out.append(sep);
        } else {
            assert(pv.take(1) =~= seq![parts@[0]@]);
        }
        out.append(parts[k].as_str());
        assert(out@ =~= start + join(pv.take(k + 1), sep@));
        k = k + 1;
    }
    assert(pv.take(parts.len() as int) =~= pv);
}

// ---------------------------------------------------------------------
// Splitting texts that were put together
// ---------------------------------------------------------------------

/// Appending a run without `sep` extends the last piece.
pub proof fn lemma_split_extend(a: Seq<char>, x: Seq<char>, sep: char)
    requires
        !x.contains(sep),
    ensures
        split(a + x, sep) == split(a, sep).update(
            split(a, sep).len() - 1,
            split(a, sep).last() + x,
        ),
    decreases x.len(),
{
    lemma_split_len(a, sep);
    let p = split(a, sep);
    if x.len() == 0 {
        assert(a + x =~= a);
        assert(p.last() + x =~= p.last());
        assert(p.update(p.len() - 1, p.last() + x) =~= p);
    } else {
        let x1 = x.drop_last();
        assert(!x1.contains(sep)) by {
            if x1.contains(sep) {
                let i = choose|i: int| 0 <= i < x1.len() && x1[i] == sep;
                assert(x[i] == sep);
            }
        }
        assert(x[x.len() - 1] != sep);
        lemma_split_extend(a, x1, sep);
        assert((a + x).drop_last() =~= a + x1);
        assert((a + x).last() == x.last());
        assert((p.last() + x1).push(x.last()) =~= p.last() + x);
        assert(split(a + x, sep) =~= p.update(p.len() - 1, p.last() + x));
    }
}

/// A run without `sep` is a single piece.
pub proof fn lemma_split_single(x: Seq<char>, sep: char)
    requires
        !x.contains(sep),
    ensures
        split(x, sep) == seq![x],
{
    lemma_split_extend(Seq::empty(), x, sep);
    assert(Seq::<char>::empty() + x =~= x);
    assert(seq![Seq::<char>::empty()].update(0, Seq::<char>::empty() + x) =~= seq![x]);
}

/// Splitting `a`, a separator, then `b` gives the pieces of `a`, then those of `b`.
pub proof fn lemma_split_join(a: Seq<char>, b: Seq<char>, sep: char)
    ensures
        split(a + seq![sep] + b, sep) == split(a, sep) + split(b, sep),
    decreases b.len(),
{
    lemma_split_len(a, sep);
    if b.len() == 0 {
        assert(a + seq![sep] + b =~= a.push(sep));
        assert(a.push(sep).drop_last() =~= a);
        assert(split(a, sep) + split(b, sep) =~= split(a, sep).push(Seq::<char>::empty()));
    } else {
        let b1 = b.drop_last();
        lemma_split_join(a, b1, sep);
        lemma_split_len(b1, sep);
        let s = a + seq![sep] + b;
        assert(s.drop_last() =~= a + seq![sep] + b1);
        assert(s.last() == b.last());
        let p = split(a, sep);
        let q = split(b1, sep);
        assert((p + q).last() == q.last());
        if b.last() == sep {
            assert(split(s, sep) =~= (p + q).push(Seq::<char>::empty()));
            assert(split(b, sep) =~= q.push(Seq::<char>::empty()));
        } else {
            assert(split(s, sep) =~= (p + q).update((p + q).len() - 1, q.last().push(b.last())));
            assert(split(b, sep) =~= q.update(q.len() - 1, q.last().push(b.last())));
        }
        assert(split(s, sep) =~= p + split(b, sep));
    }
}

/// `splitn` into one piece keeps the whole text.
pub proof fn lemma_splitn_one(s: Seq<char>, sep: char)
    ensures
        splitn(s, 1, sep) == seq![s],
    decreases s.len(),
{
    if s.len() > 0 {
        lemma_splitn_one(s.drop_last(), sep);
        assert(s.drop_last().push(s.last()) =~= s);
        assert(seq![s.drop_last()].update(0, s.drop_last().push(s.last())) =~= seq![s]);
    } else {
        assert(s =~= Seq::<char>::empty());
    }
}

/// A run without `sep` is a single piece for `splitn` too.
pub proof fn lemma_splitn_single(x: Seq<char>, n: nat, sep: char)
    requires
        n >= 1,
        !x.contains(sep),
    ensures
        splitn(x, n, sep) == seq![x],
    decreases x.len(),
{
    if x.len() > 0 {
        let x1 = x.drop_last();
        assert(!x1.contains(sep)) by {
            if x1.contains(sep) {
                let i = choose|i: int| 0 <= i < x1.len() && x1[i] == sep;
                assert(x[i] == sep);
            }
        }
        assert(x[x.len() - 1] != sep);
        lemma_splitn_single(x1, n, sep);
        assert(x1.push(x.last()) =~= x);
        assert(x.drop_last() == x1);
        assert(seq![x1].update(0, x1.push(x.last())) =~= seq![x]);
    } else {
        assert(x =~= Seq::<char>::empty());
    }
}

/// `splitn` of a run without `sep`, a separator, then `b`: that run, then
/// the pieces of `b` with one piece fewer to spend.
pub proof fn lemma_splitn_join(a: Seq<char>, b: Seq<char>, n: nat, sep: char)
    requires
        n >= 2,
        !a.contains(sep),
    ensures
        splitn(a + seq![sep] + b, n, sep) == seq![a] + splitn(b, (n - 1) as nat, sep),
    decreases b.len(),
{
    lemma_splitn_single(a, n, sep);
    if b.len() == 0 {
        assert(a + seq![sep] + b =~= a.push(sep));
        assert(a.push(sep).drop_last() =~= a);
        assert(splitn(a + seq![sep] + b, n, sep) =~= seq![a, Seq::<char>::empty()]);
        assert(seq![a] + splitn(b, (n - 1) as nat, sep) =~= seq![a, Seq::<char>::empty()]);
    } else {
        let b1 = b.drop_last();
        lemma_splitn_join(a, b1, n, sep);
        lemma_splitn_len(b1, (n - 1) as nat, sep);
        let s = a + seq![sep] + b;
        assert(s.drop_last() =~= a + seq![sep] + b1);
        assert(s.last() == b.last());
        let q = splitn(b1, (n - 1) as nat, sep);
        let p = seq![a] + q;
        assert(p.last() == q.last());
        if b.last() == sep && p.len() < n {
            assert(splitn(s, n, sep) =~= p.push(Seq::<char>::empty()));
            assert(splitn(b, (n - 1) as nat, sep) =~= q.push(Seq::<char>::empty()));
        } else {
            assert(splitn(s, n, sep) =~= p.update(p.len() - 1, q.last().push(b.last())));
            assert(splitn(b, (n - 1) as nat, sep) =~= q.update(q.len() - 1, q.last().push(b.last())));
        }
        assert(splitn(s, n, sep) =~= seq![a] + splitn(b, (n - 1) as nat, sep));
    }
}

/// A text that starts and ends with non-whitespace, after at most a
/// newline, trims to itself.
pub proof fn lemma_trim_after_newline(lead: Seq<char>, r: Seq<char>)
    requires
        lead == Seq::<char>::empty() || lead == seq!['\n'],
        r.len() > 0,
        !is_whitespace(r[0]),
        !is_whitespace(r.last()),
    ensures
        trim(lead + r) == r,
{
    if lead.len() == 1 {
        assert((lead + r)[0] == '\n');
        assert((lead + r).drop_first() =~= r);
    } else {
        assert(lead + r =~= r);
    }
    assert(trim_start(r) == r);
    assert(trim_end(r) == r);
}

/// The lines of a text that ends with a newline, then one more line.
pub proof fn lemma_lines_push(t: Seq<char>, l: Seq<char>)
    requires
        t.len() == 0 || t.last() == '\n',
        !l.contains('\n'),
    ensures
        lines(t + l + seq!['\n']) == lines(t).push(strip_cr(l)),
{
    lemma_split_len(t, '\n');
    let s = t + l + seq!['\n'];
    let p = split(t, '\n');
    if t.len() > 0 {
        assert(t =~= t.drop_last() + seq!['\n'] + Seq::<char>::empty());
        lemma_split_join(t.drop_last(), Seq::<char>::empty(), '\n');
        assert(split(Seq::<char>::empty(), '\n') =~= seq![Seq::<char>::empty()]);
    }
    assert(p.last() =~= Seq::<char>::empty());
    lemma_split_extend(t, l, '\n');
    assert(s =~= (t + l) + seq!['\n'] + Seq::<char>::empty());
    lemma_split_join(t + l, Seq::<char>::empty(), '\n');
    assert(split(Seq::<char>::empty(), '\n') =~= seq![Seq::<char>::empty()]);
    let q = split(t + l, '\n');
    assert(q =~= p.update(p.len() - 1, l));
    assert(split(s, '\n') =~= q.push(Seq::<char>::empty()));
    assert(s.len() > 0 && s.last() == '\n');
    assert(split(s, '\n').drop_last() =~= q);
    assert(q =~= p.drop_last().push(l));
    let f = |x: Seq<char>| strip_cr(x);
    assert(q.map_values(f) =~= p.drop_last().map_values(f).push(strip_cr(l)));
    if t.len() == 0 {
        assert(p.drop_last() =~= Seq::<Seq<char>>::empty());
        assert(lines(t) =~= Seq::<Seq<char>>::empty());
    } else {
        assert(lines(t) == p.drop_last().map_values(f));
    }
}

/// A character occurs in two texts put together exactly where it occurs
/// in one of them.
pub proof fn lemma_contains_concat(a: Seq<char>, b: Seq<char>, c: char)
    ensures
        (a + b).contains(c) <==> (a.contains(c) || b.contains(c)),
{
    if (a + b).contains(c) {
        let i = choose|i: int| 0 <= i < (a + b).len() && (a + b)[i] == c;
        if i < a.len() {
            assert(a[i] == c);
        } else {
            assert(b[i - a.len()] == c);
        }
    }
    if a.contains(c) {
        let i = choose|i: int| 0 <= i < a.len() && a[i] == c;
        assert((a + b)[i] == c);
    }
    if b.contains(c) {
        let i = choose|i: int| 0 <= i < b.len() && b[i] == c;
        assert((a + b)[i + a.len()] == c);
    }
}

/// `s` without leading and trailing whitespace, as a new string (`str::trim`).
pub fn trimmed(s: &str) -> (r: String)
    ensures
        r@ == trim(s@),
{
    let v = to_chars(s);
    let (a, b) = trim_bounds(&v, 0, v.len());
    assert(v@.subrange(0, v@.len() as int) =~= v@);
    string_of(&v, a, b)
}

/// The sum of `f` over the elements of `s`.
pub open spec fn total<A>(s: Seq<A>, f: spec_fn(A) -> nat) -> nat
    decreases s.len(),
{
    if s.len() == 0 {
        0
    } else {
        total(s.drop_last(), f) + f(s.last())
    }
}

/// Taking one element out of a sequence takes its value out of the sum.
pub proof fn lemma_total_remove<A>(s: Seq<A>, j: int, f: spec_fn(A) -> nat)
    requires
        0 <= j < s.len(),
    ensures
        total(s, f) == total(s.remove(j), f) + f(s[j]),
    decreases s.len(),
{
    if j == s.len() - 1 {
        assert(s.remove(j) =~= s.drop_last());
    } else {
        lemma_total_remove(s.drop_last(), j, f);
        assert(s.remove(j).drop_last() =~= s.drop_last().remove(j));
        assert(s.remove(j).last() == s.last());
    }
}

/// A sum does not depend on the order of the elements: sequences with the
/// same elements, as many times each, have the same sum.
pub proof fn lemma_total_permutation<A>(s: Seq<A>, t: Seq<A>, f: spec_fn(A) -> nat)
    requires
        s.to_multiset() == t.to_multiset(),
    ensures
        total(s, f) == total(t, f),
    decreases s.len(),
{
    vstd::seq_lib::to_multiset_len(s);
    vstd::seq_lib::to_multiset_len(t);
    if s.len() > 0 {
        let x = s.last();
        let n = s.len() - 1;
        vstd::seq_lib::to_multiset_contains(s, x);
        assert(s[n] == x);
        assert(s.contains(x));
        vstd::seq_lib::to_multiset_contains(t, x);
        let j = choose|j: int| 0 <= j < t.len() && t[j] == x;
        vstd::seq_lib::to_multiset_remove(s, n);
        vstd::seq_lib::to_multiset_remove(t, j);
        assert(s.remove(n) =~= s.drop_last());
        lemma_total_permutation(s.drop_last(), t.remove(j), f);
        lemma_total_remove(t, j, f);
    }
}

/// Sequences with the same elements, as many times each, contain the same
/// elements.
pub proof fn lemma_permutation_contains<A>(s: Seq<A>, t: Seq<A>, x: A)
    requires
        s.to_multiset() == t.to_multiset(),
    ensures
        s.contains(x) <==> t.contains(x),
{
    vstd::seq_lib::to_multiset_contains(s, x);
    vstd::seq_lib::to_multiset_contains(t, x);
}

/// Splitting two texts put together: the pieces of the first, its last
/// piece joined with the first piece of the second, then the rest of the
/// pieces of the second.
pub proof fn lemma_split_concat(a: Seq<char>, b: Seq<char>, sep: char)
    ensures
        split(a + b, sep) == split(a, sep).drop_last() + seq![split(a, sep).last() + split(b, sep)[0]]
            + split(b, sep).drop_first(),
    decreases b.len(),
{
    lemma_split_len(a, sep);
    lemma_split_len(b, sep);
    let p = split(a, sep);
    if b.len() == 0 {
        assert(a + b =~= a);
        assert(split(b, sep) =~= seq![Seq::<char>::empty()]);
        assert(p.last() + Seq::<char>::empty() =~= p.last());
        assert(p.drop_last() + seq![p.last()] =~= p);
        assert(split(b, sep).drop_first() =~= Seq::<Seq<char>>::empty());
        assert(p.drop_last() + seq![p.last() + split(b, sep)[0]] + split(b, sep).drop_first() =~= p);
    } else {
        let b1 = b.drop_last();
        let c = b.last();
        lemma_split_concat(a, b1, sep);
        lemma_split_len(b1, sep);
        let q = split(b1, sep);
        let x = split(a + b1, sep);
        assert((a + b).drop_last() =~= a + b1);
        assert((a + b).last() == c);
        assert(x == p.drop_last() + seq![p.last() + q[0]] + q.drop_first());
        if c == sep {
            assert(split(b, sep) == q.push(Seq::<char>::empty()));
            assert(q.push(Seq::<char>::empty())[0] == q[0]);
            assert(q.push(Seq::<char>::empty()).drop_first() =~= q.drop_first().push(Seq::<char>::empty()));
            assert(split(a + b, sep) =~= p.drop_last() + seq![p.last() + split(b, sep)[0]]
                + split(b, sep).drop_first());
        } else {
            let qq = q.update(q.len() - 1, q.last().push(c));
            assert(split(b, sep) == qq);
            if q.len() == 1 {
                assert(qq[0] == q[0].push(c));
                assert(qq.drop_first() =~= Seq::<Seq<char>>::empty());
                assert(q.drop_first() =~= Seq::<Seq<char>>::empty());
                assert(x.last() == p.last() + q[0]);
                assert((p.last() + q[0]).push(c) =~= p.last() + q[0].push(c));
                assert(split(a + b, sep) =~= p.drop_last() + seq![p.last() + qq[0]] + qq.drop_first());
            } else {
                assert(qq[0] == q[0]);
                assert(qq.drop_first() =~= q.drop_first().update(q.len() - 2, q.last().push(c)));
                assert(x.last() == q.last());
                assert(split(a + b, sep) =~= p.drop_last() + seq![p.last() + qq[0]] + qq.drop_first());
            }
        }
    }
}

/// `filter_map` of two sequences put together.
pub proof fn lemma_filter_map_concat<A, B>(s: Seq<A>, t: Seq<A>, f: spec_fn(A) -> Option<B>)
    ensures
        filter_map(s + t, f) == filter_map(s, f) + filter_map(t, f),
    decreases t.len(),
{
    if t.len() == 0 {
        assert(s + t =~= s);
        assert(filter_map(s, f) + filter_map(t, f) =~= filter_map(s, f));
    } else {
        lemma_filter_map_concat(s, t.drop_last(), f);
        assert((s + t).drop_last() =~= s + t.drop_last());
        assert((s + t).last() == t.last());
        match f(t.last()) {
            Some(b) => {
                assert(filter_map(s + t, f) =~= filter_map(s, f) + filter_map(t, f));
            },
            None => {},
        }
    }
}

/// `filter_map` of a sequence with one more element at its start.
pub proof fn lemma_filter_map_cons<A, B>(x: A, t: Seq<A>, f: spec_fn(A) -> Option<B>)
    ensures
        filter_map(seq![x] + t, f) == (match f(x) {
            Some(b) => seq![b] + filter_map(t, f),
            None => filter_map(t, f),
        }),
{
    lemma_filter_map_concat(seq![x], t, f);
    lemma_filter_map_push(Seq::<A>::empty(), x, f);
    assert(Seq::<A>::empty().push(x) =~= seq![x]);
    assert(filter_map(Seq::<A>::empty(), f) =~= Seq::<B>::empty());
    match f(x) {
        Some(b) => {
            assert(Seq::<B>::empty().push(b) =~= seq![b]);
        },
        None => {
            assert(Seq::<B>::empty() + filter_map(t, f) =~= filter_map(t, f));
        },
    }
}

/// A newline before a text does not change it trimmed.
pub proof fn lemma_trim_newline(x: Seq<char>)
    ensures
        trim(seq!['\n'] + x) == trim(x),
{
    assert((seq!['\n'] + x)[0] == '\n');
    assert((seq!['\n'] + x).drop_first() =~= x);
}

/// Joining puts the separator between every two adjacent parts: one more
/// part adds the separator and that part to the joined text of the others.
pub proof fn lemma_join_push(parts: Seq<Seq<char>>, x: Seq<char>, sep: Seq<char>)
    ensures
        join(parts.push(x), sep) == (if parts.len() == 0 { x } else { join(parts, sep) + sep + x }),
{
    assert(parts.push(x).drop_last() =~= parts);
    if parts.len() == 0 {
        assert(parts.push(x)[0] == x);
    }
}

/// A joined text of `n` parts holds `n - 1` separators: its length is
/// that of the parts put one after another and `n - 1` times the separator's.
pub proof fn lemma_join_len(parts: Seq<Seq<char>>, sep: Seq<char>)
    requires
        parts.len() > 0,
    ensures
        join(parts, sep).len() == concat(parts).len() + (parts.len() - 1) * sep.len(),
    decreases parts.len(),
{
    if parts.len() == 1 {
        assert(parts.drop_last() =~= Seq::<Seq<char>>::empty());
        assert(parts.last() == parts[0]);
        assert(concat(parts.drop_last()) =~= Seq::<char>::empty());
    } else {
        lemma_join_len(parts.drop_last(), sep);
        assert((parts.len() - 1) * sep.len() == (parts.len() - 2) * sep.len() + sep.len()) by (nonlinear_arith);
    }
}

/// Texts put one after another: one more part adds itself at the end.
pub proof fn lemma_concat_push(parts: Seq<Seq<char>>, x: Seq<char>)
    ensures
        concat(parts.push(x)) == concat(parts) + x,
{
    assert(parts.push(x).drop_last() =~= parts);
}

/// A sum over one more element adds that element's value.
pub proof fn lemma_total_push<A>(s: Seq<A>, x: A, f: spec_fn(A) -> nat)
    ensures
        total(s.push(x), f) == total(s, f) + f(x),
{
    assert(s.push(x).drop_last() =~= s);
}

} // verus!
