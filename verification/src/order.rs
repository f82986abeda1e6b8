//! The order of texts by their characters' code points, which is the
//! order of `String`'s `Ord` (UTF-8 keeps code point order), and sorted
//! sets of texts.

use vstd::prelude::*;
use crate::text::{string_views, to_chars, views};

verus! {

/// `a` comes before `b`: at the first position where they differ `a` has
/// the smaller code point, or `a` is a proper prefix of `b`.
pub open spec fn lex_lt(a: Seq<char>, b: Seq<char>) -> bool
    decreases a.len(),
{
    if a.len() == 0 {
        b.len() > 0
    } else if b.len() == 0 {
        false
    } else if a[0] != b[0] {
        (a[0] as u32) < (b[0] as u32)
    } else {
        lex_lt(a.drop_first(), b.drop_first())
    }
}

/// Each text comes strictly before the next: sorted, no text twice.
pub open spec fn strictly_sorted(s: Seq<Seq<char>>) -> bool {
    forall|i: int, j: int| 0 <= i < j < s.len() ==> lex_lt(#[trigger] s[i], #[trigger] s[j])
}

/// No text comes before itself.
pub proof fn lemma_lex_irreflexive(a: Seq<char>)
    ensures
        !lex_lt(a, a),
    decreases a.len(),
{
    if a.len() > 0 {
        lemma_lex_irreflexive(a.drop_first());
    }
}

/// Of two different texts, exactly one comes before the other.
pub proof fn lemma_lex_total(a: Seq<char>, b: Seq<char>)
    ensures
        a != b ==> (lex_lt(a, b) || lex_lt(b, a)),
        !(lex_lt(a, b) && lex_lt(b, a)),
    decreases a.len(),
{
    if a.len() > 0 && b.len() > 0 && a[0] == b[0] {
        lemma_lex_total(a.drop_first(), b.drop_first());
        if a.drop_first() == b.drop_first() {
            assert(a =~= seq![a[0]] + a.drop_first());
            assert(b =~= seq![b[0]] + b.drop_first());
        }
    } else if a.len() == 0 && b.len() == 0 {
        assert(a =~= b);
    } else if a.len() > 0 && b.len() > 0 {
        vstd::utf8::char_u32_cast(a[0], a[0] as u32);
        vstd::utf8::char_u32_cast(b[0], b[0] as u32);
    }
}

/// Coming before is transitive.
pub proof fn lemma_lex_transitive(a: Seq<char>, b: Seq<char>, c: Seq<char>)
    requires
        lex_lt(a, b),
        lex_lt(b, c),
    ensures
        lex_lt(a, c),
    decreases a.len(),
{
    if a.len() > 0 && b.len() > 0 && c.len() > 0 && a[0] == b[0] && b[0] == c[0] {
        lemma_lex_transitive(a.drop_first(), b.drop_first(), c.drop_first());
    }
}

/// Whether `a` comes before `b` (see [`lex_lt`]).
pub fn lex_less(a: &Vec<char>, b: &Vec<char>) -> (r: bool)
    ensures
        r == lex_lt(a@, b@),
{
    let mut i: usize = 0;
    assert(a@.skip(0) =~= a@);
    assert(b@.skip(0) =~= b@);
    while i < a.len() && i < b.len() && a[i] == b[i]
        invariant
            i <= a.len(),
            i <= b.len(),
            lex_lt(a@, b@) == lex_lt(a@.skip(i as int), b@.skip(i as int)),
        decreases a.len() - i,
    {
        assert(a@.skip(i as int).drop_first() =~= a@.skip(i + 1));
        assert(b@.skip(i as int).drop_first() =~= b@.skip(i + 1));
        i = i + 1;
    }
    if i == a.len() {
        i < b.len()
    } else if i == b.len() {
        false
    } else {
        assert(a@.skip(i as int)[0] == a@[i as int]);
        assert(b@.skip(i as int)[0] == b@[i as int]);
        (a[i] as u32) < (b[i] as u32)
    }
}

/// The texts of `names`, sorted, each once: a strictly sorted sequence
/// holding exactly the texts that `names` holds.
pub fn sorted_distinct(names: &Vec<String>) -> (r: Vec<String>)
    ensures
        strictly_sorted(string_views(r@)),
        forall|x: Seq<char>| string_views(r@).contains(x) <==> string_views(names@).contains(x),
{
    let ghost nv = string_views(names@);
    let mut out: Vec<String> = Vec::new();
    let mut keys: Vec<Vec<char>> = Vec::new();
    let mut k: usize = 0;
    while k < names.len()
        invariant
            k <= names.len(),
            nv == string_views(names@),
            views(keys@) == string_views(out@),
            strictly_sorted(string_views(out@)),
            forall|x: Seq<char>| string_views(out@).contains(x) <==> nv.take(k as int).contains(x),
        decreases names.len() - k,
    {
        let a = to_chars(names[k].as_str());
        let ghost ov = string_views(out@);
        assert(nv.take(k + 1) =~= nv.take(k as int).push(a@));
        let mut j: usize = 0;
        while j < keys.len() && lex_less(&keys[j], &a)
            invariant
                j <= keys.len(),
                views(keys@) == ov,
                forall|i: int| 0 <= i < j ==> lex_lt(#[trigger] ov[i], a@),
            decreases keys.len() - j,
        {
            assert(ov[j as int] == keys@[j as int]@);
            j = j + 1;
        }
        if j < keys.len() && !lex_less(&a, &keys[j]) {
            proof {
                assert(ov[j as int] == keys@[j as int]@);
                assert(!lex_lt(ov[j as int], a@));
                lemma_lex_total(ov[j as int], a@);
                assert(ov[j as int] == a@);
                assert forall|x: Seq<char>| ov.contains(x) <==> nv.take(k + 1).contains(x) by {
                    if x == a@ {
                        assert(ov[j as int] == x);
                    }
                    if nv.take(k + 1).contains(x) {
                        let post = nv.take(k + 1);
                        let t = choose|t: int| 0 <= t < post.len() && post[t] == x;
                        if t < k {
                            assert(nv.take(k as int)[t] == x);
                        }
                    }
                    if nv.take(k as int).contains(x) {
                        let pre = nv.take(k as int);
                        let t = choose|t: int| 0 <= t < pre.len() && pre[t] == x;
                        assert(nv.take(k + 1)[t] == x);
                    }
                }
            }
        } else {
            proof {
                if j < keys.len() {
                    assert(ov[j as int] == keys@[j as int]@);
                    lemma_lex_total(ov[j as int], a@);
                    lemma_lex_irreflexive(a@);
                    assert(lex_lt(a@, ov[j as int]));
                }
            }
            let s = crate::text::copy_string(&names[k]);
            out.insert(j, s);
            keys.insert(j, a);
            proof {
                let nov = string_views(out@);
                assert(nov =~= ov.insert(j as int, a@));
                assert(views(keys@) =~= nov);
                assert forall|p: int, q: int| 0 <= p < q < nov.len() implies lex_lt(
                    #[trigger] nov[p],
                    #[trigger] nov[q],
                ) by {
                    if q < j {
                        assert(nov[p] == ov[p] && nov[q] == ov[q]);
                    } else if q == j {
                        assert(nov[p] == ov[p]);
                    } else if p == j {
                        assert(nov[q] == ov[q - 1]);
                        if q - 1 > j {
                            assert(lex_lt(ov[j as int], ov[q - 1]));
                            lemma_lex_transitive(a@, ov[j as int], ov[q - 1]);
                        }
                    } else if p < j {
                        assert(nov[p] == ov[p] && nov[q] == ov[q - 1]);
                        if q - 1 >= j {
                            assert(lex_lt(ov[p], a@));
                            if q - 1 == j {
                                lemma_lex_transitive(ov[p], a@, ov[q - 1]);
                            } else {
                                assert(lex_lt(ov[j as int], ov[q - 1]));
                                lemma_lex_transitive(a@, ov[j as int], ov[q - 1]);
                                lemma_lex_transitive(ov[p], a@, ov[q - 1]);
                            }
                        }
                    } else {
                        assert(nov[p] == ov[p - 1] && nov[q] == ov[q - 1]);
                    }
                }
                assert forall|x: Seq<char>| nov.contains(x) <==> nv.take(k + 1).contains(x) by {
                    if nov.contains(x) {
                        let t = choose|t: int| 0 <= t < nov.len() && nov[t] == x;
                        if t < j {
                            assert(ov[t] == x);
                        } else if t > j {
                            assert(ov[t - 1] == x);
                        }
                        if x != a@ {
                            assert(ov.contains(x));
                            let pre = nv.take(k as int);
                            let u = choose|u: int| 0 <= u < pre.len() && pre[u] == x;
                            assert(nv.take(k + 1)[u] == x);
                        } else {
                            assert(nv.take(k + 1)[k as int] == x);
                        }
                    }
                    if nv.take(k + 1).contains(x) {
                        let post = nv.take(k + 1);
                        let t = choose|t: int| 0 <= t < post.len() && post[t] == x;
                        if t < k {
                            assert(nv.take(k as int)[t] == x);
                            assert(ov.contains(x));
                            let u = choose|u: int| 0 <= u < ov.len() && ov[u] == x;
                            if u < j {
                                assert(nov[u] == x);
                            } else {
                                assert(nov[u + 1] == x);
                            }
                        } else {
                            assert(nov[j as int] == x);
                        }
                    }
                }
            }
        }
        k = k + 1;
    }
    assert(nv.take(names.len() as int) =~= nv);
    out
}

/// A strictly sorted sequence is fixed by the texts it holds: two strictly
/// sorted sequences holding the same texts are equal.
pub proof fn lemma_strictly_sorted_unique(a: Seq<Seq<char>>, b: Seq<Seq<char>>)
    requires
        strictly_sorted(a),
        strictly_sorted(b),
        forall|x: Seq<char>| a.contains(x) <==> b.contains(x),
    ensures
        a == b,
    decreases a.len(),
{
    if a.len() == 0 {
        if b.len() > 0 {
            assert(b.contains(b[0]));
            assert(a.contains(b[0]));
            assert(false);
        }
        assert(a =~= b);
    } else {
        assert(a.contains(a[0]));
        assert(b.len() > 0);
        assert(b.contains(b[0]));
        let i = choose|i: int| 0 <= i < a.len() && a[i] == b[0];
        let j = choose|j: int| 0 <= j < b.len() && b[j] == a[0];
        if j > 0 {
            assert(lex_lt(b[0], b[j]));
            if i > 0 {
                assert(lex_lt(a[0], a[i]));
                lemma_lex_transitive(a[0], b[0], a[0]);
            }
            lemma_lex_irreflexive(a[0]);
        }
        assert(a[0] == b[0]);
        let a1 = a.drop_first();
        let b1 = b.drop_first();
        assert forall|x: Seq<char>| a1.contains(x) <==> b1.contains(x) by {
            if a1.contains(x) {
                let p = choose|p: int| 0 <= p < a1.len() && a1[p] == x;
                assert(a[p + 1] == x);
                assert(lex_lt(a[0], x));
                lemma_lex_irreflexive(x);
                assert(b.contains(x));
                let q = choose|q: int| 0 <= q < b.len() && b[q] == x;
                assert(q != 0);
                assert(b1[q - 1] == x);
            }
            if b1.contains(x) {
                let p = choose|p: int| 0 <= p < b1.len() && b1[p] == x;
                assert(b[p + 1] == x);
                assert(lex_lt(b[0], x));
                lemma_lex_irreflexive(x);
                assert(a.contains(x));
                let q = choose|q: int| 0 <= q < a.len() && a[q] == x;
                assert(q != 0);
                assert(a1[q - 1] == x);
            }
        }
        assert forall|p: int, q: int| 0 <= p < q < a1.len() implies lex_lt(#[trigger] a1[p], #[trigger] a1[q]) by {
            assert(a1[p] == a[p + 1] && a1[q] == a[q + 1]);
        }
        assert forall|p: int, q: int| 0 <= p < q < b1.len() implies lex_lt(#[trigger] b1[p], #[trigger] b1[q]) by {
            assert(b1[p] == b[p + 1] && b1[q] == b[q + 1]);
        }
        lemma_strictly_sorted_unique(a1, b1);
        assert forall|k: int| 0 <= k < a.len() implies a[k] == b[k] by {
            if k > 0 {
                assert(a[k] == a1[k - 1]);
                assert(b[k] == b1[k - 1]);
            }
        }
        assert(a =~= b);
    }
}

} // verus!
