//! The lexicographic order of texts by code point, and the stable sort of
//! texts by their lower-cased form.
use vstd::prelude::*;

use crate::text::chars::views;
use crate::text::unicode::{lowercase, lowercase_chars};

verus! {

/// `a` comes before `b` or equals it, comparing code points left to right; a
/// proper prefix comes first.
pub open spec fn lex_le(a: Seq<char>, b: Seq<char>) -> bool
    decreases a.len(),
{
    if a.len() == 0 {
        true
    } else if b.len() == 0 {
        false
    } else if a[0] != b[0] {
        (a[0] as u32) < (b[0] as u32)
    } else {
        lex_le(a.drop_first(), b.drop_first())
    }
}

/// Any two texts are ordered one way or the other.
pub proof fn lemma_lex_total(a: Seq<char>, b: Seq<char>)
    ensures
        lex_le(a, b) || lex_le(b, a),
    decreases a.len(),
{
    if a.len() > 0 && b.len() > 0 {
        if a[0] == b[0] {
            lemma_lex_total(a.drop_first(), b.drop_first());
        } else {
            vstd::utf8::char_u32_cast(a[0], a[0] as u32);
            vstd::utf8::char_u32_cast(b[0], b[0] as u32);
        }
    }
}

/// Every text is ordered with itself.
pub proof fn lemma_lex_refl(a: Seq<char>)
    ensures
        lex_le(a, a),
    decreases a.len(),
{
    if a.len() > 0 {
        lemma_lex_refl(a.drop_first());
    }
}

/// The order is transitive.
pub proof fn lemma_lex_trans(a: Seq<char>, b: Seq<char>, c: Seq<char>)
    requires
        lex_le(a, b),
        lex_le(b, c),
    ensures
        lex_le(a, c),
    decreases a.len(),
{
    if a.len() > 0 && b.len() > 0 && c.len() > 0 && a[0] == b[0] && b[0] == c[0] {
        lemma_lex_trans(a.drop_first(), b.drop_first(), c.drop_first());
    }
}

/// Texts ordered both ways are equal.
pub proof fn lemma_lex_antisym(a: Seq<char>, b: Seq<char>)
    requires
        lex_le(a, b),
        lex_le(b, a),
    ensures
        a == b,
    decreases a.len(),
{
    if a.len() > 0 && b.len() > 0 {
        lemma_lex_antisym(a.drop_first(), b.drop_first());
        assert(a =~= seq![a[0]] + a.drop_first());
        assert(b =~= seq![b[0]] + b.drop_first());
    } else {
        assert(a =~= b);
    }
}

/// Whether `a` comes before `b` or equals it.
pub fn lex_le_chars(a: &[char], b: &[char]) -> (r: bool)
    ensures
        r == lex_le(a@, b@),
{
    let mut i: usize = 0;
    proof {
        assert(a@.skip(0) =~= a@);
        assert(b@.skip(0) =~= b@);
    }
    while i < a.len() && i < b.len() && a[i] == b[i]
        invariant
            i <= a@.len(),
            i <= b@.len(),
            lex_le(a@, b@) == lex_le(a@.skip(i as int), b@.skip(i as int)),
        decreases a@.len() - i,
    {
        proof {
            assert(a@.skip(i as int)[0] == a@[i as int]);
            assert(b@.skip(i as int)[0] == b@[i as int]);
            assert(a@.skip(i as int).drop_first() =~= a@.skip(i + 1));
            assert(b@.skip(i as int).drop_first() =~= b@.skip(i + 1));
        }
        i = i + 1;
    }
    if i == a.len() {
        true
    } else if i == b.len() {
        false
    } else {
        proof {
            assert(a@.skip(i as int)[0] == a@[i as int]);
            assert(b@.skip(i as int)[0] == b@[i as int]);
        }
        (a[i] as u32) < (b[i] as u32)
    }
}

/// Texts in non-decreasing order of their lower-cased forms.
pub open spec fn sorted_by_lowercase(s: Seq<Seq<char>>) -> bool {
    forall|i: int, j: int| 0 <= i < j < s.len() ==> lex_le(lowercase(#[trigger] s[i]), lowercase(#[trigger] s[j]))
}

/// The texts of `s` whose lower-cased form is `k`, in order.
pub open spec fn with_key(s: Seq<Seq<char>>, k: Seq<char>) -> Seq<Seq<char>> {
    s.filter(|x: Seq<char>| lowercase(x) == k)
}

/// `out` is `inp` sorted by lower-cased form, texts with the same
/// lower-cased form keeping their order (a stable sort).
pub open spec fn is_lowercase_sort(out: Seq<Seq<char>>, inp: Seq<Seq<char>>) -> bool {
    &&& sorted_by_lowercase(out)
    &&& forall|k: Seq<char>| #[trigger] with_key(out, k) == with_key(inp, k)
}

proof fn lemma_with_key_push(s: Seq<Seq<char>>, x: Seq<char>, k: Seq<char>)
    ensures
        with_key(s.push(x), k) == (if lowercase(x) == k {
            with_key(s, k).push(x)
        } else {
            with_key(s, k)
        }),
{
    reveal(Seq::filter);
    assert(s.push(x).drop_last() =~= s);
}

proof fn lemma_with_key_insert(s: Seq<Seq<char>>, p: int, x: Seq<char>, k: Seq<char>)
    requires
        0 <= p <= s.len(),
        forall|j: int| p <= j < s.len() ==> lowercase(#[trigger] s[j]) != lowercase(x),
    ensures
        with_key(s.insert(p, x), k) == (if lowercase(x) == k {
            with_key(s, k).push(x)
        } else {
            with_key(s, k)
        }),
{
    let f = |y: Seq<char>| lowercase(y) == k;
    let a = s.take(p);
    let b = s.skip(p);
    assert(s =~= a + b);
    assert(s.insert(p, x) =~= a.push(x) + b);
    Seq::filter_distributes_over_add(a, b, f);
    Seq::filter_distributes_over_add(a.push(x), b, f);
    lemma_with_key_push(a, x, k);
    if lowercase(x) == k {
        assert forall|j: int| 0 <= j < b.len() implies !f(#[trigger] b[j]) by {
            assert(b[j] == s[p + j]);
        }
        assert(b.all(|y: Seq<char>| !f(y)));
        b.lemma_all_neg_filter_empty(f);
        assert(b.filter(f) =~= Seq::<Seq<char>>::empty());
        assert(with_key(s.insert(p, x), k) =~= with_key(a, k).push(x));
        assert(with_key(s, k) =~= with_key(a, k));
    }
}

/// The texts of (key, text) pairs.
pub open spec fn items_of(v: Seq<(Vec<char>, Vec<char>)>) -> Seq<Seq<char>> {
    v.map_values(|e: (Vec<char>, Vec<char>)| e.1@)
}

/// `items` sorted by lower-cased form, stably.
pub fn sort_by_lowercase(items: &Vec<Vec<char>>) -> (r: Vec<Vec<char>>)
    ensures
        is_lowercase_sort(views(r@), views(items@)),
{
    let ghost inp = views(items@);
    let mut out: Vec<(Vec<char>, Vec<char>)> = Vec::new();
    let mut i: usize = 0;
    while i < items.len()
        invariant
            i <= items@.len(),
            inp == views(items@),
            forall|a: int| 0 <= a < out@.len() ==> (#[trigger] out@[a]).0@ == lowercase(out@[a].1@),
            sorted_by_lowercase(items_of(out@)),
            forall|k: Seq<char>| #[trigger] with_key(items_of(out@), k) == with_key(
                inp.take(i as int),
                k,
            ),
        decreases items@.len() - i,
    {
        let ghost o = items_of(out@);
        let item = crate::text::chars::copy_chars(items[i].as_slice());
        let key = lowercase_chars(item.as_slice());
        let mut p: usize = 0;
        while p < out.len() && lex_le_chars(out[p].0.as_slice(), key.as_slice())
            invariant
                p <= out@.len(),
                o == items_of(out@),
                forall|a: int| 0 <= a < out@.len() ==> (#[trigger] out@[a]).0@ == lowercase(out@[a].1@),
                forall|a: int| 0 <= a < p ==> lex_le(lowercase(#[trigger] o[a]), key@),
            decreases out@.len() - p,
        {
            proof {
                assert(o[p as int] == out@[p as int].1@);
            }
            p = p + 1;
        }
        proof {
            if p < out@.len() {
                assert(o[p as int] == out@[p as int].1@);
                assert(!lex_le(lowercase(o[p as int]), key@));
            }
        }
        let ghost x = item@;
        out.insert(p, (key, item));
        proof {
            let no = items_of(out@);
            assert(no =~= o.insert(p as int, x));
            assert(inp.take(i + 1) =~= inp.take(i as int).push(x)) by {
                assert(inp[i as int] == items@[i as int]@);
            }
            // Everything from `p` on has a key above the new one.
            assert forall|j: int| p <= j < o.len() implies lowercase(#[trigger] o[j]) != lowercase(x) by {
                if j == p {
                    lemma_lex_refl(lowercase(o[j]));
                }
                assert(lex_le(lowercase(o[p as int]), lowercase(o[j])));
                if lowercase(o[j]) == lowercase(x) {
                    assert(lex_le(lowercase(o[p as int]), lowercase(x)));
                }
            }
            assert forall|k: Seq<char>| #[trigger] with_key(no, k) == with_key(inp.take(i + 1), k) by {
                lemma_with_key_insert(o, p as int, x, k);
                lemma_with_key_push(inp.take(i as int), x, k);
            }
            assert forall|a: int, b: int| 0 <= a < b < no.len() implies lex_le(
                lowercase(#[trigger] no[a]),
                lowercase(#[trigger] no[b]),
            ) by {
                if b < p {
                    assert(no[a] == o[a] && no[b] == o[b]);
                } else if b == p {
                    assert(no[a] == o[a]);
                } else if a < p {
                    assert(no[a] == o[a] && no[b] == o[b - 1]);
                    assert(lex_le(lowercase(o[a]), lowercase(x)));
                    assert(lex_le(lowercase(o[p as int]), lowercase(o[b - 1]))) by {
                        if p == b - 1 {
                            lemma_lex_refl(lowercase(o[p as int]));
                        }
                    }
                    lemma_lex_total(lowercase(o[p as int]), lowercase(x));
                    lemma_lex_trans(lowercase(o[a]), lowercase(x), lowercase(o[p as int]));
                    lemma_lex_trans(lowercase(o[a]), lowercase(o[p as int]), lowercase(o[b - 1]));
                } else if a == p {
                    assert(no[b] == o[b - 1]);
                    lemma_lex_total(lowercase(o[p as int]), lowercase(x));
                    if p < b - 1 {
                        lemma_lex_trans(lowercase(x), lowercase(o[p as int]), lowercase(o[b - 1]));
                    }
                } else {
                    assert(no[a] == o[a - 1] && no[b] == o[b - 1]);
                }
            }
            assert forall|a: int| 0 <= a < out@.len() implies (#[trigger] out@[a]).0@ == lowercase(out@[a].1@) by {
                if a < p {
                } else if a > p {
                }
            }
        }
        i = i + 1;
    }
    let mut r: Vec<Vec<char>> = Vec::new();
    let mut k: usize = 0;
    while k < out.len()
        invariant
            k <= out@.len(),
            views(r@) == items_of(out@).take(k as int),
        decreases out@.len() - k,
    {
        let c = crate::text::chars::copy_chars(out[k].1.as_slice());
        let ghost before = r@;
        r.push(c);
        proof {
            assert(items_of(out@)[k as int] == out@[k as int].1@);
            assert(views(r@) =~= views(before).push(c@));
            assert(items_of(out@).take(k + 1) =~= items_of(out@).take(k as int).push(c@));
        }
        k = k + 1;
        proof {
            assert(views(r@) =~= items_of(out@).take(k as int));
        }
    }
    proof {
        assert(items_of(out@).take(k as int) =~= items_of(out@));
        assert(inp.take(items@.len() as int) =~= inp);
    }
    r
}

} // verus!
