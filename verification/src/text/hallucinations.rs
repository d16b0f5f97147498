//! Removing what speech recognition invents on silence: bracketed noise
//! markers, initials with surnames, and configured phrases at the end.
use vstd::prelude::*;

use crate::text::chars::{replace_all, replace_chars, to_chars, to_string, trim, trim_chars, views};
use crate::text::pattern::{regex_replace_all, replace_in_chars};
use crate::text::rules::{
    initials_full_source, initials_short_source, pattern_views, spaces_source, TextRules,
};

verus! {

/// Markers that are removed wherever they occur.
pub open spec fn builtin_mid_tokens() -> Seq<Seq<char>> {
    seq!["[BLANK_AUDIO]"@, "[ Silence ]"@, "[MUSIC]"@, "[NOISE]"@, "[_BLANK_]"@]
}

/// `s` with every occurrence of each token, in order, removed.
pub open spec fn remove_tokens(s: Seq<char>, tokens: Seq<Seq<char>>) -> Seq<char>
    decreases tokens.len(),
{
    if tokens.len() == 0 {
        s
    } else {
        replace_all(remove_tokens(s, tokens.drop_last()), tokens.last(), seq![])
    }
}

/// `s` after applying each end-of-text regex, in order, with an empty replacement.
pub open spec fn strip_ends(s: Seq<char>, sources: Seq<Seq<char>>) -> Seq<char>
    decreases sources.len(),
{
    if sources.len() == 0 {
        s
    } else {
        regex_replace_all(sources.last(), strip_ends(s, sources.drop_last()), seq![])
    }
}

/// The text after removing hallucinations with the configured phrases
/// (`ends`: end-of-text regex sources, `mids`: bracketed tokens).
pub open spec fn hallucinations_removed(
    text: Seq<char>,
    ends: Seq<Seq<char>>,
    mids: Seq<Seq<char>>,
) -> Seq<char> {
    let a = remove_tokens(remove_tokens(text, builtin_mid_tokens()), mids);
    let b = regex_replace_all(initials_full_source(), a, seq![]);
    let c = regex_replace_all(initials_short_source(), b, seq![]);
    let d = strip_ends(c, ends);
    regex_replace_all(spaces_source(), trim(d), seq![' '])
}

/// The phrases of a new phrase file.
pub open spec fn default_phrase_list() -> Seq<Seq<char>> {
    seq![
        "субтитры создавал DimaTorzok"@,
        "субтитры создавал"@,
        "продолжение следует..."@,
        "Подписывайтесь на наш канал..."@,
        "[BLANK_AUDIO]"@,
        "[ Silence ]"@,
        "[MUSIC]"@,
        "[NOISE]"@,
        "[_BLANK_]"@,
        "Thank you."@,
        "Thanks for watching!"@,
        "Subscribe!"@,
        "Please subscribe"@,
        "www."@,
        "http://"@,
        "https://"@,
    ]
}

/// The phrases written to a new phrase file.
pub fn default_phrases() -> (r: Vec<&'static str>)
    ensures
        r@.map_values(|s: &str| s@) == default_phrase_list(),
{
    let mut r: Vec<&'static str> = Vec::new();
    r.push("субтитры создавал DimaTorzok");
    r.push("субтитры создавал");
    r.push("продолжение следует...");
    r.push("Подписывайтесь на наш канал...");
    r.push("[BLANK_AUDIO]");
    r.push("[ Silence ]");
    r.push("[MUSIC]");
    r.push("[NOISE]");
    r.push("[_BLANK_]");
    r.push("Thank you.");
    r.push("Thanks for watching!");
    r.push("Subscribe!");
    r.push("Please subscribe");
    r.push("www.");
    r.push("http://");
    r.push("https://");
    assert(r@.map_values(|s: &str| s@) =~= default_phrase_list());
    r
}

fn mid_text_tokens() -> (r: Vec<Vec<char>>)
    ensures
        views(r@) == builtin_mid_tokens(),
        forall|i: int| 0 <= i < r@.len() ==> (#[trigger] r@[i])@.len() > 0,
{
    proof {
        reveal_strlit("[BLANK_AUDIO]");
        reveal_strlit("[ Silence ]");
        reveal_strlit("[MUSIC]");
        reveal_strlit("[NOISE]");
        reveal_strlit("[_BLANK_]");
    }
    let mut r: Vec<Vec<char>> = Vec::new();
    r.push(to_chars("[BLANK_AUDIO]"));
    r.push(to_chars("[ Silence ]"));
    r.push(to_chars("[MUSIC]"));
    r.push(to_chars("[NOISE]"));
    r.push(to_chars("[_BLANK_]"));
    assert(views(r@) =~= builtin_mid_tokens());
    assert forall|i: int| 0 <= i < r@.len() implies (#[trigger] r@[i])@.len() > 0 by {
        assert(views(r@)[i] == r@[i]@);
    }
    r
}

fn remove_token_list(s: Vec<char>, tokens: &Vec<Vec<char>>) -> (r: Vec<char>)
    requires
        forall|i: int| 0 <= i < tokens@.len() ==> (#[trigger] tokens@[i])@.len() > 0,
    ensures
        r@ == remove_tokens(s@, views(tokens@)),
{
    let mut cur = s;
    let mut i: usize = 0;
    while i < tokens.len()
        invariant
            i <= tokens@.len(),
            forall|k: int| 0 <= k < tokens@.len() ==> (#[trigger] tokens@[k])@.len() > 0,
            cur@ == remove_tokens(s@, views(tokens@).take(i as int)),
        decreases tokens@.len() - i,
    {
        let empty: Vec<char> = Vec::new();
        proof {
            assert(views(tokens@).take(i + 1).drop_last() =~= views(tokens@).take(i as int));
            assert(views(tokens@).take(i + 1).last() == tokens@[i as int]@);
            assert(tokens@[i as int]@.len() > 0);
            assert(empty@ =~= seq![]);
        }
        cur = replace_chars(cur.as_slice(), tokens[i].as_slice(), empty.as_slice());
        i = i + 1;
    }
    proof {
        assert(views(tokens@).take(i as int) =~= views(tokens@));
    }
    cur
}

/// Removes hallucinations: the noise markers ("[BLANK_AUDIO]", "[MUSIC]", ...)
/// and the configured bracketed tokens anywhere, "Name X. Surname" and
/// "X. Surname" credits, the configured phrases at the end of the text; then
/// trims and collapses whitespace runs to single spaces.
pub fn remove_hallucinations(text: &str, rules: &TextRules) -> (r: String)
    requires
        rules.wf(),
    ensures
        r@ == hallucinations_removed(text@, rules.end_view(), rules.mid_view()),
{
    let builtin = mid_text_tokens();
    let a0 = remove_token_list(to_chars(text), &builtin);
    let a = remove_token_list(a0, rules.mid_tokens());
    let b = replace_in_chars(rules.initials_full(), a.as_slice(), "");
    let c = replace_in_chars(rules.initials_short(), b.as_slice(), "");
    let ends = rules.end_patterns();
    let mut d = c;
    let mut i: usize = 0;
    proof {
        assert(pattern_views(ends@).take(0) =~= seq![]);
        assert(""@ =~= seq![]) by {
            reveal_strlit("");
        }
    }
    while i < ends.len()
        invariant
            i <= ends@.len(),
            ""@ == Seq::<char>::empty(),
            d@ == strip_ends(c@, pattern_views(ends@).take(i as int)),
        decreases ends@.len() - i,
    {
        proof {
            assert(pattern_views(ends@).take(i + 1).drop_last() =~= pattern_views(ends@).take(i as int));
            assert(pattern_views(ends@).take(i + 1).last() == ends@[i as int]@);
        }
        d = replace_in_chars(&ends[i], d.as_slice(), "");
        i = i + 1;
    }
    proof {
        assert(pattern_views(ends@).take(i as int) =~= rules.end_view());
    }
    let t = trim_chars(d.as_slice());
    let out = replace_in_chars(rules.spaces(), t.as_slice(), " ");
    proof {
        reveal_strlit(" ");
        assert(" "@ =~= seq![' ']);
    }
    to_string(out.as_slice())
}

/// No `[` in `s`.
pub open spec fn bracket_free(s: Seq<char>) -> bool {
    forall|k: int| 0 <= k < s.len() ==> #[trigger] s[k] != '['
}

/// The noise markers "[BLANK_AUDIO]", "[ Silence ]", "[MUSIC]", "[NOISE]"
/// and "[_BLANK_]" are removed wherever they stand: a text with one of them
/// between bracket-free parts is cleaned as the parts joined without it.
pub proof fn lemma_noise_marker_removed(
    a: Seq<char>,
    m: Seq<char>,
    b: Seq<char>,
    ends: Seq<Seq<char>>,
    mids: Seq<Seq<char>>,
)
    requires
        bracket_free(a),
        bracket_free(b),
        m == "[BLANK_AUDIO]"@ || m == "[ Silence ]"@ || m == "[MUSIC]"@ || m == "[NOISE]"@ || m
            == "[_BLANK_]"@,
    ensures
        hallucinations_removed(a + m + b, ends, mids) == hallucinations_removed(a + b, ends, mids),
{
    reveal_strlit("[BLANK_AUDIO]");
    reveal_strlit("[ Silence ]");
    reveal_strlit("[MUSIC]");
    reveal_strlit("[NOISE]");
    reveal_strlit("[_BLANK_]");
    let toks = builtin_mid_tokens();
    let ab = a + b;
    assert(bracket_free(ab)) by {
        assert forall|k: int| 0 <= k < ab.len() implies #[trigger] ab[k] != '[' by {
            if k < a.len() {
                assert(ab[k] == a[k]);
            } else {
                assert(ab[k] == b[k - a.len()]);
            }
        }
    }
    assert forall|i: int| 0 <= i < toks.len() implies (#[trigger] toks[i]).len() >= 2 && toks[i][0] == '['
        && bracket_free(toks[i].skip(1)) by {
        let t = toks[i];
        assert forall|k: int| 0 <= k < t.skip(1).len() implies #[trigger] t.skip(1)[k] != '[' by {
            assert(t.skip(1)[k] == t[k + 1]);
        }
    }
    assert(bracket_free(m.skip(1))) by {
        assert forall|k: int| 0 <= k < m.skip(1).len() implies #[trigger] m.skip(1)[k] != '[' by {
            assert(m.skip(1)[k] == m[k + 1]);
        }
    }
    lemma_remove_tokens_marker(a, m, b, toks, toks.len() as int);
    lemma_remove_tokens_free(ab, toks, toks.len() as int);
    assert(toks.take(toks.len() as int) =~= toks);
}

/// Removing tokens that start with `[` leaves a bracket-free text as it is.
proof fn lemma_remove_tokens_free(s: Seq<char>, toks: Seq<Seq<char>>, n: int)
    requires
        bracket_free(s),
        0 <= n <= toks.len(),
        forall|i: int| 0 <= i < toks.len() ==> (#[trigger] toks[i]).len() >= 2 && toks[i][0] == '[',
    ensures
        remove_tokens(s, toks.take(n)) == s,
    decreases n,
{
    if n > 0 {
        let t = toks.take(n);
        assert(t.drop_last() =~= toks.take(n - 1));
        lemma_remove_tokens_free(s, toks, n - 1);
        lemma_replace_free(s, toks[n - 1]);
    }
}

/// The first `n` noise markers, applied to `a + m + b`: the marker goes when
/// its turn comes, nothing else is touched.
proof fn lemma_remove_tokens_marker(a: Seq<char>, m: Seq<char>, b: Seq<char>, toks: Seq<Seq<char>>, n: int)
    requires
        bracket_free(a),
        bracket_free(b),
        bracket_free(m.skip(1)),
        toks.contains(m),
        m.len() >= 2,
        m[0] == '[',
        0 <= n <= toks.len(),
        forall|i: int| 0 <= i < toks.len() ==> (#[trigger] toks[i]).len() >= 2 && toks[i][0] == '[',
        forall|i: int, j: int| 0 <= i < j < toks.len() ==> (#[trigger] toks[i])[1] != (#[trigger] toks[j])[1],
    ensures
        remove_tokens(a + m + b, toks.take(n)) == (if toks.take(n).contains(m) {
            a + b
        } else {
            a + m + b
        }),
    decreases n,
{
    if n > 0 {
        let t = toks.take(n);
        assert(t.drop_last() =~= toks.take(n - 1));
        assert(t.last() == toks[n - 1]);
        lemma_remove_tokens_marker(a, m, b, toks, n - 1);
        let prev = toks.take(n - 1);
        let ab = a + b;
        assert(bracket_free(ab)) by {
            assert forall|k: int| 0 <= k < ab.len() implies #[trigger] ab[k] != '[' by {
                if k < a.len() {
                    assert(ab[k] == a[k]);
                } else {
                    assert(ab[k] == b[k - a.len()]);
                }
            }
        }
        let i = choose|i: int| 0 <= i < toks.len() && toks[i] == m;
        if prev.contains(m) {
            lemma_replace_free(ab, toks[n - 1]);
            let k = choose|k: int| 0 <= k < prev.len() && prev[k] == m;
            assert(t[k] == m);
        } else if toks[n - 1] == m {
            lemma_replace_marker(a, m, b);
            assert(t[n - 1] == m);
        } else {
            assert(i != n - 1);
            if i < n - 1 {
                assert(prev[i] == m);
            }
            assert(toks[i][1] != toks[n - 1][1]);
            lemma_replace_other(a, m, b, toks[n - 1]);
            assert(!t.contains(m)) by {
                if t.contains(m) {
                    let k = choose|k: int| 0 <= k < t.len() && t[k] == m;
                    if k < n - 1 {
                        assert(prev[k] == m);
                    }
                }
            }
        }
    }
}

/// A token starting with `[` does not occur in a bracket-free text.
proof fn lemma_replace_free(s: Seq<char>, p: Seq<char>)
    requires
        bracket_free(s),
        p.len() >= 1,
        p[0] == '[',
    ensures
        replace_all(s, p, seq![]) == s,
    decreases s.len(),
{
    if s.len() >= p.len() {
        assert(s.take(p.len() as int)[0] == s[0]);
        let r = s.skip(1);
        assert forall|k: int| 0 <= k < r.len() implies #[trigger] r[k] != '[' by {
            assert(r[k] == s[k + 1]);
        }
        lemma_replace_free(r, p);
        assert(seq![s[0]] + r =~= s);
    }
}

/// The marker between bracket-free parts is the one occurrence, and it goes.
proof fn lemma_replace_marker(a: Seq<char>, m: Seq<char>, b: Seq<char>)
    requires
        bracket_free(a),
        bracket_free(b),
        m.len() >= 1,
        m[0] == '[',
    ensures
        replace_all(a + m + b, m, seq![]) == a + b,
    decreases a.len(),
{
    let s = a + m + b;
    if a.len() == 0 {
        assert(s =~= m + b);
        assert(s.take(m.len() as int) =~= m);
        assert(s.skip(m.len() as int) =~= b);
        lemma_replace_free(b, m);
        assert(seq![] + b =~= a + b);
    } else {
        assert(s[0] == a[0]);
        assert(s.take(m.len() as int)[0] == a[0]);
        let r = a.skip(1);
        assert forall|k: int| 0 <= k < r.len() implies #[trigger] r[k] != '[' by {
            assert(r[k] == a[k + 1]);
        }
        lemma_replace_marker(r, m, b);
        assert(s.skip(1) =~= r + m + b);
        assert(seq![a[0]] + (r + b) =~= a + b);
    }
}

/// Another marker, differing from `m` in its second character, leaves
/// `a + m + b` as it is.
proof fn lemma_replace_other(a: Seq<char>, m: Seq<char>, b: Seq<char>, p: Seq<char>)
    requires
        bracket_free(a),
        bracket_free(b),
        bracket_free(m.skip(1)),
        m.len() >= 2,
        m[0] == '[',
        p.len() >= 2,
        p[0] == '[',
        m[1] != p[1],
    ensures
        replace_all(a + m + b, p, seq![]) == a + m + b,
    decreases a.len(),
{
    let s = a + m + b;
    if a.len() == 0 {
        assert(s =~= m + b);
        if s.len() >= p.len() {
            assert(s.take(p.len() as int)[1] == m[1]);
            let r = s.skip(1);
            assert(r =~= m.skip(1) + b);
            assert forall|k: int| 0 <= k < r.len() implies #[trigger] r[k] != '[' by {
                if k < m.skip(1).len() {
                    assert(r[k] == m.skip(1)[k]);
                } else {
                    assert(r[k] == b[k - m.skip(1).len()]);
                }
            }
            lemma_replace_free(r, p);
            assert(seq![s[0]] + r =~= s);
        }
    } else {
        if s.len() >= p.len() {
            assert(s.take(p.len() as int)[0] == a[0]);
            let r = a.skip(1);
            assert forall|k: int| 0 <= k < r.len() implies #[trigger] r[k] != '[' by {
                assert(r[k] == a[k + 1]);
            }
            lemma_replace_other(r, m, b, p);
            assert(s.skip(1) =~= r + m + b);
            assert(seq![a[0]] + (r + m + b) =~= s);
        }
    }
}

} // verus!
