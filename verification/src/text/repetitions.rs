//! Collapsing stuttered words such as "да-да-да" into "да".
use vstd::prelude::*;

use crate::text::chars::{
    copy_chars, chars_eq, drop_empty, is_ws, join, join_words, lemma_drop_empty_is_proper,
    lemma_drop_empty_proper, lemma_words_join, lemma_words_join_any, lemma_words_proper, no_ws,
    split_words, to_chars, to_string, views, words,
};

verus! {

/// The pieces of `w` between `-` characters (as `str::split('-')`): always at
/// least one piece, empty pieces included.
pub open spec fn dash_parts(w: Seq<char>) -> Seq<Seq<char>>
    decreases w.len(),
{
    if w.len() == 0 {
        seq![seq![]]
    } else {
        let p = dash_parts(w.drop_last());
        if w.last() == '-' {
            p.push(seq![])
        } else {
            p.drop_last().push(p.last().push(w.last()))
        }
    }
}

/// A word made of two or more equal dash-separated pieces stands for its first piece.
pub open spec fn is_stutter(w: Seq<char>) -> bool {
    let p = dash_parts(w);
    p.len() >= 2 && forall|i: int| 0 <= i < p.len() ==> #[trigger] p[i] == p[0]
}

/// One word after collapsing.
pub open spec fn collapse_word(w: Seq<char>) -> Seq<char> {
    if is_stutter(w) {
        dash_parts(w)[0]
    } else {
        w
    }
}

/// Every word collapsed.
pub open spec fn collapsed(ws: Seq<Seq<char>>) -> Seq<Seq<char>> {
    ws.map_values(|w: Seq<char>| collapse_word(w))
}

/// One pass: every word collapsed, words joined by single spaces.
pub open spec fn repetition_pass(s: Seq<char>) -> Seq<char> {
    join(collapsed(words(s)), seq![' '])
}

/// Whether a pass changes some word.
pub open spec fn pass_changes(s: Seq<char>) -> bool {
    collapsed(words(s)) != words(s)
}

/// Passes are repeated while one changes a word and the text still has words.
pub open spec fn repetitions_fixed(s: Seq<char>) -> Seq<char> {
    if words(s).len() == 0 {
        s
    } else if !pass_changes(s) {
        repetition_pass(s)
    } else if words(repetition_pass(s)).len() == 0 {
        repetition_pass(s)
    } else {
        repetition_pass(repetition_pass(s))
    }
}

pub open spec fn no_dash(w: Seq<char>) -> bool {
    forall|k: int| 0 <= k < w.len() ==> #[trigger] w[k] != '-'
}

/// Every piece is dash-free and its characters come from `w`.
proof fn lemma_dash_parts(w: Seq<char>)
    ensures
        dash_parts(w).len() >= 1,
        forall|i: int| 0 <= i < dash_parts(w).len() ==> no_dash(#[trigger] dash_parts(w)[i]),
        no_ws(w) ==> forall|i: int| 0 <= i < dash_parts(w).len() ==> no_ws(#[trigger] dash_parts(w)[i]),
        no_dash(w) ==> dash_parts(w) == seq![w],
    decreases w.len(),
{
    if w.len() == 0 {
        assert(w =~= seq![]);
    } else {
        let t = w.drop_last();
        lemma_dash_parts(t);
        let p = dash_parts(t);
        let c = w.last();
        if no_ws(w) {
            assert forall|k: int| 0 <= k < t.len() implies !is_ws(#[trigger] t[k]) by {
                assert(t[k] == w[k]);
            }
        }
        if no_dash(w) {
            assert forall|k: int| 0 <= k < t.len() implies #[trigger] t[k] != '-' by {
                assert(t[k] == w[k]);
            }
            assert(w[w.len() - 1] != '-');
            assert(t.push(c) =~= w);
            assert(p.drop_last().push(p.last().push(c)) =~= seq![w]);
        }
        if c == '-' {
            let n = p.push(seq![]);
            assert forall|i: int| 0 <= i < n.len() implies no_dash(#[trigger] n[i]) by {
                if i < p.len() {
                    assert(n[i] == p[i]);
                }
            }
            if no_ws(w) {
                assert forall|i: int| 0 <= i < n.len() implies no_ws(#[trigger] n[i]) by {
                    if i < p.len() {
                        assert(n[i] == p[i]);
                    }
                }
            }
        } else {
            let n = p.drop_last().push(p.last().push(c));
            assert(p[p.len() - 1] == p.last());
            assert forall|i: int| 0 <= i < n.len() implies no_dash(#[trigger] n[i]) by {
                if i < n.len() - 1 {
                    assert(n[i] == p[i]);
                } else {
                    assert forall|k: int| 0 <= k < n[i].len() implies #[trigger] n[i][k] != '-' by {
                        if k < n[i].len() - 1 {
                            assert(n[i][k] == p.last()[k]);
                        }
                    }
                }
            }
            if no_ws(w) {
                assert(!is_ws(w[w.len() - 1]));
                assert forall|i: int| 0 <= i < n.len() implies no_ws(#[trigger] n[i]) by {
                    if i < n.len() - 1 {
                        assert(n[i] == p[i]);
                    } else {
                        assert forall|k: int| 0 <= k < n[i].len() implies !is_ws(#[trigger] n[i][k]) by {
                            if k < n[i].len() - 1 {
                                assert(n[i][k] == p.last()[k]);
                            }
                        }
                    }
                }
            }
        }
    }
}

/// Collapsing keeps a word whitespace-free, and collapsing twice is collapsing once.
proof fn lemma_collapse(w: Seq<char>)
    ensures
        no_ws(w) ==> no_ws(collapse_word(w)),
        collapse_word(collapse_word(w)) == collapse_word(w),
        is_stutter(w) ==> collapse_word(w) != w,
        collapse_word(w).len() > 0 ==> collapse_word(w) == w || !is_stutter(collapse_word(w)),
{
    lemma_dash_parts(w);
    if is_stutter(w) {
        let p0 = dash_parts(w)[0];
        lemma_dash_parts(p0);
        assert(dash_parts(p0) == seq![p0]);
        if !no_dash(w) {
            let k = choose|k: int| 0 <= k < w.len() && w[k] == '-';
            assert(!no_dash(p0) || p0 != w) by {
                if p0 == w {
                    assert(p0[k] == '-');
                }
            }
        }
    }
}

/// After one pass, a second pass changes no word.
proof fn lemma_pass_settles(s: Seq<char>)
    ensures
        !pass_changes(repetition_pass(s)),
        words(repetition_pass(s)) == drop_empty(collapsed(words(s))),
{
    let ws = words(s);
    let cs = collapsed(ws);
    lemma_words_proper(s);
    assert forall|i: int| 0 <= i < cs.len() implies no_ws(#[trigger] cs[i]) by {
        assert(cs[i] == collapse_word(ws[i]));
        lemma_collapse(ws[i]);
    }
    lemma_words_join_any(cs);
    let ws2 = drop_empty(cs);
    lemma_drop_empty_collapsed(ws);
    assert(collapsed(ws2) =~= ws2);
}

/// Elements of the non-empty collapsed words are fixed points of collapsing.
proof fn lemma_drop_empty_collapsed(ws: Seq<Seq<char>>)
    ensures
        forall|i: int|
            0 <= i < drop_empty(collapsed(ws)).len() ==> collapse_word(
                #[trigger] drop_empty(collapsed(ws))[i],
            ) == drop_empty(collapsed(ws))[i],
    decreases ws.len(),
{
    if ws.len() > 0 {
        let d = ws.drop_last();
        lemma_drop_empty_collapsed(d);
        let cs = collapsed(ws);
        let cd = collapsed(d);
        assert(cs.drop_last() =~= cd);
        assert(cs.last() == collapse_word(ws.last()));
        lemma_collapse(ws.last());
        let dd = drop_empty(cd);
        let de = drop_empty(cs);
        assert forall|i: int| 0 <= i < de.len() implies collapse_word(#[trigger] de[i]) == de[i] by {
            if i < dd.len() {
                assert(de[i] == dd[i]);
            } else {
                assert(de[i] == cs.last());
            }
        }
    }
}

/// Whether `w` is a stutter: at least two pieces, all equal.
fn stutter_piece(w: &[char]) -> (r: Option<Vec<char>>)
    ensures
        r is Some <==> is_stutter(w@),
        r matches Some(p) ==> p@ == dash_parts(w@)[0],
{
    let parts = split_dash(w);
    if parts.len() < 2 {
        return None;
    }
    let mut i: usize = 1;
    while i < parts.len()
        invariant
            1 <= i <= parts@.len(),
            views(parts@) == dash_parts(w@),
            forall|k: int| 0 <= k < i ==> #[trigger] dash_parts(w@)[k] == dash_parts(w@)[0],
        decreases parts@.len() - i,
    {
        if !chars_eq(parts[i].as_slice(), parts[0].as_slice()) {
            proof {
                assert(views(parts@)[i as int] == parts@[i as int]@);
            }
            return None;
        }
        proof {
            assert(views(parts@)[i as int] == parts@[i as int]@);
            assert(views(parts@)[0] == parts@[0]@);
        }
        i = i + 1;
    }
    proof {
        assert(views(parts@)[0] == parts@[0]@);
    }
    Some(copy_chars(parts[0].as_slice()))
}

/// Splits `w` at every `-`.
fn split_dash(w: &[char]) -> (r: Vec<Vec<char>>)
    ensures
        views(r@) == dash_parts(w@),
{
    let mut done: Vec<Vec<char>> = Vec::new();
    let mut cur: Vec<char> = Vec::new();
    let mut i: usize = 0;
    proof {
        assert(w@.take(0) =~= seq![]);
        assert(views(done@).push(cur@) =~= seq![seq![]]);
    }
    while i < w.len()
        invariant
            i <= w@.len(),
            dash_parts(w@.take(i as int)) == views(done@).push(cur@),
        decreases w@.len() - i,
    {
        let c = w[i];
        proof {
            assert(w@.take(i + 1).drop_last() =~= w@.take(i as int));
            assert(w@.take(i + 1).last() == c);
        }
        let ghost before = views(done@).push(cur@);
        if c == '-' {
            let piece = cur;
            cur = Vec::new();
            done.push(piece);
            proof {
                assert(views(done@).push(cur@) =~= before.push(seq![]));
            }
        } else {
            let ghost old_cur = cur@;
            cur.push(c);
            proof {
                assert(before.drop_last() =~= views(done@));
                assert(views(done@).push(cur@) =~= before.drop_last().push(old_cur.push(c)));
            }
        }
        i = i + 1;
    }
    let ghost before = views(done@).push(cur@);
    done.push(cur);
    proof {
        assert(views(done@) =~= before);
        assert(w@.take(w@.len() as int) =~= w@);
    }
    done
}

/// One pass over the words: `(joined text, whether a word changed)`.
fn one_pass(s: &[char]) -> (r: (Vec<char>, bool))
    requires
        words(s@).len() > 0,
    ensures
        r.0@ == repetition_pass(s@),
        r.1 == pass_changes(s@),
{
    let ws = split_words(s);
    let ghost cs = collapsed(words(s@));
    let mut out: Vec<Vec<char>> = Vec::new();
    let mut changed = false;
    let mut i: usize = 0;
    proof {
        assert(cs.take(0) =~= words(s@).take(0));
        assert(views(out@) =~= cs.take(0));
    }
    while i < ws.len()
        invariant
            i <= ws@.len(),
            views(ws@) == words(s@),
            cs == collapsed(words(s@)),
            views(out@) == cs.take(i as int),
            changed <==> cs.take(i as int) != words(s@).take(i as int),
        decreases ws@.len() - i,
    {
        let ghost before = views(out@);
        proof {
            assert(views(ws@)[i as int] == ws@[i as int]@);
        }
        proof {
            lemma_collapse(words(s@)[i as int]);
        }
        let ghost old_changed = changed;
        match stutter_piece(ws[i].as_slice()) {
            Some(p) => {
                out.push(p);
                changed = true;
            },
            None => {
                out.push(copy_chars(ws[i].as_slice()));
            },
        }
        i = i + 1;
        proof {
            assert(views(out@) =~= before.push(cs[i - 1]));
            let a = cs.take(i as int);
            let b = words(s@).take(i as int);
            assert(a.drop_last() =~= cs.take(i - 1));
            assert(b.drop_last() =~= words(s@).take(i - 1));
            assert(a.last() == cs[i - 1]);
            assert(b.last() == words(s@)[i - 1]);
            if a == b {
                assert(a.drop_last() == b.drop_last());
            }
            if a != b && cs.take(i - 1) == words(s@).take(i - 1) {
                assert(cs[i - 1] != words(s@)[i - 1]) by {
                    if cs[i - 1] == words(s@)[i - 1] {
                        assert(a =~= b);
                    }
                }
            }
        }
    }
    proof {
        assert(cs.take(i as int) =~= cs);
        assert(words(s@).take(i as int) =~= words(s@));
    }
    let sep: Vec<char> = vec![' '];
    assert(sep@ =~= seq![' ']);
    assert(views(out@) == cs);
    let joined = join_words(&out, sep.as_slice());
    (joined, changed)
}

/// Collapses stuttered words ("да-да-да" becomes "да", "ну-ну" becomes "ну")
/// and joins the words of the text with single spaces; a text without words
/// is returned as it is.
pub fn fix_repetitions(text: &str) -> (r: String)
    ensures
        r@ == repetitions_fixed(text@),
{
    let s = to_chars(text);
    if split_words(s.as_slice()).len() == 0 {
        return to_string(s.as_slice());
    }
    let (first, changed) = one_pass(s.as_slice());
    if !changed {
        return to_string(first.as_slice());
    }
    if split_words(first.as_slice()).len() == 0 {
        return to_string(first.as_slice());
    }
    let (second, changed_again) = one_pass(first.as_slice());
    proof {
        lemma_pass_settles(s@);
    }
    assert(!changed_again);
    to_string(second.as_slice())
}

/// Repeating the fix changes nothing more.
pub proof fn lemma_fix_repetitions_idempotent(s: Seq<char>)
    ensures
        repetitions_fixed(repetitions_fixed(s)) == repetitions_fixed(s),
{
    let ws = words(s);
    if ws.len() == 0 {
    } else if !pass_changes(s) {
        lemma_pass_stable(s);
    } else {
        let p1 = repetition_pass(s);
        if words(p1).len() > 0 {
            lemma_pass_settles(s);
            lemma_pass_stable(p1);
        }
    }
}

/// A text on which a pass changes no word is reproduced by further passes.
proof fn lemma_pass_stable(t: Seq<char>)
    requires
        !pass_changes(t),
    ensures
        words(repetition_pass(t)) == words(t),
        !pass_changes(repetition_pass(t)),
        repetition_pass(repetition_pass(t)) == repetition_pass(t),
        repetitions_fixed(repetition_pass(t)) == repetition_pass(t) || words(t).len() == 0,
{
    lemma_words_proper(t);
    let ws = words(t);
    assert(collapsed(ws) == ws);
    lemma_words_join(ws);
    assert(words(repetition_pass(t)) == ws);
}

/// No stuttered word is left after the fix: no word of the result is made of
/// two or more equal dash-separated pieces. A text without words is returned
/// as it is.
pub proof fn lemma_fix_repetitions_leaves_no_stutter(s: Seq<char>)
    ensures
        forall|i: int|
            0 <= i < words(repetitions_fixed(s)).len() ==> !is_stutter(
                #[trigger] words(repetitions_fixed(s))[i],
            ),
        words(s).len() == 0 ==> repetitions_fixed(s) == s,
{
    if words(s).len() == 0 {
    } else if !pass_changes(s) {
        lemma_pass_stable(s);
        lemma_stable_words_no_stutter(s);
    } else {
        let p1 = repetition_pass(s);
        if words(p1).len() > 0 {
            lemma_pass_settles(s);
            lemma_pass_stable(p1);
            lemma_stable_words_no_stutter(p1);
        }
    }
}

/// When a pass changes no word, no word is a stutter.
proof fn lemma_stable_words_no_stutter(t: Seq<char>)
    requires
        !pass_changes(t),
    ensures
        forall|i: int| 0 <= i < words(t).len() ==> !is_stutter(#[trigger] words(t)[i]),
{
    let ws = words(t);
    assert forall|i: int| 0 <= i < ws.len() implies !is_stutter(#[trigger] ws[i]) by {
        assert(collapsed(ws)[i] == collapse_word(ws[i]));
        lemma_collapse(ws[i]);
    }
}

} // verus!
