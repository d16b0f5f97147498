//! Joining words that speech recognition split apart ("произволь ных").
use vstd::prelude::*;

use crate::text::chars::{
    chars_eq, copy_chars, is_ws, join, join_words, lemma_words_join, lemma_words_proper, no_ws,
    proper_words, push_all, split_words, to_chars, to_string, views, words,
};
use crate::text::dictionary::Dictionary;
use crate::text::unicode::{lowercase, lowercase_chars};

verus! {

/// Endings that are glued to the preceding word.
pub open spec fn common_suffixes() -> Seq<Seq<char>> {
    seq![
        "ный"@, "ная"@, "ное"@, "ные"@, "ных"@, "ным"@, "тся"@, "ться"@, "сь"@, "кой"@,
        "кий"@, "кая"@, "кое"@, "кие"@, "ких"@, "ной"@, "ный"@, "ная"@,
    ]
}

fn suffix_list() -> (r: Vec<Vec<char>>)
    ensures
        views(r@) == common_suffixes(),
{
    let mut r: Vec<Vec<char>> = Vec::new();
    r.push(to_chars("ный"));
    r.push(to_chars("ная"));
    r.push(to_chars("ное"));
    r.push(to_chars("ные"));
    r.push(to_chars("ных"));
    r.push(to_chars("ным"));
    r.push(to_chars("тся"));
    r.push(to_chars("ться"));
    r.push(to_chars("сь"));
    r.push(to_chars("кой"));
    r.push(to_chars("кий"));
    r.push(to_chars("кая"));
    r.push(to_chars("кое"));
    r.push(to_chars("кие"));
    r.push(to_chars("ких"));
    r.push(to_chars("ной"));
    r.push(to_chars("ный"));
    r.push(to_chars("ная"));
    assert(views(r@) =~= common_suffixes());
    r
}

/// The dictionary knows `w` (after lower-casing).
pub open spec fn in_dict(d: Set<Seq<char>>, w: Seq<char>) -> bool {
    d.contains(lowercase(w))
}

/// The word that replaces the neighbours `w1 w2`, if they are to be joined.
/// When the glued form is a known word the pair is decided there: glued when
/// one of the two is unknown, kept apart when both are known. Otherwise the
/// pair is glued only when the second word is a common ending.
pub open spec fn merge_of(w1: Seq<char>, w2: Seq<char>, d: Set<Seq<char>>) -> Option<Seq<char>> {
    let merged = w1 + w2;
    if in_dict(d, lowercase(merged)) {
        if in_dict(d, w1) && in_dict(d, w2) {
            None
        } else {
            Some(merged)
        }
    } else if common_suffixes().contains(lowercase(w2)) {
        Some(merged)
    } else {
        None
    }
}

/// Words after joining, scanning pairs left to right.
pub open spec fn spaced(ws: Seq<Seq<char>>, d: Set<Seq<char>>) -> Seq<Seq<char>>
    decreases ws.len(),
{
    if ws.len() >= 2 && merge_of(ws[0], ws[1], d) is Some {
        seq![merge_of(ws[0], ws[1], d)->0] + spaced(ws.skip(2), d)
    } else if ws.len() >= 1 {
        seq![ws[0]] + spaced(ws.skip(1), d)
    } else {
        seq![]
    }
}

/// The text with split words joined, words separated by single spaces; a text
/// without words is kept as it is.
pub open spec fn spaces_fixed(text: Seq<char>, d: Set<Seq<char>>) -> Seq<char> {
    if words(text).len() == 0 {
        text
    } else {
        join(spaced(words(text), d), seq![' '])
    }
}

pub open spec fn opt_view(o: Option<Vec<char>>) -> Option<Seq<char>> {
    match o {
        Some(v) => Some(v@),
        None => None,
    }
}

/// Whether `w` is one of the words of `list`.
fn list_contains(list: &Vec<Vec<char>>, w: &[char]) -> (r: bool)
    ensures
        r == views(list@).contains(w@),
{
    let mut k: usize = 0;
    while k < list.len()
        invariant
            k <= list@.len(),
            forall|m: int| 0 <= m < k ==> views(list@)[m] != w@,
        decreases list@.len() - k,
    {
        proof {
            assert(views(list@)[k as int] == list@[k as int]@);
        }
        if chars_eq(list[k].as_slice(), w) {
            assert(views(list@)[k as int] == w@);
            return true;
        }
        k = k + 1;
    }
    false
}

fn merge_pair(w1: &[char], w2: &[char], dict: &Dictionary, suffixes: &Vec<Vec<char>>) -> (r: Option<Vec<char>>)
    requires
        views(suffixes@) == common_suffixes(),
    ensures
        opt_view(r) == merge_of(w1@, w2@, dict@),
{
    let mut merged = copy_chars(w1);
    push_all(&mut merged, w2);
    let merged_lower = lowercase_chars(merged.as_slice());
    if dict.contains_chars(merged_lower.as_slice()) {
        let w1_valid = dict.contains_chars(w1);
        let w2_valid = dict.contains_chars(w2);
        if w1_valid && w2_valid {
            return None;
        }
        return Some(merged);
    }
    let w2_lower = lowercase_chars(w2);
    if list_contains(suffixes, w2_lower.as_slice()) {
        return Some(merged);
    }
    None
}

/// Joins words that speech recognition split apart, using `dict`: two
/// neighbours are glued when the glued form is a known word and one of them is
/// not (two known words stay apart), or, when the glued form is unknown, when
/// the second one is a common ending. A common prefix, which the glued form
/// must also be known for, is covered by the first rule. Words in the result
/// are separated by single spaces.
pub fn fix_spaces(text: &str, dict: &Dictionary) -> (r: String)
    ensures
        r@ == spaces_fixed(text@, dict@),
{
    let s = to_chars(text);
    let ws = split_words(s.as_slice());
    if ws.len() == 0 {
        return to_string(s.as_slice());
    }
    let suffixes = suffix_list();
    let ghost all = views(ws@);
    let mut out: Vec<Vec<char>> = Vec::new();
    let mut i: usize = 0;
    proof {
        assert(all.skip(0) =~= all);
        assert(views(out@) + spaced(all.skip(0), dict@) =~= spaced(all, dict@));
    }
    while i < ws.len()
        invariant
            i <= ws@.len(),
            all == views(ws@),
            views(suffixes@) == common_suffixes(),
            views(out@) + spaced(all.skip(i as int), dict@) == spaced(all, dict@),
        decreases ws@.len() - i,
    {
        let ghost rest = all.skip(i as int);
        let ghost before = views(out@);
        proof {
            assert(rest[0] == ws@[i as int]@);
        }
        if i + 1 < ws.len() {
            proof {
                assert(rest[1] == ws@[i + 1]@);
            }
            let m = merge_pair(ws[i].as_slice(), ws[i + 1].as_slice(), dict, &suffixes);
            if let Some(word) = m {
                out.push(word);
                i = i + 2;
                proof {
                    assert(rest.skip(2) =~= all.skip(i as int));
                    assert(views(out@) =~= before.push(merge_of(rest[0], rest[1], dict@)->0));
                    assert(views(out@) + spaced(all.skip(i as int), dict@) =~= spaced(all, dict@));
                }
                continue;
            }
        }
        out.push(copy_chars(ws[i].as_slice()));
        i = i + 1;
        proof {
            assert(rest.skip(1) =~= all.skip(i as int));
            assert(views(out@) =~= before.push(rest[0]));
            assert(views(out@) + spaced(all.skip(i as int), dict@) =~= spaced(all, dict@));
        }
    }
    proof {
        assert(all.skip(i as int) =~= seq![]);
        assert(spaced(all.skip(i as int), dict@) =~= seq![]);
        assert(views(out@) =~= spaced(all, dict@));
    }
    let sep: Vec<char> = vec![' '];
    assert(sep@ =~= seq![' ']);
    let joined = join_words(&out, sep.as_slice());
    to_string(joined.as_slice())
}

/// Joining never adds words: the result has at most as many words as the
/// input, and at least half as many.
pub proof fn lemma_spaced_len(ws: Seq<Seq<char>>, d: Set<Seq<char>>)
    ensures
        spaced(ws, d).len() <= ws.len(),
        2 * spaced(ws, d).len() >= ws.len(),
    decreases ws.len(),
{
    if ws.len() >= 2 && merge_of(ws[0], ws[1], d) is Some {
        lemma_spaced_len(ws.skip(2), d);
    } else if ws.len() >= 1 {
        lemma_spaced_len(ws.skip(1), d);
    }
}

/// Two known words stay apart when their glued form is a known word too:
/// such a pair is never joined, wherever it stands.
pub proof fn lemma_known_words_kept_apart(
    w1: Seq<char>,
    w2: Seq<char>,
    rest: Seq<Seq<char>>,
    d: Set<Seq<char>>,
)
    requires
        in_dict(d, w1),
        in_dict(d, w2),
        in_dict(d, lowercase(w1 + w2)),
    ensures
        merge_of(w1, w2, d) is None,
        spaced(seq![w1, w2] + rest, d) == seq![w1] + spaced(seq![w2] + rest, d),
{
    let ws = seq![w1, w2] + rest;
    assert(ws[0] == w1 && ws[1] == w2);
    assert(ws.skip(1) =~= seq![w2] + rest);
}

/// Joining never adds words to a text: the fixed text has at most as many
/// words as the input, and at least half as many.
pub proof fn lemma_fix_spaces_word_count(text: Seq<char>, d: Set<Seq<char>>)
    ensures
        words(spaces_fixed(text, d)).len() <= words(text).len(),
        2 * words(spaces_fixed(text, d)).len() >= words(text).len(),
{
    if words(text).len() > 0 {
        lemma_words_proper(text);
        lemma_spaced_proper(words(text), d);
        lemma_words_join(spaced(words(text), d));
        lemma_spaced_len(words(text), d);
    }
}

/// Joined words are still non-empty and free of whitespace.
proof fn lemma_spaced_proper(ws: Seq<Seq<char>>, d: Set<Seq<char>>)
    requires
        proper_words(ws),
    ensures
        proper_words(spaced(ws, d)),
    decreases ws.len(),
{
    if ws.len() >= 2 && merge_of(ws[0], ws[1], d) is Some {
        let rest = ws.skip(2);
        assert forall|i: int| 0 <= i < rest.len() implies (#[trigger] rest[i]).len() > 0 && no_ws(rest[i]) by {
            assert(rest[i] == ws[i + 2]);
        }
        lemma_spaced_proper(rest, d);
        let m = ws[0] + ws[1];
        assert(ws[0].len() > 0 && no_ws(ws[0]) && ws[1].len() > 0 && no_ws(ws[1]));
        assert forall|k: int| 0 <= k < m.len() implies !is_ws(#[trigger] m[k]) by {
            if k < ws[0].len() {
                assert(m[k] == ws[0][k]);
            } else {
                assert(m[k] == ws[1][k - ws[0].len()]);
            }
        }
        let r = seq![m] + spaced(rest, d);
        assert forall|i: int| 0 <= i < r.len() implies (#[trigger] r[i]).len() > 0 && no_ws(r[i]) by {
            if i > 0 {
                assert(r[i] == spaced(rest, d)[i - 1]);
            }
        }
    } else if ws.len() >= 1 {
        let rest = ws.skip(1);
        assert forall|i: int| 0 <= i < rest.len() implies (#[trigger] rest[i]).len() > 0 && no_ws(rest[i]) by {
            assert(rest[i] == ws[i + 1]);
        }
        lemma_spaced_proper(rest, d);
        let r = seq![ws[0]] + spaced(rest, d);
        assert forall|i: int| 0 <= i < r.len() implies (#[trigger] r[i]).len() > 0 && no_ws(r[i]) by {
            if i > 0 {
                assert(r[i] == spaced(rest, d)[i - 1]);
            } else {
                assert(ws[0].len() > 0 && no_ws(ws[0]));
            }
        }
    }
}

/// When the glued form is not a known word, the pair is glued exactly when
/// the second word, lower-cased, is one of the endings ный, ная, ное, ные,
/// ных, ным, тся, ться, сь, кой, кий, кая, кое, кие, ких, ной; otherwise the
/// two words stay apart.
pub proof fn lemma_unknown_join_glues_only_endings(w1: Seq<char>, w2: Seq<char>, d: Set<Seq<char>>)
    requires
        !in_dict(d, lowercase(w1 + w2)),
    ensures
        ({
            lowercase(w2) == "ный"@ || lowercase(w2) == "ная"@ || lowercase(w2) == "ное"@ || lowercase(w2) == "ные"@ ||
            lowercase(w2) == "ных"@ || lowercase(w2) == "ным"@ || lowercase(w2) == "тся"@ || lowercase(w2) == "ться"@ ||
            lowercase(w2) == "сь"@ || lowercase(w2) == "кой"@ || lowercase(w2) == "кий"@ || lowercase(w2) == "кая"@ ||
            lowercase(w2) == "кое"@ || lowercase(w2) == "кие"@ || lowercase(w2) == "ких"@ || lowercase(w2) == "ной"@
        }) ==> merge_of(w1, w2, d) == Some(w1 + w2),
        !({
            lowercase(w2) == "ный"@ || lowercase(w2) == "ная"@ || lowercase(w2) == "ное"@ || lowercase(w2) == "ные"@ ||
            lowercase(w2) == "ных"@ || lowercase(w2) == "ным"@ || lowercase(w2) == "тся"@ || lowercase(w2) == "ться"@ ||
            lowercase(w2) == "сь"@ || lowercase(w2) == "кой"@ || lowercase(w2) == "кий"@ || lowercase(w2) == "кая"@ ||
            lowercase(w2) == "кое"@ || lowercase(w2) == "кие"@ || lowercase(w2) == "ких"@ || lowercase(w2) == "ной"@
        }) ==> merge_of(w1, w2, d) is None,
{
    let e = lowercase(w2);
    let l = common_suffixes();
    assert(l[0] == "ный"@);
    assert(l[1] == "ная"@);
    assert(l[2] == "ное"@);
    assert(l[3] == "ные"@);
    assert(l[4] == "ных"@);
    assert(l[5] == "ным"@);
    assert(l[6] == "тся"@);
    assert(l[7] == "ться"@);
    assert(l[8] == "сь"@);
    assert(l[9] == "кой"@);
    assert(l[10] == "кий"@);
    assert(l[11] == "кая"@);
    assert(l[12] == "кое"@);
    assert(l[13] == "кие"@);
    assert(l[14] == "ких"@);
    assert(l[15] == "ной"@);
    assert(l[16] == "ный"@);
    assert(l[17] == "ная"@);
    if l.contains(e) {
        let i = choose|i: int| 0 <= i < l.len() && l[i] == e;
        assert(0 <= i < 18);
    }
}

} // verus!
