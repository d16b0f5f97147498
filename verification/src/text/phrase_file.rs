//! The user's hallucination phrase file: one phrase per line, `#` lines are
//! headers. Reading it installs the phrases; adding a phrase rewrites it with
//! the headers first and the phrases sorted by their lower-cased form.
use vstd::prelude::*;

use crate::text::chars::{
    chars_eq, lemma_trim_idempotent, lemma_trim_keeps_absent, push_all, to_chars, to_string, trim, trim_chars,
    views,
};
use crate::text::hallucinations::{default_phrase_list, default_phrases};
use crate::text::lexical::{is_lowercase_sort, sort_by_lowercase, with_key};
use crate::text::unicode::lowercase;
use crate::text::rules::{bracketed, end_sources, string_views, TextRules};

verus! {

/// The lines of a text: the pieces between line feeds (a text ending in a
/// line feed ends with an empty piece).
pub open spec fn split_lines(s: Seq<char>) -> Seq<Seq<char>>
    decreases s.len(),
{
    if s.len() == 0 {
        seq![seq![]]
    } else {
        let ls = split_lines(s.drop_last());
        if s.last() == '\n' {
            ls.push(seq![])
        } else {
            ls.update(ls.len() - 1, ls.last().push(s.last()))
        }
    }
}

/// The trimmed lines of a text.
pub open spec fn trimmed_lines(s: Seq<char>) -> Seq<Seq<char>> {
    split_lines(s).map_values(|l: Seq<char>| trim(l))
}

/// A trimmed line that holds a phrase: not empty, not a `#` header.
pub open spec fn is_phrase(t: Seq<char>) -> bool {
    t.len() > 0 && t[0] != '#'
}

/// A trimmed line that is a header.
pub open spec fn is_header(t: Seq<char>) -> bool {
    t.len() > 0 && t[0] == '#'
}

/// The phrases of a phrase file, trimmed, in file order.
pub open spec fn phrases_of(content: Seq<char>) -> Seq<Seq<char>> {
    trimmed_lines(content).filter(|t: Seq<char>| is_phrase(t))
}

/// The header lines of a phrase file, trimmed, in file order.
pub open spec fn headers_of(content: Seq<char>) -> Seq<Seq<char>> {
    trimmed_lines(content).filter(|t: Seq<char>| is_header(t))
}

/// The headers of a new phrase file.
pub open spec fn default_headers() -> Seq<Seq<char>> {
    seq!["# Фразы, удаляемые из конца распознанного текста (каждая на новой строке)"@, "# Регистр не важен"@]
}

/// Lines written one after the other, each followed by a line feed.
pub open spec fn rendered(lines: Seq<Seq<char>>) -> Seq<char>
    decreases lines.len(),
{
    if lines.len() == 0 {
        seq![]
    } else {
        rendered(lines.drop_last()) + lines.last().push('\n')
    }
}

/// `ps` followed by each text of `ds` that is not yet among them, in order.
pub open spec fn with_missing(ps: Seq<Seq<char>>, ds: Seq<Seq<char>>) -> Seq<Seq<char>>
    decreases ds.len(),
{
    if ds.len() == 0 {
        ps
    } else {
        let q = with_missing(ps, ds.drop_last());
        if q.contains(ds.last()) {
            q
        } else {
            q.push(ds.last())
        }
    }
}

/// The headers and phrases written when `p` is added to the file `content`:
/// a file without headers gets the default headers and the default phrases
/// it lacks; `p` is added unless present; blank phrases are dropped.
pub open spec fn lines_after_adding(content: Seq<char>, p: Seq<char>) -> (Seq<Seq<char>>, Seq<Seq<char>>) {
    let hs = headers_of(content);
    let ps = phrases_of(content);
    let hs2 = if hs.len() == 0 {
        default_headers()
    } else {
        hs
    };
    let ps2 = if hs.len() == 0 {
        with_missing(ps, default_phrase_list())
    } else {
        ps
    };
    let ps3 = if ps2.contains(p) {
        ps2
    } else {
        ps2.push(p)
    };
    (hs2, ps3.filter(|q: Seq<char>| trim(q).len() > 0))
}

proof fn lemma_split_lines_nonempty(s: Seq<char>)
    ensures
        split_lines(s).len() >= 1,
    decreases s.len(),
{
    if s.len() > 0 {
        lemma_split_lines_nonempty(s.drop_last());
    }
}

/// The lines of `s`.
pub(crate) fn lines_of(s: &[char]) -> (r: Vec<Vec<char>>)
    ensures
        views(r@) == split_lines(s@),
{
    let mut lines: Vec<Vec<char>> = Vec::new();
    let mut cur: Vec<char> = Vec::new();
    let mut i: usize = 0;
    proof {
        assert(views(lines@).push(cur@) =~= split_lines(s@.take(0)));
    }
    while i < s.len()
        invariant
            i <= s@.len(),
            views(lines@).push(cur@) == split_lines(s@.take(i as int)),
        decreases s@.len() - i,
    {
        proof {
            assert(s@.take(i + 1).drop_last() =~= s@.take(i as int));
            assert(s@.take(i + 1).last() == s@[i as int]);
            lemma_split_lines_nonempty(s@.take(i as int));
        }
        let ghost before = views(lines@).push(cur@);
        if s[i] == '\n' {
            let done = cur;
            lines.push(done);
            cur = Vec::new();
            proof {
                assert(views(lines@).push(cur@) =~= before.push(seq![]));
            }
        } else {
            cur.push(s[i]);
            proof {
                assert(views(lines@).push(cur@) =~= before.update(before.len() - 1, before.last().push(s@[i as int])));
            }
        }
        i = i + 1;
    }
    lines.push(cur);
    proof {
        assert(s@.take(i as int) =~= s@);
    }
    lines
}

/// The headers and the phrases of a phrase file.
pub fn parse_phrase_file(content: &str) -> (r: (Vec<String>, Vec<String>))
    ensures
        string_views(r.0@) == headers_of(content@),
        string_views(r.1@) == phrases_of(content@),
{
    let lines = lines_of(to_chars(content).as_slice());
    let ghost tl = trimmed_lines(content@);
    let mut headers: Vec<String> = Vec::new();
    let mut phrases: Vec<String> = Vec::new();
    let mut i: usize = 0;
    while i < lines.len()
        invariant
            i <= lines@.len(),
            views(lines@) == split_lines(content@),
            tl == trimmed_lines(content@),
            string_views(headers@) == tl.take(i as int).filter(|t: Seq<char>| is_header(t)),
            string_views(phrases@) == tl.take(i as int).filter(|t: Seq<char>| is_phrase(t)),
        decreases lines@.len() - i,
    {
        let t = trim_chars(lines[i].as_slice());
        proof {
            assert(tl[i as int] == t@) by {
                assert(views(lines@)[i as int] == lines@[i as int]@);
            }
            assert(tl.take(i + 1).drop_last() =~= tl.take(i as int));
            assert(tl.take(i + 1).last() == t@);
            reveal(Seq::filter);
        }
        let ghost hb = string_views(headers@);
        let ghost pb = string_views(phrases@);
        if t.len() > 0 && t[0] == '#' {
            headers.push(to_string(t.as_slice()));
            proof {
                assert(string_views(headers@) =~= hb.push(t@));
            }
        } else if t.len() > 0 {
            phrases.push(to_string(t.as_slice()));
            proof {
                assert(string_views(phrases@) =~= pb.push(t@));
            }
        }
        i = i + 1;
    }
    proof {
        assert(tl.take(i as int) =~= tl);
    }
    (headers, phrases)
}

/// Installs the phrases of the phrase file `content`. A file with no phrase
/// changes nothing and gives `false`.
pub fn load_custom_phrases(rules: &mut TextRules, content: &str) -> (r: bool)
    requires
        old(rules).wf(),
    ensures
        final(rules).wf(),
        r == (phrases_of(content@).len() > 0),
        r ==> final(rules).end_view() == end_sources(phrases_of(content@)) && final(rules).mid_view()
            == bracketed(phrases_of(content@)),
        !r ==> final(rules).end_view() == old(rules).end_view() && final(rules).mid_view() == old(
            rules,
        ).mid_view(),
{
    let (_headers, phrases) = parse_phrase_file(content);
    if phrases.len() == 0 {
        return false;
    }
    rules.set_custom_phrases(&phrases);
    true
}

fn write_lines(out: &mut Vec<char>, lines: &Vec<Vec<char>>)
    ensures
        final(out)@ == old(out)@ + rendered(views(lines@)),
{
    let ghost start = out@;
    let mut i: usize = 0;
    while i < lines.len()
        invariant
            i <= lines@.len(),
            out@ == start + rendered(views(lines@).take(i as int)),
        decreases lines@.len() - i,
    {
        proof {
            assert(views(lines@).take(i + 1).drop_last() =~= views(lines@).take(i as int));
            assert(views(lines@).take(i + 1).last() == lines@[i as int]@);
        }
        push_all(out, lines[i].as_slice());
        out.push('\n');
        i = i + 1;
        proof {
            assert(out@ =~= start + rendered(views(lines@).take(i as int)));
        }
    }
    proof {
        assert(views(lines@).take(i as int) =~= views(lines@));
    }
}

fn default_header_lines() -> (r: Vec<Vec<char>>)
    ensures
        views(r@) == default_headers(),
{
    let mut r: Vec<Vec<char>> = Vec::new();
    r.push(to_chars("# Фразы, удаляемые из конца распознанного текста (каждая на новой строке)"));
    r.push(to_chars("# Регистр не важен"));
    assert(views(r@) =~= default_headers());
    r
}

fn default_phrase_lines() -> (r: Vec<Vec<char>>)
    ensures
        views(r@) == default_phrase_list(),
{
    let d = default_phrases();
    let mut r: Vec<Vec<char>> = Vec::new();
    let mut i: usize = 0;
    while i < d.len()
        invariant
            i <= d@.len(),
            d@.map_values(|s: &str| s@) == default_phrase_list(),
            views(r@) == default_phrase_list().take(i as int),
        decreases d@.len() - i,
    {
        let ghost before = views(r@);
        let c = to_chars(d[i]);
        r.push(c);
        proof {
            assert(default_phrase_list()[i as int] == d@[i as int]@);
            assert(views(r@) =~= before.push(c@));
            assert(default_phrase_list().take(i + 1) =~= default_phrase_list().take(i as int).push(c@));
        }
        i = i + 1;
    }
    proof {
        assert(default_phrase_list().take(i as int) =~= default_phrase_list());
    }
    r
}

/// The content of a new phrase file: the default headers, then the default
/// phrases sorted by lower-cased form.
pub fn default_phrase_file() -> (r: String)
    ensures
        exists|s: Seq<Seq<char>>|
            is_lowercase_sort(s, default_phrase_list()) && r@ == rendered(default_headers() + s),
{
    let hs = default_header_lines();
    let sorted = sort_by_lowercase(&default_phrase_lines());
    let mut all = hs;
    let mut k: usize = 0;
    let ghost h = views(all@);
    while k < sorted.len()
        invariant
            k <= sorted@.len(),
            views(all@) == h + views(sorted@).take(k as int),
        decreases sorted@.len() - k,
    {
        let c = crate::text::chars::copy_chars(sorted[k].as_slice());
        let ghost before = views(all@);
        all.push(c);
        proof {
            assert(views(sorted@)[k as int] == sorted@[k as int]@);
            assert(views(all@) =~= before.push(c@));
            assert(views(sorted@).take(k + 1) =~= views(sorted@).take(k as int).push(c@));
            assert(views(all@) =~= h + views(sorted@).take(k + 1));
        }
        k = k + 1;
    }
    let mut out: Vec<char> = Vec::new();
    write_lines(&mut out, &all);
    proof {
        assert(views(sorted@).take(k as int) =~= views(sorted@));
        assert(out@ =~= rendered(default_headers() + views(sorted@)));
    }
    to_string(out.as_slice())
}

fn contains_line(v: &Vec<Vec<char>>, x: &[char]) -> (r: bool)
    ensures
        r == views(v@).contains(x@),
{
    let mut i: usize = 0;
    while i < v.len()
        invariant
            i <= v@.len(),
            forall|k: int| 0 <= k < i ==> views(v@)[k] != x@,
        decreases v@.len() - i,
    {
        if chars_eq(v[i].as_slice(), x) {
            proof {
                assert(views(v@)[i as int] == x@);
            }
            return true;
        }
        i = i + 1;
    }
    false
}

fn strings_to_lines(v: &Vec<String>) -> (r: Vec<Vec<char>>)
    ensures
        views(r@) == string_views(v@),
{
    let mut r: Vec<Vec<char>> = Vec::new();
    let mut i: usize = 0;
    while i < v.len()
        invariant
            i <= v@.len(),
            views(r@) == string_views(v@).take(i as int),
        decreases v@.len() - i,
    {
        let ghost before = views(r@);
        let c = to_chars(v[i].as_str());
        r.push(c);
        proof {
            assert(views(r@) =~= before.push(c@));
            assert(string_views(v@).take(i + 1) =~= string_views(v@).take(i as int).push(c@));
        }
        i = i + 1;
    }
    proof {
        assert(string_views(v@).take(i as int) =~= string_views(v@));
    }
    r
}

/// The phrase file `content` with the phrase `phrase` added: headers first,
/// then the phrases sorted by lower-cased form. `None` when the phrase is
/// blank.
pub fn add_custom_phrase(content: &str, phrase: &str) -> (r: Option<String>)
    ensures
        r is None <==> trim(phrase@).len() == 0,
        r matches Some(out) ==> exists|s: Seq<Seq<char>>|
            is_lowercase_sort(s, lines_after_adding(content@, trim(phrase@)).1) && out@ == rendered(
                lines_after_adding(content@, trim(phrase@)).0 + s,
            ),
{
    let p = trim_chars(to_chars(phrase).as_slice());
    if p.len() == 0 {
        return None;
    }
    let (h, ph) = parse_phrase_file(content);
    let mut headers = strings_to_lines(&h);
    let mut phrases = strings_to_lines(&ph);
    let ghost no_headers = headers@.len() == 0;
    if headers.len() == 0 {
        headers = default_header_lines();
        let ds = default_phrase_lines();
        let ghost start = views(phrases@);
        let mut i: usize = 0;
        while i < ds.len()
            invariant
                i <= ds@.len(),
                views(ds@) == default_phrase_list(),
                views(phrases@) == with_missing(start, default_phrase_list().take(i as int)),
            decreases ds@.len() - i,
        {
            proof {
                assert(default_phrase_list().take(i + 1).drop_last() =~= default_phrase_list().take(i as int));
                assert(default_phrase_list().take(i + 1).last() == ds@[i as int]@);
            }
            if !contains_line(&phrases, ds[i].as_slice()) {
                let ghost before = views(phrases@);
                phrases.push(crate::text::chars::copy_chars(ds[i].as_slice()));
                proof {
                    assert(views(phrases@) =~= before.push(ds@[i as int]@));
                }
            }
            i = i + 1;
        }
        proof {
            assert(default_phrase_list().take(i as int) =~= default_phrase_list());
        }
    }
    if !contains_line(&phrases, p.as_slice()) {
        let ghost before = views(phrases@);
        phrases.push(crate::text::chars::copy_chars(p.as_slice()));
        proof {
            assert(views(phrases@) =~= before.push(p@));
        }
    }
    let ghost ps3 = views(phrases@);
    let mut kept: Vec<Vec<char>> = Vec::new();
    let mut i: usize = 0;
    while i < phrases.len()
        invariant
            i <= phrases@.len(),
            ps3 == views(phrases@),
            views(kept@) == ps3.take(i as int).filter(|q: Seq<char>| trim(q).len() > 0),
        decreases phrases@.len() - i,
    {
        proof {
            assert(ps3.take(i + 1).drop_last() =~= ps3.take(i as int));
            assert(ps3.take(i + 1).last() == phrases@[i as int]@);
            reveal(Seq::filter);
        }
        let t = trim_chars(phrases[i].as_slice());
        if t.len() > 0 {
            let ghost before = views(kept@);
            kept.push(crate::text::chars::copy_chars(phrases[i].as_slice()));
            proof {
                assert(views(kept@) =~= before.push(phrases@[i as int]@));
            }
        }
        i = i + 1;
    }
    proof {
        assert(ps3.take(i as int) =~= ps3);
    }
    let sorted = sort_by_lowercase(&kept);
    let ghost hv = views(headers@);
    let mut all = headers;
    let mut k: usize = 0;
    while k < sorted.len()
        invariant
            k <= sorted@.len(),
            views(all@) == hv + views(sorted@).take(k as int),
        decreases sorted@.len() - k,
    {
        let c = crate::text::chars::copy_chars(sorted[k].as_slice());
        let ghost before = views(all@);
        all.push(c);
        proof {
            assert(views(sorted@)[k as int] == sorted@[k as int]@);
            assert(views(all@) =~= before.push(c@));
            assert(views(sorted@).take(k + 1) =~= views(sorted@).take(k as int).push(c@));
            assert(views(all@) =~= hv + views(sorted@).take(k + 1));
        }
        k = k + 1;
    }
    let mut out: Vec<char> = Vec::new();
    write_lines(&mut out, &all);
    proof {
        assert(views(sorted@).take(k as int) =~= views(sorted@));
        let l = lines_after_adding(content@, trim(phrase@));
        assert(hv == l.0);
        assert(views(kept@) == l.1);
        assert(out@ =~= rendered(l.0 + views(sorted@)));
    }
    Some(to_string(out.as_slice()))
}

/// No line feed in `t`.
pub open spec fn one_line(t: Seq<char>) -> bool {
    forall|i: int| 0 <= i < t.len() ==> t[i] != '\n'
}

proof fn lemma_split_lines_append(a: Seq<char>, b: Seq<char>)
    requires
        one_line(b),
    ensures
        split_lines(a + b) == split_lines(a).update(
            split_lines(a).len() - 1,
            split_lines(a).last() + b,
        ),
    decreases b.len(),
{
    lemma_split_lines_nonempty(a);
    if b.len() == 0 {
        assert(a + b =~= a);
        assert(split_lines(a).last() + b =~= split_lines(a).last());
        assert(split_lines(a).update(split_lines(a).len() - 1, split_lines(a).last()) =~= split_lines(a));
    } else {
        let b2 = b.drop_last();
        assert(one_line(b2)) by {
            assert forall|i: int| 0 <= i < b2.len() implies b2[i] != '\n' by {
                assert(b2[i] == b[i]);
            }
        }
        lemma_split_lines_append(a, b2);
        assert((a + b).drop_last() =~= a + b2);
        assert((a + b).last() == b.last());
        assert(b.last() == b[b.len() - 1]);
        let ls = split_lines(a + b2);
        lemma_split_lines_nonempty(a + b2);
        let sa = split_lines(a);
        assert(ls.len() == sa.len());
        assert(ls.last() == ls[ls.len() - 1]);
        assert(ls[ls.len() - 1] == sa.last() + b2);
        assert((sa.last() + b2).push(b.last()) =~= sa.last() + b);
        assert(ls.update(ls.len() - 1, ls.last().push(b.last())) =~= split_lines(a).update(
            split_lines(a).len() - 1,
            split_lines(a).last() + b,
        ));
    }
}

/// Lines written by `rendered` split back into themselves, followed by the
/// empty piece after the last line feed.
pub proof fn lemma_split_lines_rendered(lines: Seq<Seq<char>>)
    requires
        forall|i: int| 0 <= i < lines.len() ==> one_line(#[trigger] lines[i]),
    ensures
        split_lines(rendered(lines)) == lines.push(seq![]),
    decreases lines.len(),
{
    if lines.len() == 0 {
        assert(split_lines(seq![]) =~= seq![seq![]]);
        assert(lines.push(seq![]) =~= seq![seq![]]);
    } else {
        let d = lines.drop_last();
        let l = lines.last();
        assert forall|i: int| 0 <= i < d.len() implies one_line(#[trigger] d[i]) by {
            assert(d[i] == lines[i]);
        }
        lemma_split_lines_rendered(d);
        assert(one_line(l)) by {
            assert(l == lines[lines.len() - 1]);
        }
        lemma_split_lines_append(rendered(d), l);
        let r = rendered(d) + l;
        assert(rendered(lines) =~= r.push('\n'));
        assert(r.push('\n').drop_last() =~= r);
        lemma_split_lines_nonempty(rendered(d));
        assert(split_lines(rendered(d)).last() + l =~= l);
        assert(split_lines(r) =~= lines);
    }
}

/// Every piece of a split text is a single line.
proof fn lemma_split_lines_one_line(s: Seq<char>)
    ensures
        forall|i: int| 0 <= i < split_lines(s).len() ==> one_line(#[trigger] split_lines(s)[i]),
    decreases s.len(),
{
    if s.len() > 0 {
        let d = s.drop_last();
        lemma_split_lines_one_line(d);
        lemma_split_lines_nonempty(d);
        let ls = split_lines(d);
        if s.last() != '\n' {
            let nl = ls.last().push(s.last());
            assert(one_line(ls[ls.len() - 1]));
            assert(one_line(nl)) by {
                assert forall|i: int| 0 <= i < nl.len() implies nl[i] != '\n' by {
                    if i < nl.len() - 1 {
                        assert(nl[i] == ls[ls.len() - 1][i]);
                    }
                }
            }
            assert forall|i: int| 0 <= i < split_lines(s).len() implies one_line(#[trigger] split_lines(s)[i]) by {
                if i < ls.len() - 1 {
                    assert(split_lines(s)[i] == ls[i]);
                }
            }
        } else {
            assert forall|i: int| 0 <= i < split_lines(s).len() implies one_line(#[trigger] split_lines(s)[i]) by {
                if i < ls.len() {
                    assert(split_lines(s)[i] == ls[i]);
                } else {
                    assert(split_lines(s)[i] =~= Seq::<char>::empty());
                }
            }
        }
    }
}

/// A trimmed line of a file: a single line, trimmed.
pub open spec fn clean_line(t: Seq<char>) -> bool {
    one_line(t) && trim(t) == t
}

proof fn lemma_trimmed_lines_clean(content: Seq<char>)
    ensures
        forall|i: int| 0 <= i < trimmed_lines(content).len() ==> clean_line(#[trigger] trimmed_lines(content)[i]),
{
    lemma_split_lines_one_line(content);
    assert forall|i: int| 0 <= i < trimmed_lines(content).len() implies clean_line(#[trigger] trimmed_lines(content)[i]) by {
        let l = split_lines(content)[i];
        assert(trimmed_lines(content)[i] == trim(l));
        assert(one_line(l));
        lemma_trim_keeps_absent(l, '\n');
        lemma_trim_idempotent(l);
    }
}

proof fn lemma_filter_all(s: Seq<Seq<char>>, f: spec_fn(Seq<char>) -> bool)
    requires
        forall|i: int| 0 <= i < s.len() ==> f(#[trigger] s[i]),
    ensures
        s.filter(f) == s,
    decreases s.len(),
{
    reveal(Seq::filter);
    if s.len() > 0 {
        let d = s.drop_last();
        assert forall|i: int| 0 <= i < d.len() implies f(#[trigger] d[i]) by {
            assert(d[i] == s[i]);
        }
        lemma_filter_all(d, f);
        assert(f(s[s.len() - 1]));
        assert(s =~= d.push(s.last()));
    }
}

proof fn lemma_filter_none(s: Seq<Seq<char>>, f: spec_fn(Seq<char>) -> bool)
    requires
        forall|i: int| 0 <= i < s.len() ==> !f(#[trigger] s[i]),
    ensures
        s.filter(f) == Seq::<Seq<char>>::empty(),
    decreases s.len(),
{
    reveal(Seq::filter);
    if s.len() > 0 {
        let d = s.drop_last();
        assert forall|i: int| 0 <= i < d.len() implies !f(#[trigger] d[i]) by {
            assert(d[i] == s[i]);
        }
        lemma_filter_none(d, f);
        assert(!f(s[s.len() - 1]));
    }
}

/// Reading back a phrase file written by adding a phrase to a file with
/// headers gives the same headers and the written phrases, among them the
/// added one, provided the phrase is a single line that does not start
/// with `#` (such a phrase would be read back as a header).
pub proof fn lemma_added_phrase_read_back(content: Seq<char>, phrase: Seq<char>, s: Seq<Seq<char>>)
    requires
        headers_of(content).len() > 0,
        is_phrase(trim(phrase)),
        one_line(trim(phrase)),
        is_lowercase_sort(s, lines_after_adding(content, trim(phrase)).1),
    ensures
        lines_after_adding(content, trim(phrase)).0 == headers_of(content),
        headers_of(rendered(headers_of(content) + s)) == headers_of(content),
        phrases_of(rendered(headers_of(content) + s)) == s,
        s.contains(trim(phrase)),
{
    let p = trim(phrase);
    let tl = trimmed_lines(content);
    let hs = headers_of(content);
    let ps = phrases_of(content);
    let ps3 = if ps.contains(p) {
        ps
    } else {
        ps.push(p)
    };
    let nonblank = |q: Seq<char>| trim(q).len() > 0;
    let inp = ps3.filter(nonblank);
    assert(inp == lines_after_adding(content, p).1);
    lemma_trimmed_lines_clean(content);
    lemma_trim_idempotent(phrase);
    // The headers and phrases of the file are clean lines of their kind.
    assert forall|i: int| 0 <= i < hs.len() implies clean_line(#[trigger] hs[i]) && is_header(hs[i]) by {
        tl.lemma_filter_pred(|t: Seq<char>| is_header(t), i);
        tl.lemma_filter_contains_rev(|t: Seq<char>| is_header(t), hs[i]);
        let k = choose|k: int| 0 <= k < tl.len() && tl[k] == hs[i];
        assert(clean_line(tl[k]));
    }
    assert forall|x: Seq<char>| #[trigger] ps3.contains(x) implies clean_line(x) && is_phrase(x) by {
        if ps.contains(x) {
            let j = choose|j: int| 0 <= j < ps.len() && ps[j] == x;
            tl.lemma_filter_pred(|t: Seq<char>| is_phrase(t), j);
            tl.lemma_filter_contains_rev(|t: Seq<char>| is_phrase(t), x);
            let k = choose|k: int| 0 <= k < tl.len() && tl[k] == x;
            assert(clean_line(tl[k]));
        } else {
            let j = choose|j: int| 0 <= j < ps3.len() && ps3[j] == x;
            assert(j == ps.len());
        }
    }
    // Everything written is such a phrase.
    assert forall|i: int| 0 <= i < s.len() implies clean_line(#[trigger] s[i]) && is_phrase(s[i]) by {
        let x = s[i];
        let kf = |y: Seq<char>| lowercase(y) == lowercase(x);
        s.lemma_filter_contains(kf, i);
        assert(with_key(s, lowercase(x)) == with_key(inp, lowercase(x)));
        assert(with_key(inp, lowercase(x)).contains(x));
        inp.lemma_filter_contains_rev(kf, x);
        ps3.lemma_filter_contains_rev(nonblank, x);
    }
    // The added phrase is written.
    assert(ps3.contains(p)) by {
        if !ps.contains(p) {
            assert(ps3[ps.len() as int] == p);
        }
    }
    let jp = choose|j: int| 0 <= j < ps3.len() && ps3[j] == p;
    ps3.lemma_filter_contains(nonblank, jp);
    let jq = choose|j: int| 0 <= j < inp.len() && inp[j] == p;
    let kp = |y: Seq<char>| lowercase(y) == lowercase(p);
    inp.lemma_filter_contains(kp, jq);
    assert(with_key(inp, lowercase(p)) == with_key(s, lowercase(p)));
    s.lemma_filter_contains_rev(kp, p);
    // Reading the file back.
    let all = hs + s;
    assert forall|i: int| 0 <= i < all.len() implies one_line(#[trigger] all[i]) by {
        if i < hs.len() {
            assert(all[i] == hs[i]);
        } else {
            assert(all[i] == s[i - hs.len()]);
        }
    }
    lemma_split_lines_rendered(all);
    let back = trimmed_lines(rendered(all));
    assert(back =~= all.push(seq![])) by {
        assert forall|i: int| 0 <= i < back.len() implies back[i] == all.push(seq![])[i] by {
            if i < hs.len() {
                assert(all[i] == hs[i]);
            } else if i < all.len() {
                assert(all[i] == s[i - hs.len()]);
            } else {
                assert(trim(Seq::<char>::empty()) =~= Seq::<char>::empty());
            }
        }
    }
    let fp = |t: Seq<char>| is_phrase(t);
    let fh = |t: Seq<char>| is_header(t);
    assert(all.push(seq![]) =~= hs + (s + seq![seq![]]));
    Seq::filter_distributes_over_add(hs, s + seq![seq![]], fp);
    Seq::filter_distributes_over_add(s, seq![seq![]], fp);
    Seq::filter_distributes_over_add(hs, s + seq![seq![]], fh);
    Seq::filter_distributes_over_add(s, seq![seq![]], fh);
    lemma_filter_none(hs, fp);
    lemma_filter_all(hs, fh);
    lemma_filter_all(s, fp);
    lemma_filter_none(s, fh);
    lemma_filter_none(seq![seq![]], fp);
    lemma_filter_none(seq![seq![]], fh);
    assert(phrases_of(rendered(all)) =~= s);
    assert(headers_of(rendered(all)) =~= hs);
}

} // verus!
