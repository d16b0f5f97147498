//! The compiled regular expressions and the configurable phrase lists that the
//! hallucination and punctuation fixes use.
use vstd::prelude::*;

use crate::text::chars::{copy_chars, push_all, to_chars, to_string, views};
use crate::text::pattern::{compile, escape, escaped, regex_compiles, replace_all, Pattern};

verus! {

/// A capitalised word followed by an initial and a surname ("Корректор A. Егорова").
pub open spec fn initials_full_source() -> Seq<char> {
    "\\b[А-ЯA-Z][а-яa-z]+\\s+[A-Z]\\.\\s*[А-ЯA-Z][а-яa-z]+\\b"@
}

/// An initial followed by a surname ("A. Семкин").
pub open spec fn initials_short_source() -> Seq<char> {
    "\\b[A-Z]\\.\\s*[А-ЯA-Z][а-яa-z]+\\b"@
}

/// A run of whitespace.
pub open spec fn spaces_source() -> Seq<char> {
    "\\s+"@
}

/// Whitespace before a punctuation mark, the mark captured.
pub open spec fn space_before_punct_source() -> Seq<char> {
    "\\s+([.,!?;:])"@
}

/// A comma followed by more commas.
pub open spec fn double_comma_source() -> Seq<char> {
    ",\\s*,+"@
}

/// The regex that removes `phrase` at the end of a text, case-insensitively.
pub open spec fn end_source(phrase: Seq<char>) -> Seq<char> {
    "(?i)"@ + escaped(phrase) + "\\s*$"@
}

/// The end-of-text regexes of the phrases that compile, in order.
pub open spec fn end_sources(phrases: Seq<Seq<char>>) -> Seq<Seq<char>>
    decreases phrases.len(),
{
    if phrases.len() == 0 {
        seq![]
    } else {
        let d = end_sources(phrases.drop_last());
        if regex_compiles(end_source(phrases.last())) {
            d.push(end_source(phrases.last()))
        } else {
            d
        }
    }
}

/// A phrase in square brackets, removed wherever it occurs.
pub open spec fn is_bracketed(p: Seq<char>) -> bool {
    p.len() > 0 && p[0] == '[' && p.last() == ']'
}

/// The bracketed phrases, in order.
pub open spec fn bracketed(phrases: Seq<Seq<char>>) -> Seq<Seq<char>>
    decreases phrases.len(),
{
    if phrases.len() == 0 {
        seq![]
    } else {
        let d = bracketed(phrases.drop_last());
        if is_bracketed(phrases.last()) {
            d.push(phrases.last())
        } else {
            d
        }
    }
}

pub open spec fn string_views(v: Seq<String>) -> Seq<Seq<char>> {
    v.map_values(|s: String| s@)
}

pub open spec fn pattern_views(v: Seq<Pattern>) -> Seq<Seq<char>> {
    v.map_values(|p: Pattern| p@)
}

/// Fixed and configured patterns for the text fixes.
pub struct TextRules {
    initials_full: Pattern,
    initials_short: Pattern,
    spaces: Pattern,
    space_before_punct: Pattern,
    double_comma: Pattern,
    end_patterns: Vec<Pattern>,
    mid_tokens: Vec<Vec<char>>,
}

/// An owned copy of `s`.
pub fn owned(s: &str) -> (r: String)
    ensures
        r@ == s@,
{
    to_string(to_chars(s).as_slice())
}

impl TextRules {
    /// The fixed patterns have their sources and the bracketed tokens are non-empty.
    pub closed spec fn wf(&self) -> bool {
        &&& self.initials_full@ == initials_full_source()
        &&& self.initials_short@ == initials_short_source()
        &&& self.spaces@ == spaces_source()
        &&& self.space_before_punct@ == space_before_punct_source()
        &&& self.double_comma@ == double_comma_source()
        &&& forall|i: int| 0 <= i < self.mid_tokens@.len() ==> (#[trigger] self.mid_tokens@[i])@.len() > 0
    }

    /// Sources of the configured end-of-text regexes.
    pub closed spec fn end_view(&self) -> Seq<Seq<char>> {
        pattern_views(self.end_patterns@)
    }

    /// Configured tokens removed anywhere in a text.
    pub closed spec fn mid_view(&self) -> Seq<Seq<char>> {
        views(self.mid_tokens@)
    }

    pub(crate) fn end_patterns(&self) -> (r: &Vec<Pattern>)
        ensures
            pattern_views(r@) == self.end_view(),
    {
        &self.end_patterns
    }

    pub(crate) fn mid_tokens(&self) -> (r: &Vec<Vec<char>>)
        requires
            self.wf(),
        ensures
            views(r@) == self.mid_view(),
            forall|i: int| 0 <= i < r@.len() ==> (#[trigger] r@[i])@.len() > 0,
    {
        &self.mid_tokens
    }

    pub(crate) fn initials_full(&self) -> (r: &Pattern)
        requires
            self.wf(),
        ensures
            r@ == initials_full_source(),
    {
        &self.initials_full
    }

    pub(crate) fn initials_short(&self) -> (r: &Pattern)
        requires
            self.wf(),
        ensures
            r@ == initials_short_source(),
    {
        &self.initials_short
    }

    pub(crate) fn spaces(&self) -> (r: &Pattern)
        requires
            self.wf(),
        ensures
            r@ == spaces_source(),
    {
        &self.spaces
    }

    pub(crate) fn space_before_punct(&self) -> (r: &Pattern)
        requires
            self.wf(),
        ensures
            r@ == space_before_punct_source(),
    {
        &self.space_before_punct
    }

    pub(crate) fn double_comma(&self) -> (r: &Pattern)
        requires
            self.wf(),
        ensures
            r@ == double_comma_source(),
    {
        &self.double_comma
    }

    /// Compiles the fixed patterns; `None` when the regex crate refuses one.
    /// No configured phrases yet.
    pub fn new() -> (r: Option<Self>)
        ensures
            r is Some <==> (regex_compiles(initials_full_source()) && regex_compiles(
                initials_short_source(),
            ) && regex_compiles(spaces_source()) && regex_compiles(space_before_punct_source())
                && regex_compiles(double_comma_source())),
            r matches Some(t) ==> t.wf() && t.end_view() == Seq::<Seq<char>>::empty()
                && t.mid_view() == Seq::<Seq<char>>::empty(),
    {
        let a = compile(owned("\\b[А-ЯA-Z][а-яa-z]+\\s+[A-Z]\\.\\s*[А-ЯA-Z][а-яa-z]+\\b"));
        let b = compile(owned("\\b[A-Z]\\.\\s*[А-ЯA-Z][а-яa-z]+\\b"));
        let c = compile(owned("\\s+"));
        let d = compile(owned("\\s+([.,!?;:])"));
        let e = compile(owned(",\\s*,+"));
        match (a, b, c, d, e) {
            (Some(a), Some(b), Some(c), Some(d), Some(e)) => {
                let t = TextRules {
                    initials_full: a,
                    initials_short: b,
                    spaces: c,
                    space_before_punct: d,
                    double_comma: e,
                    end_patterns: Vec::new(),
                    mid_tokens: Vec::new(),
                };
                assert(t.end_view() =~= Seq::<Seq<char>>::empty());
                assert(t.mid_view() =~= Seq::<Seq<char>>::empty());
                Some(t)
            },
            _ => None,
        }
    }

    /// Installs the user's hallucination phrases: each becomes a
    /// case-insensitive end-of-text regex (phrases whose regex does not compile
    /// are skipped), and the bracketed ones are also removed anywhere.
    pub fn set_custom_phrases(&mut self, phrases: &Vec<String>)
        requires
            old(self).wf(),
        ensures
            final(self).wf(),
            final(self).end_view() == end_sources(string_views(phrases@)),
            final(self).mid_view() == bracketed(string_views(phrases@)),
    {
        let mut pats: Vec<Pattern> = Vec::new();
        let mut mids: Vec<Vec<char>> = Vec::new();
        let ghost ps = string_views(phrases@);
        let mut i: usize = 0;
        while i < phrases.len()
            invariant
                i <= phrases@.len(),
                ps == string_views(phrases@),
                pattern_views(pats@) == end_sources(ps.take(i as int)),
                views(mids@) == bracketed(ps.take(i as int)),
                forall|k: int| 0 <= k < mids@.len() ==> (#[trigger] mids@[k])@.len() > 0,
            decreases phrases@.len() - i,
        {
            let p = phrases[i].as_str();
            proof {
                assert(ps.take(i + 1).drop_last() =~= ps.take(i as int));
                assert(ps.take(i + 1).last() == p@);
            }
            let mut src = to_chars("(?i)");
            let esc = escape(p);
            push_all(&mut src, to_chars(esc.as_str()).as_slice());
            push_all(&mut src, to_chars("\\s*$").as_slice());
            let ghost before_p = pattern_views(pats@);
            match compile(to_string(src.as_slice())) {
                Some(pat) => {
                    pats.push(pat);
                    proof {
                        assert(pattern_views(pats@) =~= before_p.push(end_source(p@)));
                    }
                },
                None => {},
            }
            let pc = to_chars(p);
            let ghost before_m = views(mids@);
            if pc.len() > 0 && pc[0] == '[' && pc[pc.len() - 1] == ']' {
                mids.push(copy_chars(pc.as_slice()));
                proof {
                    assert(views(mids@) =~= before_m.push(p@));
                }
            }
            i = i + 1;
        }
        proof {
            assert(ps.take(i as int) =~= ps);
        }
        self.end_patterns = pats;
        self.mid_tokens = mids;
    }
}

} // verus!
