//! The user's dictionary of replacements ("фыва" becomes "привет").
use vstd::prelude::*;

use crate::text::chars::{
    chars_eq, copy_chars, join, join_words, push_all, split_words, sub_chars, to_chars,
    to_string, trim, trim_chars, views, words,
};
use crate::text::json::{distinct_keys, json_string_map, pair_map, parse_string_map};
use crate::text::string_map::lookup;
use crate::text::pattern::{
    compile, escape, escaped, find_all, is_char_boundary, regex_compiles, regex_find_all, Pattern,
};
use crate::text::unicode::{
    char_width, is_alphabetic, is_alphabetic_char, lemma_utf8_len_strict, lowercase,
    lowercase_chars, utf8_len, utf8_len_of,
};

verus! {

/// The regex source that finds `key`: its words escaped, any whitespace
/// between them, case-insensitive.
pub open spec fn key_source(key: Seq<char>) -> Seq<char> {
    "(?i)"@ + join(words(key).map_values(|w: Seq<char>| escaped(w)), "\\s+"@)
}

/// The `(regex source, replacement)` pairs of the entries whose regex compiles, in order.
pub open spec fn cached(es: Seq<(Seq<char>, Seq<char>)>) -> Seq<(Seq<char>, Seq<char>)>
    decreases es.len(),
{
    if es.len() == 0 {
        seq![]
    } else {
        let d = cached(es.drop_last());
        if regex_compiles(key_source(es.last().0)) {
            d.push((key_source(es.last().0), es.last().1))
        } else {
            d
        }
    }
}

/// Keys are distinct and ordered by non-increasing UTF-8 length.
pub open spec fn sorted_distinct(es: Seq<(Seq<char>, Seq<char>)>) -> bool {
    &&& forall|i: int, j: int| 0 <= i < j < es.len() ==> (#[trigger] es[i]).0 != (#[trigger] es[j]).0
    &&& forall|i: int, j: int|
        0 <= i < j < es.len() ==> utf8_len((#[trigger] es[i]).0) >= utf8_len((#[trigger] es[j]).0)
}

/// Index of the entry with key `key`.
pub open spec fn find_key(es: Seq<(Seq<char>, Seq<char>)>, key: Seq<char>) -> Option<int>
    decreases es.len(),
{
    if es.len() == 0 {
        None
    } else if es.last().0 == key {
        Some(es.len() - 1)
    } else {
        find_key(es.drop_last(), key)
    }
}

/// Where a key of UTF-8 length `n` goes: after every longer or equally long key.
pub open spec fn insert_position(es: Seq<(Seq<char>, Seq<char>)>, n: nat) -> int
    decreases es.len(),
{
    if es.len() == 0 {
        0
    } else if utf8_len(es[0].0) < n {
        0
    } else {
        1 + insert_position(es.skip(1), n)
    }
}

/// The entries with `key` mapped to `value`: an existing entry is updated in
/// place, a new one is inserted after all keys at least as long.
pub open spec fn upsert(es: Seq<(Seq<char>, Seq<char>)>, key: Seq<char>, value: Seq<char>) -> Seq<
    (Seq<char>, Seq<char>),
> {
    match find_key(es, key) {
        Some(i) => es.update(i, (key, value)),
        None => es.insert(insert_position(es, utf8_len(key)), (key, value)),
    }
}

/// The character index at which the `b`-th byte of `text` starts.
pub open spec fn char_index(text: Seq<char>, b: int) -> int {
    choose|k: int| is_char_boundary(text, b, k)
}

/// The matches of the regex compiled from `source` in `text`, as character ranges.
pub open spec fn char_matches(source: Seq<char>, text: Seq<char>) -> Seq<(int, int)> {
    regex_find_all(source, text).map_values(
        |m: (usize, usize)| (char_index(text, m.0 as int), char_index(text, m.1 as int)),
    )
}

/// No letter right before position `i`.
pub open spec fn left_ok(text: Seq<char>, i: int) -> bool {
    i <= 0 || !is_alphabetic_char(text[i - 1])
}

/// No letter at position `j`.
pub open spec fn right_ok(text: Seq<char>, j: int) -> bool {
    j >= text.len() || !is_alphabetic_char(text[j])
}

/// Taking one match: `(output so far, end of the consumed input)`.
pub open spec fn take_match(
    text: Seq<char>,
    st: (Seq<char>, int),
    m: (int, int),
    value: Seq<char>,
) -> (Seq<char>, int) {
    if m.0 < st.1 {
        st
    } else if left_ok(text, m.0) && right_ok(text, m.1) {
        (st.0 + text.subrange(st.1, m.0) + value, m.1)
    } else {
        st
    }
}

pub open spec fn take_matches(
    text: Seq<char>,
    st: (Seq<char>, int),
    ms: Seq<(int, int)>,
    value: Seq<char>,
) -> (Seq<char>, int)
    decreases ms.len(),
{
    if ms.len() == 0 {
        st
    } else {
        take_match(text, take_matches(text, st, ms.drop_last(), value), ms.last(), value)
    }
}

pub open spec fn take_entries(
    text: Seq<char>,
    st: (Seq<char>, int),
    cache: Seq<(Seq<char>, Seq<char>)>,
) -> (Seq<char>, int)
    decreases cache.len(),
{
    if cache.len() == 0 {
        st
    } else {
        take_matches(
            text,
            take_entries(text, st, cache.drop_last()),
            char_matches(cache.last().0, text),
            cache.last().1,
        )
    }
}

/// The text with whole-word matches of the entries replaced: entries in
/// order, each match in order, skipping matches that overlap text already
/// replaced or that touch a letter on either side.
pub open spec fn user_dict_applied(text: Seq<char>, cache: Seq<(Seq<char>, Seq<char>)>) -> Seq<
    char,
> {
    let st = take_entries(text, (seq![], 0), cache);
    st.0 + text.skip(st.1)
}

struct CachedEntry {
    pattern: Pattern,
    value: Vec<char>,
}

pub open spec fn entry_views(v: Seq<(Vec<char>, Vec<char>)>) -> Seq<(Seq<char>, Seq<char>)> {
    v.map_values(|e: (Vec<char>, Vec<char>)| (e.0@, e.1@))
}

spec fn cache_views(v: Seq<CachedEntry>) -> Seq<(Seq<char>, Seq<char>)> {
    v.map_values(|e: CachedEntry| (e.pattern@, e.value@))
}

/// Replacements from mistaken phrases (keys, lower-cased) to corrections.
pub struct UserDict {
    entries: Vec<(Vec<char>, Vec<char>)>,
    cache: Vec<CachedEntry>,
}

impl View for UserDict {
    type V = Seq<(Seq<char>, Seq<char>)>;

    /// The entries, longest keys first.
    closed spec fn view(&self) -> Seq<(Seq<char>, Seq<char>)> {
        entry_views(self.entries@)
    }
}

/// Builds the regex source of a key.
fn key_pattern_source(key: &[char]) -> (r: Vec<char>)
    ensures
        r@ == key_source(key@),
{
    let ws = split_words(key);
    let mut esc: Vec<Vec<char>> = Vec::new();
    let mut i: usize = 0;
    while i < ws.len()
        invariant
            i <= ws@.len(),
            views(ws@) == words(key@),
            views(esc@) == words(key@).take(i as int).map_values(|w: Seq<char>| escaped(w)),
        decreases ws@.len() - i,
    {
        let e = escape(to_string(ws[i].as_slice()).as_str());
        let ghost before = views(esc@);
        esc.push(to_chars(e.as_str()));
        proof {
            assert(views(ws@)[i as int] == ws@[i as int]@);
            assert(views(esc@) =~= before.push(escaped(words(key@)[i as int])));
            assert(words(key@).take(i + 1) =~= words(key@).take(i as int).push(words(key@)[i as int]));
            assert(words(key@).take(i + 1).map_values(|w: Seq<char>| escaped(w)) =~= words(key@).take(
                i as int,
            ).map_values(|w: Seq<char>| escaped(w)).push(escaped(words(key@)[i as int])));
        }
        i = i + 1;
    }
    proof {
        assert(words(key@).take(i as int) =~= words(key@));
    }
    let sep = to_chars("\\s+");
    let joined = join_words(&esc, sep.as_slice());
    let mut r = to_chars("(?i)");
    push_all(&mut r, joined.as_slice());
    r
}

/// The compiled cache of `entries`.
fn build_cache(entries: &Vec<(Vec<char>, Vec<char>)>) -> (r: Vec<CachedEntry>)
    ensures
        cache_views(r@) == cached(entry_views(entries@)),
{
    let mut r: Vec<CachedEntry> = Vec::new();
    let mut i: usize = 0;
    while i < entries.len()
        invariant
            i <= entries@.len(),
            cache_views(r@) == cached(entry_views(entries@).take(i as int)),
        decreases entries@.len() - i,
    {
        let ghost es = entry_views(entries@);
        proof {
            assert(es.take(i + 1).drop_last() =~= es.take(i as int));
            assert(es.take(i + 1).last() == (entries@[i as int].0@, entries@[i as int].1@));
        }
        let src = key_pattern_source(entries[i].0.as_slice());
        let ghost before = cache_views(r@);
        match compile(to_string(src.as_slice())) {
            Some(p) => {
                r.push(CachedEntry { pattern: p, value: copy_chars(entries[i].1.as_slice()) });
                proof {
                    assert(cache_views(r@) =~= before.push((key_source(entries@[i as int].0@), entries@[i as int].1@)));
                }
            },
            None => {},
        }
        i = i + 1;
    }
    proof {
        assert(entry_views(entries@).take(i as int) =~= entry_views(entries@));
    }
    r
}

/// The character index of the byte offset `b`, a character boundary of `s`.
fn char_index_of(s: &[char], b: usize) -> (k: usize)
    requires
        exists|k: int| is_char_boundary(s@, b as int, k),
    ensures
        k == char_index(s@, b as int),
        is_char_boundary(s@, b as int, k as int),
{
    let ghost kb = choose|k: int| is_char_boundary(s@, b as int, k);
    let mut off: usize = 0;
    let mut k: usize = 0;
    proof {
        assert(s@.take(0) =~= seq![]);
    }
    while off < b
        invariant
            0 <= kb <= s@.len(),
            utf8_len(s@.take(kb)) == b,
            k <= kb,
            off == utf8_len(s@.take(k as int)),
            off <= b,
        decreases kb - k,
    {
        proof {
            if k == kb {
                assert(false);
            }
            assert(s@.take(k + 1).drop_last() =~= s@.take(k as int));
            if k + 1 < kb {
                lemma_utf8_len_strict(s@, k + 1, kb);
            }
        }
        let w = char_width(s[k]);
        off = off + w;
        k = k + 1;
    }
    proof {
        if k < kb {
            lemma_utf8_len_strict(s@, k as int, kb);
        }
        assert(is_char_boundary(s@, b as int, k as int));
        let c = char_index(s@, b as int);
        assert(is_char_boundary(s@, b as int, c));
        if c < k {
            lemma_utf8_len_strict(s@, c, k as int);
        }
        if k < c {
            lemma_utf8_len_strict(s@, k as int, c);
        }
    }
    k
}

impl UserDict {
    /// Keys distinct and longest first; the cache holds the compiled entries.
    pub closed spec fn wf(&self) -> bool {
        &&& sorted_distinct(self@)
        &&& cache_views(self.cache@) == cached(self@)
    }

    /// The `(regex source, replacement)` pairs in use.
    pub closed spec fn cache_view(&self) -> Seq<(Seq<char>, Seq<char>)> {
        cache_views(self.cache@)
    }

    /// An empty dictionary.
    pub fn new() -> (d: Self)
        ensures
            d.wf(),
            d@ == Seq::<(Seq<char>, Seq<char>)>::empty(),
    {
        let d = UserDict { entries: Vec::new(), cache: Vec::new() };
        assert(d@ =~= Seq::<(Seq<char>, Seq<char>)>::empty());
        assert(cache_views(d.cache@) =~= seq![]);
        d
    }

    /// With `wf`, the cache is the compiled form of the entries.
    pub proof fn lemma_cache(&self)
        requires
            self.wf(),
        ensures
            self.cache_view() == cached(self@),
    {
    }

    /// Maps `key` to `value` in place or at its sorted position.
    fn upsert_entry(&mut self, key: Vec<char>, value: Vec<char>)
        requires
            sorted_distinct(old(self)@),
        ensures
            sorted_distinct(final(self)@),
            final(self)@ == upsert(old(self)@, key@, value@),
            final(self).cache@ == old(self).cache@,
    {
        let ghost es = self@;
        let mut i: usize = 0;
        while i < self.entries.len()
            invariant
                i <= self.entries@.len(),
                es == entry_views(self.entries@),
                es == old(self)@,
                sorted_distinct(es),
                self.cache@ == old(self).cache@,
                forall|k: int| 0 <= k < i ==> es[k].0 != key@,
            decreases self.entries@.len() - i,
        {
            if chars_eq(self.entries[i].0.as_slice(), key.as_slice()) {
                proof {
                    lemma_find_key_unique(es, key@, i as int);
                }
                let ghost old_entries = self.entries@;
                self.entries.set(i, (key, value));
                proof {
                    assert(self@ =~= es.update(i as int, (key@, value@)));
                    assert(sorted_distinct(self@)) by {
                        assert forall|a: int, b: int| 0 <= a < b < self@.len() implies (#[trigger] self@[a]).0 != (
                        #[trigger] self@[b]).0 && utf8_len(self@[a].0) >= utf8_len(self@[b].0) by {
                            assert(es[a].0 != es[b].0);
                            assert(utf8_len(es[a].0) >= utf8_len(es[b].0));
                        }
                    }
                }
                return;
            }
            i = i + 1;
        }
        proof {
            lemma_find_key_absent(es, key@);
        }
        let n = utf8_len_of(key.as_slice());
        let mut p: usize = 0;
        proof {
            assert(es.skip(0) =~= es);
        }
        while p < self.entries.len() && utf8_len_of(self.entries[p].0.as_slice()) >= n
            invariant
                p <= self.entries@.len(),
                es == entry_views(self.entries@),
                self.cache@ == old(self).cache@,
                n == utf8_len(key@),
                sorted_distinct(es),
                insert_position(es, n as nat) == p + insert_position(es.skip(p as int), n as nat),
                forall|k: int| 0 <= k < p ==> utf8_len(#[trigger] es[k].0) >= n,
            decreases self.entries@.len() - p,
        {
            proof {
                assert(es.skip(p as int)[0] == es[p as int]);
                assert(es.skip(p as int).skip(1) =~= es.skip(p + 1));
            }
            p = p + 1;
        }
        proof {
            if p < es.len() {
                assert(es.skip(p as int)[0] == es[p as int]);
            } else {
                assert(es.skip(p as int).len() == 0);
            }
            assert(insert_position(es, n as nat) == p);
        }
        self.entries.insert(p, (key, value));
        proof {
            let ne = es.insert(p as int, (key@, value@));
            assert(self@ =~= ne);
            assert forall|a: int, b: int| 0 <= a < b < ne.len() implies (#[trigger] ne[a]).0 != (
            #[trigger] ne[b]).0 && utf8_len(ne[a].0) >= utf8_len(ne[b].0) by {
                if a < p && b < p {
                    assert(ne[a] == es[a] && ne[b] == es[b]);
                } else if a < p && b == p {
                    assert(ne[a] == es[a]);
                } else if a < p {
                    assert(ne[a] == es[a] && ne[b] == es[b - 1]);
                } else if a == p {
                    assert(ne[b] == es[b - 1]);
                    assert(utf8_len(es[b - 1].0) < n) by {
                        if utf8_len(es[b - 1].0) >= n {
                            assert(utf8_len(es[p as int].0) >= utf8_len(es[b - 1].0));
                        }
                    }
                } else {
                    assert(ne[a] == es[a - 1] && ne[b] == es[b - 1]);
                }
            }
        }
    }

    /// Recompiles the cache from the entries.
    fn rebuild_cache(&mut self)
        ensures
            final(self)@ == old(self)@,
            cache_views(final(self).cache@) == cached(final(self)@),
    {
        self.cache = build_cache(&self.entries);
    }

    /// A dictionary of `pairs`, each key lower-cased; a later pair with the
    /// same key wins.
    pub fn from_entries(pairs: &Vec<(String, String)>) -> (d: Self)
        ensures
            d.wf(),
            d@ == upsert_all(Seq::empty(), pairs@, pairs@.len() as int),
            forall|key: Seq<char>| #[trigger] binding(d@, key) == lookup(lowered(pairs@), key),
    {
        let mut d = UserDict::new();
        let mut i: usize = 0;
        proof {
            assert(lowered(pairs@.take(0)) =~= Seq::<(Seq<char>, Seq<char>)>::empty());
        }
        while i < pairs.len()
            invariant
                i <= pairs@.len(),
                sorted_distinct(d@),
                d@ == upsert_all(Seq::empty(), pairs@, i as int),
                forall|key: Seq<char>| #[trigger] binding(d@, key) == lookup(lowered(pairs@.take(i as int)), key),
            decreases pairs@.len() - i,
        {
            let key = lowercase_chars(to_chars(pairs[i].0.as_str()).as_slice());
            let value = to_chars(pairs[i].1.as_str());
            let ghost before = d@;
            d.upsert_entry(key, value);
            proof {
                let lw = lowered(pairs@.take(i + 1));
                assert(lw.drop_last() =~= lowered(pairs@.take(i as int)));
                assert(lw.last() == (key@, value@));
                assert forall|k: Seq<char>| #[trigger] binding(d@, k) == lookup(lw, k) by {
                    lemma_upsert_binds(before, key@, value@, k);
                }
            }
            i = i + 1;
        }
        proof {
            assert(pairs@.take(i as int) =~= pairs@);
        }
        d.rebuild_cache();
        d
    }

    /// The dictionary of a JSON document, an object of replacements by the
    /// phrase they replace; each phrase lower-cased, the pairs taken in an
    /// order that is left open (two phrases that lower-case alike leave one
    /// of them). A document that is not such an object gives an empty
    /// dictionary.
    pub fn from_json(doc: &str) -> (d: Self)
        ensures
            d.wf(),
            json_string_map(doc@) is None ==> d@ == Seq::<(Seq<char>, Seq<char>)>::empty(),
            json_string_map(doc@) is Some ==> exists|v: Seq<(String, String)>|
                #[trigger] pair_map(v) == json_string_map(doc@)->0 && distinct_keys(v) && d@ == upsert_all(
                    Seq::empty(),
                    v,
                    v.len() as int,
                ),
            json_string_map(doc@) matches Some(m) ==> forall|k: Seq<char>|
                m.contains_key(k) && (forall|k2: Seq<char>|
                    m.contains_key(k2) && lowercase(k2) == lowercase(k) ==> k2 == k) ==> #[trigger] binding(
                    d@,
                    lowercase(k),
                ) == Some(m[k]),
    {
        match parse_string_map(doc) {
            Some(v) => {
                let d = UserDict::from_entries(&v);
                let ghost m = json_string_map(doc@)->0;
                assert(pair_map(v@) == m);
                proof {
                    lemma_pair_map_keys(v@);
                    assert forall|k: Seq<char>|
                        m.contains_key(k) && (forall|k2: Seq<char>|
                            m.contains_key(k2) && lowercase(k2) == lowercase(k) ==> k2 == k) implies #[trigger] binding(
                        d@,
                        lowercase(k),
                    ) == Some(m[k]) by {
                        assert forall|j: int| 0 <= j < v@.len() && lowercase(v@[j].0@) == lowercase(k) implies v@[j].0@
                            == k by {
                            assert(m.contains_key(v@[j].0@));
                        }
                        lemma_lookup_lowered(v@, k);
                    }
                }
                d
            },
            None => UserDict::new(),
        }
    }

    /// Adds or replaces an entry: both sides trimmed, the key lower-cased;
    /// nothing changes when either side is blank.
    pub fn add_entry(&mut self, wrong: &str, correct: &str)
        requires
            old(self).wf(),
        ensures
            final(self).wf(),
            final(self)@ == (if trim(wrong@).len() == 0 || trim(correct@).len() == 0 {
                old(self)@
            } else {
                upsert(old(self)@, lowercase(trim(wrong@)), trim(correct@))
            }),
    {
        let w = trim_chars(to_chars(wrong).as_slice());
        let c = trim_chars(to_chars(correct).as_slice());
        if w.len() == 0 || c.len() == 0 {
            return;
        }
        let key = lowercase_chars(w.as_slice());
        self.upsert_entry(key, c);
        self.rebuild_cache();
    }

    /// The entries as `(key, replacement)` strings, longest keys first.
    pub fn entries(&self) -> (r: Vec<(String, String)>)
        ensures
            r@.map_values(|p: (String, String)| (p.0@, p.1@)) == self@,
    {
        let mut r: Vec<(String, String)> = Vec::new();
        let mut i: usize = 0;
        while i < self.entries.len()
            invariant
                i <= self.entries@.len(),
                r@.map_values(|p: (String, String)| (p.0@, p.1@)) == self@.take(i as int),
            decreases self.entries@.len() - i,
        {
            let k = to_string(self.entries[i].0.as_slice());
            let v = to_string(self.entries[i].1.as_slice());
            proof {
                assert(self@[i as int] == (self.entries@[i as int].0@, self.entries@[i as int].1@));
                assert(self@.take(i + 1) =~= self@.take(i as int).push(self@[i as int]));
            }
            r.push((k, v));
            i = i + 1;
            proof {
                assert(r@.map_values(|p: (String, String)| (p.0@, p.1@)) =~= self@.take(i as int));
            }
        }
        proof {
            assert(self@.take(i as int) =~= self@);
        }
        r
    }

    /// Replaces whole-word matches of the entries in `text`.
    pub fn apply(&self, text: &str) -> (r: String)
        requires
            self.wf(),
        ensures
            r@ == user_dict_applied(text@, cached(self@)),
    {
        let s = to_chars(text);
        let mut out: Vec<char> = Vec::new();
        let mut last: usize = 0;
        let mut e: usize = 0;
        let ghost cache = cache_views(self.cache@);
        proof {
            assert(cache.take(0) =~= seq![]);
            assert(out@ =~= seq![]);
        }
        while e < self.cache.len()
            invariant
                e <= self.cache@.len(),
                cache == cache_views(self.cache@),
                s@ == text@,
                last <= s@.len(),
                take_entries(s@, (seq![], 0), cache.take(e as int)) == (out@, last as int),
            decreases self.cache@.len() - e,
        {
            let entry = &self.cache[e];
            let ms = find_all(&entry.pattern, text);
            let ghost src = entry.pattern@;
            let ghost value = entry.value@;
            let ghost cms = char_matches(src, s@);
            let ghost st0 = (out@, last as int);
            let mut j: usize = 0;
            proof {
                assert(cms.take(0) =~= seq![]);
            }
            while j < ms.len()
                invariant
                    j <= ms@.len(),
                    s@ == text@,
                    ms@ == regex_find_all(src, text@),
                    cms == char_matches(src, s@),
                    value == entry.value@,
                    forall|i: int|
                        0 <= i < ms@.len() ==> (#[trigger] ms@[i]).0 <= ms@[i].1 && (exists|k: int|
                            is_char_boundary(text@, ms@[i].0 as int, k)) && (exists|k: int|
                            is_char_boundary(text@, ms@[i].1 as int, k)),
                    last <= s@.len(),
                    take_matches(s@, st0, cms.take(j as int), value) == (out@, last as int),
                decreases ms@.len() - j,
            {
                let (bs, be) = ms[j];
                let cs = char_index_of(s.as_slice(), bs);
                let ce = char_index_of(s.as_slice(), be);
                proof {
                    assert(cms.take(j + 1).drop_last() =~= cms.take(j as int));
                    assert(cms.take(j + 1).last() == (cs as int, ce as int));
                    if ce < cs {
                        lemma_utf8_len_strict(s@, ce as int, cs as int);
                    }
                }
                if cs >= last {
                    let left = cs == 0 || !is_alphabetic(s[cs - 1]);
                    let right = ce == s.len() || !is_alphabetic(s[ce]);
                    if left && right {
                        let piece = sub_chars(s.as_slice(), last, cs);
                        push_all(&mut out, piece.as_slice());
                        push_all(&mut out, entry.value.as_slice());
                        last = ce;
                    }
                }
                j = j + 1;
            }
            proof {
                assert(cms.take(j as int) =~= cms);
                assert(cache.take(e + 1).drop_last() =~= cache.take(e as int));
                assert(cache.take(e + 1).last() == (src, value));
            }
            e = e + 1;
        }
        proof {
            assert(cache.take(e as int) =~= cache);
        }
        let rest = sub_chars(s.as_slice(), last, s.len());
        push_all(&mut out, rest.as_slice());
        proof {
            assert(s@.subrange(last as int, s@.len() as int) =~= s@.skip(last as int));
        }
        to_string(out.as_slice())
    }
}

/// The pairs with their keys lower-cased.
pub open spec fn lowered(pairs: Seq<(String, String)>) -> Seq<(Seq<char>, Seq<char>)> {
    pairs.map_values(|p: (String, String)| (lowercase(p.0@), p.1@))
}

/// Every key of the pairs is a key of their map.
proof fn lemma_pair_map_keys(v: Seq<(String, String)>)
    ensures
        forall|j: int| 0 <= j < v.len() ==> pair_map(v).contains_key(#[trigger] v[j].0@),
    decreases v.len(),
{
    if v.len() > 0 {
        lemma_pair_map_keys(v.drop_last());
        assert forall|j: int| 0 <= j < v.len() implies pair_map(v).contains_key(#[trigger] v[j].0@) by {
            if j < v.len() - 1 {
                assert(v.drop_last()[j] == v[j]);
            }
        }
    }
}

/// The last pair whose key lower-cases like `k` is the pair of `k` itself
/// when no other key lower-cases alike.
proof fn lemma_lookup_lowered(v: Seq<(String, String)>, k: Seq<char>)
    requires
        pair_map(v).contains_key(k),
        forall|j: int| 0 <= j < v.len() && lowercase(v[j].0@) == lowercase(k) ==> v[j].0@ == k,
    ensures
        lookup(lowered(v), lowercase(k)) == Some(pair_map(v)[k]),
    decreases v.len(),
{
    let lw = lowered(v);
    let d = v.drop_last();
    assert(lw.drop_last() =~= lowered(d));
    assert(lw.last() == (lowercase(v.last().0@), v.last().1@));
    if lowercase(v.last().0@) != lowercase(k) {
        assert(v.last().0@ != k);
        assert forall|j: int| 0 <= j < d.len() && lowercase(d[j].0@) == lowercase(k) implies d[j].0@ == k by {
            assert(d[j] == v[j]);
        }
        lemma_lookup_lowered(d, k);
    } else {
        assert(v[v.len() - 1] == v.last());
    }
}

/// The entries after upserting the first `n` pairs, keys lower-cased.
pub open spec fn upsert_all(es: Seq<(Seq<char>, Seq<char>)>, pairs: Seq<(String, String)>, n: int) -> Seq<
    (Seq<char>, Seq<char>),
>
    decreases n,
{
    if n <= 0 {
        es
    } else {
        upsert(upsert_all(es, pairs, n - 1), lowercase(pairs[n - 1].0@), pairs[n - 1].1@)
    }
}

proof fn lemma_find_key_unique(es: Seq<(Seq<char>, Seq<char>)>, key: Seq<char>, i: int)
    requires
        sorted_distinct(es),
        0 <= i < es.len(),
        es[i].0 == key,
    ensures
        find_key(es, key) == Some(i),
    decreases es.len(),
{
    if es.last().0 != key {
        assert(i < es.len() - 1);
        let d = es.drop_last();
        assert(sorted_distinct(d)) by {
            assert forall|a: int, b: int| 0 <= a < b < d.len() implies (#[trigger] d[a]).0 != (
            #[trigger] d[b]).0 && utf8_len(d[a].0) >= utf8_len(d[b].0) by {
                assert(d[a] == es[a] && d[b] == es[b]);
            }
        }
        assert(d[i] == es[i]);
        lemma_find_key_unique(d, key, i);
    } else {
        if i != es.len() - 1 {
            assert(es[i].0 != es[es.len() - 1].0);
        }
    }
}

proof fn lemma_find_key_absent(es: Seq<(Seq<char>, Seq<char>)>, key: Seq<char>)
    requires
        forall|k: int| 0 <= k < es.len() ==> es[k].0 != key,
    ensures
        find_key(es, key) is None,
    decreases es.len(),
{
    if es.len() > 0 {
        let d = es.drop_last();
        assert(es[es.len() - 1] == es.last());
        assert forall|k: int| 0 <= k < d.len() implies d[k].0 != key by {
            assert(d[k] == es[k]);
        }
        lemma_find_key_absent(d, key);
    }
}

/// The replacement the entries bind to `key`, if any.
pub open spec fn binding(es: Seq<(Seq<char>, Seq<char>)>, key: Seq<char>) -> Option<Seq<char>> {
    match find_key(es, key) {
        Some(i) => Some(es[i].1),
        None => None,
    }
}

proof fn lemma_find_key_only(es: Seq<(Seq<char>, Seq<char>)>, key: Seq<char>, i: int)
    requires
        0 <= i < es.len(),
        es[i].0 == key,
        forall|j: int| 0 <= j < es.len() && j != i ==> es[j].0 != key,
    ensures
        find_key(es, key) == Some(i),
    decreases es.len(),
{
    if i < es.len() - 1 {
        let d = es.drop_last();
        assert(es[es.len() - 1] == es.last());
        assert forall|j: int| 0 <= j < d.len() && j != i implies d[j].0 != key by {
            assert(d[j] == es[j]);
        }
        assert(d[i] == es[i]);
        lemma_find_key_only(d, key, i);
    }
}

proof fn lemma_find_key_some(es: Seq<(Seq<char>, Seq<char>)>, key: Seq<char>)
    ensures
        find_key(es, key) matches Some(i) ==> 0 <= i < es.len() && es[i].0 == key,
    decreases es.len(),
{
    if es.len() > 0 && es.last().0 != key {
        let d = es.drop_last();
        lemma_find_key_some(d, key);
        if let Some(i) = find_key(d, key) {
            assert(d[i] == es[i]);
        }
    }
}

/// Adding an entry binds its key to its replacement and leaves every other
/// key's replacement as it was: a later lookup of the key gives the new value.
pub proof fn lemma_upsert_binds(
    es: Seq<(Seq<char>, Seq<char>)>,
    key: Seq<char>,
    value: Seq<char>,
    other: Seq<char>,
)
    requires
        sorted_distinct(es),
    ensures
        binding(upsert(es, key, value), key) == Some(value),
        other != key ==> binding(upsert(es, key, value), other) == binding(es, other),
{
    let ne = upsert(es, key, value);
    lemma_find_key_some(es, key);
    lemma_find_key_some(es, other);
    match find_key(es, key) {
        Some(i) => {
            assert(ne == es.update(i, (key, value)));
            assert forall|j: int| 0 <= j < ne.len() && j != i implies ne[j].0 != key by {
                assert(es[j].0 != es[i].0);
            }
            lemma_find_key_only(ne, key, i);
            if other != key {
                match find_key(es, other) {
                    Some(k) => {
                        assert forall|j: int| 0 <= j < es.len() && j != k implies es[j].0 != other by {
                            assert(es[j].0 != es[k].0);
                        }
                        assert(k != i);
                        assert forall|j: int| 0 <= j < ne.len() && j != k implies ne[j].0 != other by {
                            if j != i {
                                assert(ne[j] == es[j]);
                            }
                        }
                        lemma_find_key_only(ne, other, k);
                    },
                    None => {
                        assert forall|j: int| 0 <= j < ne.len() implies ne[j].0 != other by {
                            if j != i {
                                assert(ne[j] == es[j]);
                                if es[j].0 == other {
                                    lemma_find_key_only(es, other, j);
                                }
                            }
                        }
                        lemma_find_key_absent(ne, other);
                    },
                }
            }
        },
        None => {
            let p = insert_position(es, utf8_len(key));
            lemma_insert_position_bounds(es, utf8_len(key));
            assert(ne == es.insert(p, (key, value)));
            assert forall|j: int| 0 <= j < es.len() implies es[j].0 != key by {
                if es[j].0 == key {
                    lemma_find_key_unique(es, key, j);
                }
            }
            assert forall|j: int| 0 <= j < ne.len() && j != p implies ne[j].0 != key by {
                if j < p {
                    assert(ne[j] == es[j]);
                } else {
                    assert(ne[j] == es[j - 1]);
                }
            }
            lemma_find_key_only(ne, key, p);
            if other != key {
                match find_key(es, other) {
                    Some(k) => {
                        assert forall|j: int| 0 <= j < es.len() && j != k implies es[j].0 != other by {
                            assert(es[j].0 != es[k].0);
                        }
                        let nk = if k < p { k } else { k + 1 };
                        assert(ne[nk] == es[k]);
                        assert forall|j: int| 0 <= j < ne.len() && j != nk implies ne[j].0 != other by {
                            if j < p {
                                assert(ne[j] == es[j]);
                            } else if j > p {
                                assert(ne[j] == es[j - 1]);
                            }
                        }
                        lemma_find_key_only(ne, other, nk);
                    },
                    None => {
                        assert forall|j: int| 0 <= j < ne.len() implies ne[j].0 != other by {
                            if j < p {
                                assert(ne[j] == es[j]);
                                if es[j].0 == other {
                                    lemma_find_key_only(es, other, j);
                                }
                            } else if j > p {
                                assert(ne[j] == es[j - 1]);
                                if es[j - 1].0 == other {
                                    lemma_find_key_only(es, other, j - 1);
                                }
                            }
                        }
                        lemma_find_key_absent(ne, other);
                    },
                }
            }
        },
    }
}

proof fn lemma_insert_position_bounds(es: Seq<(Seq<char>, Seq<char>)>, n: nat)
    ensures
        0 <= insert_position(es, n) <= es.len(),
    decreases es.len(),
{
    if es.len() > 0 && utf8_len(es[0].0) >= n {
        lemma_insert_position_bounds(es.skip(1), n);
    }
}

/// An empty dictionary leaves every text as it is.
pub proof fn lemma_empty_dictionary_identity(text: Seq<char>)
    ensures
        user_dict_applied(text, cached(Seq::<(Seq<char>, Seq<char>)>::empty())) == text,
{
    assert(text.skip(0) =~= text);
}

/// The match `m` has a letter directly before it or directly after it: it
/// lies inside a longer word.
pub open spec fn inside_word(text: Seq<char>, m: (int, int)) -> bool {
    ||| 0 < m.0 <= text.len() && is_alphabetic_char(text[m.0 - 1])
    ||| 0 <= m.1 < text.len() && is_alphabetic_char(text[m.1])
}

/// Only whole words are replaced: when every match of every entry has a
/// letter directly before or after it, the text is left as it is.
pub proof fn lemma_matches_inside_words_change_nothing(text: Seq<char>, cache: Seq<(Seq<char>, Seq<char>)>)
    requires
        forall|e: int, k: int|
            0 <= e < cache.len() && 0 <= k < char_matches(cache[e].0, text).len() ==> inside_word(
                text,
                #[trigger] char_matches(cache[e].0, text)[k],
            ),
    ensures
        user_dict_applied(text, cache) == text,
{
    lemma_entries_inside_words(text, cache);
    assert(seq![] + text.skip(0) =~= text);
}

proof fn lemma_entries_inside_words(text: Seq<char>, cache: Seq<(Seq<char>, Seq<char>)>)
    requires
        forall|e: int, k: int|
            0 <= e < cache.len() && 0 <= k < char_matches(cache[e].0, text).len() ==> inside_word(
                text,
                #[trigger] char_matches(cache[e].0, text)[k],
            ),
    ensures
        take_entries(text, (seq![], 0), cache) == (Seq::<char>::empty(), 0int),
    decreases cache.len(),
{
    if cache.len() > 0 {
        let d = cache.drop_last();
        assert forall|e: int, k: int|
            0 <= e < d.len() && 0 <= k < char_matches(d[e].0, text).len() implies inside_word(
            text,
            #[trigger] char_matches(d[e].0, text)[k],
        ) by {
            assert(d[e] == cache[e]);
        }
        lemma_entries_inside_words(text, d);
        let ms = char_matches(cache.last().0, text);
        assert forall|k: int| 0 <= k < ms.len() implies inside_word(text, #[trigger] ms[k]) by {
            assert(cache[cache.len() - 1] == cache.last());
        }
        lemma_matches_inside_words(text, ms, cache.last().1);
    }
}

proof fn lemma_matches_inside_words(text: Seq<char>, ms: Seq<(int, int)>, value: Seq<char>)
    requires
        forall|k: int| 0 <= k < ms.len() ==> inside_word(text, #[trigger] ms[k]),
    ensures
        take_matches(text, (seq![], 0), ms, value) == (Seq::<char>::empty(), 0int),
    decreases ms.len(),
{
    if ms.len() > 0 {
        let d = ms.drop_last();
        assert forall|k: int| 0 <= k < d.len() implies inside_word(text, #[trigger] d[k]) by {
            assert(d[k] == ms[k]);
        }
        lemma_matches_inside_words(text, d, value);
        assert(inside_word(text, ms[ms.len() - 1]));
    }
}

} // verus!
