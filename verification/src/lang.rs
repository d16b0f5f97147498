//! Localised interface strings: a key is looked up in the loaded locale and
//! stands for itself when it is missing.
use vstd::prelude::*;

use crate::text::chars::{to_chars, to_string};
use crate::text::json::{json_string_map, pair_map, parse_string_map};
use crate::text::string_map::{lookup, StringMap};

verus! {

/// The UTF-16 code units of one character.
pub open spec fn utf16_of_char(c: char) -> Seq<u16> {
    let v = c as u32;
    if v < 0x10000 {
        seq![v as u16]
    } else {
        let w = v - 0x10000;
        seq![(0xD800 + w / 0x400) as u16, (0xDC00 + w % 0x400) as u16]
    }
}

/// The UTF-16 encoding of a character sequence.
pub open spec fn utf16_of(s: Seq<char>) -> Seq<u16>
    decreases s.len(),
{
    if s.len() == 0 {
        seq![]
    } else {
        utf16_of(s.drop_last()) + utf16_of_char(s.last())
    }
}

/// The text shown for `key`: its translation when a locale is loaded and
/// has it, else the key itself.
pub open spec fn translated(locale: Option<Seq<(Seq<char>, Seq<char>)>>, key: Seq<char>) -> Seq<char> {
    match locale {
        Some(pairs) => match lookup(pairs, key) {
            Some(v) => v,
            None => key,
        },
        None => key,
    }
}

/// The loaded locale, if any.
pub struct Locale {
    map: Option<StringMap>,
}

impl View for Locale {
    type V = Option<Seq<(Seq<char>, Seq<char>)>>;

    /// The (key, text) pairs of the loaded locale; a later pair wins.
    closed spec fn view(&self) -> Option<Seq<(Seq<char>, Seq<char>)>> {
        match self.map {
            Some(m) => Some(m@),
            None => None,
        }
    }
}

impl Locale {
    /// No locale loaded.
    pub fn new() -> (r: Self)
        ensures
            r@ is None,
    {
        Locale { map: None }
    }

    /// Loads the (key, text) pairs of a locale, replacing the previous one.
    pub fn load(&mut self, pairs: &Vec<(String, String)>)
        ensures
            final(self)@ == Some(pairs@.map_values(|p: (String, String)| (p.0@, p.1@))),
    {
        let mut m = StringMap::new();
        let mut i: usize = 0;
        while i < pairs.len()
            invariant
                i <= pairs@.len(),
                m@ == pairs@.take(i as int).map_values(|p: (String, String)| (p.0@, p.1@)),
            decreases pairs@.len() - i,
        {
            m.insert(to_chars(pairs[i].0.as_str()), to_chars(pairs[i].1.as_str()));
            i = i + 1;
            proof {
                assert(m@ =~= pairs@.take(i as int).map_values(|p: (String, String)| (p.0@, p.1@)));
            }
        }
        proof {
            assert(pairs@.take(i as int) =~= pairs@);
        }
        self.map = Some(m);
    }
}

impl Locale {
    /// Loads a locale from its JSON document, an object of strings by key,
    /// replacing the previous one; a document that is not such an object
    /// leaves the locale as it was and gives `false`. Once loaded, a key
    /// shows the document's text for it, or itself when the document has none.
    pub fn load_json(&mut self, doc: &str) -> (ok: bool)
        ensures
            ok == json_string_map(doc@) is Some,
            ok ==> exists|v: Seq<(String, String)>|
                #[trigger] pair_map(v) == json_string_map(doc@)->0 && final(self)@ == Some(
                    v.map_values(|p: (String, String)| (p.0@, p.1@)),
                ),
            ok ==> forall|k: Seq<char>|
                #[trigger] translated(final(self)@, k) == (if json_string_map(doc@)->0.contains_key(k) {
                    json_string_map(doc@)->0[k]
                } else {
                    k
                }),
            !ok ==> final(self)@ == old(self)@,
    {
        match parse_string_map(doc) {
            Some(v) => {
                self.load(&v);
                proof {
                    assert forall|k: Seq<char>|
                        #[trigger] translated(self@, k) == (if pair_map(v@).contains_key(k) {
                            pair_map(v@)[k]
                        } else {
                            k
                        }) by {
                        lemma_lookup_pair_map(v@, k);
                    }
                }
                true
            },
            None => false,
        }
    }
}

/// Looking a key up in the pairs gives what their map holds for it.
proof fn lemma_lookup_pair_map(v: Seq<(String, String)>, k: Seq<char>)
    ensures
        lookup(v.map_values(|p: (String, String)| (p.0@, p.1@)), k) == (if pair_map(v).contains_key(k) {
            Some(pair_map(v)[k])
        } else {
            None
        }),
    decreases v.len(),
{
    if v.len() > 0 {
        let w = v.map_values(|p: (String, String)| (p.0@, p.1@));
        assert(w.drop_last() =~= v.drop_last().map_values(|p: (String, String)| (p.0@, p.1@)));
        assert(w.last() == (v.last().0@, v.last().1@));
        lemma_lookup_pair_map(v.drop_last(), k);
    }
}

/// The UTF-16 encoding of `s`.
pub fn encode_utf16(s: &[char]) -> (r: Vec<u16>)
    ensures
        r@ == utf16_of(s@),
{
    let mut r: Vec<u16> = Vec::new();
    let mut i: usize = 0;
    while i < s.len()
        invariant
            i <= s@.len(),
            r@ == utf16_of(s@.take(i as int)),
        decreases s@.len() - i,
    {
        let c = s[i];
        let v = c as u32;
        if v < 0x10000 {
            r.push(v as u16);
        } else {
            let w = v - 0x10000;
            r.push((0xD800 + w / 0x400) as u16);
            r.push((0xDC00 + w % 0x400) as u16);
        }
        proof {
            assert(s@.take(i + 1).drop_last() =~= s@.take(i as int));
            assert(s@.take(i + 1).last() == c);
            assert(r@ =~= utf16_of(s@.take(i as int)) + utf16_of_char(c));
        }
        i = i + 1;
    }
    proof {
        assert(s@.take(i as int) =~= s@);
    }
    r
}

/// The text for `key` in the loaded locale, or the key itself.
pub fn t(locale: &Locale, key: &str) -> (r: String)
    ensures
        r@ == translated(locale@, key@),
{
    let k = to_chars(key);
    match &locale.map {
        Some(m) => match m.get(k.as_slice()) {
            Some(v) => to_string(v.as_slice()),
            None => to_string(k.as_slice()),
        },
        None => to_string(k.as_slice()),
    }
}

/// The text for `key` as UTF-16, followed by a terminating zero unit.
pub fn t_utf16(locale: &Locale, key: &str) -> (r: Vec<u16>)
    ensures
        r@ == utf16_of(translated(locale@, key@)) + seq![0u16],
{
    let text = t(locale, key);
    let mut chars = to_chars(text.as_str());
    chars.push('\0');
    let r = encode_utf16(chars.as_slice());
    proof {
        assert(chars@.drop_last() =~= translated(locale@, key@));
        assert(chars@.last() == '\0');
        assert(utf16_of_char('\0') =~= seq![0u16]) by {
            assert(('\0' as u32) == 0);
        }
    }
    r
}

/// Whether a locale is loaded.
pub fn has_locale(locale: &Locale) -> (r: bool)
    ensures
        r == (locale@ is Some),
{
    locale.map.is_some()
}

/// Every character takes one or two UTF-16 units, so an encoding is at least
/// as long as the text and at most twice as long.
pub proof fn lemma_utf16_len(s: Seq<char>)
    ensures
        s.len() <= utf16_of(s).len() <= 2 * s.len(),
    decreases s.len(),
{
    if s.len() > 0 {
        lemma_utf16_len(s.drop_last());
    }
}

/// Characters below U+10000 take one unit each: for such text the encoding
/// is the code points themselves.
pub proof fn lemma_utf16_bmp(s: Seq<char>)
    requires
        forall|i: int| 0 <= i < s.len() ==> (#[trigger] s[i] as u32) < 0x10000,
    ensures
        utf16_of(s).len() == s.len(),
        forall|i: int| 0 <= i < s.len() ==> #[trigger] utf16_of(s)[i] == s[i] as u32 as u16,
    decreases s.len(),
{
    if s.len() > 0 {
        let d = s.drop_last();
        assert forall|i: int| 0 <= i < d.len() implies (#[trigger] d[i] as u32) < 0x10000 by {
            assert(d[i] == s[i]);
        }
        lemma_utf16_bmp(d);
        assert(s.last() == s[s.len() - 1]);
        assert forall|i: int| 0 <= i < s.len() implies #[trigger] utf16_of(s)[i] == s[i] as u32 as u16 by {
            if i < s.len() - 1 {
                assert(utf16_of(s)[i] == utf16_of(d)[i]);
                assert(d[i] == s[i]);
            }
        }
    }
}

} // verus!
