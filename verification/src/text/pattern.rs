//! Regular expressions (the `regex` crate) as the text fixes use them.
use vstd::prelude::*;

use crate::text::chars::{to_chars, to_string};
use crate::text::unicode::utf8_len;

verus! {

#[verifier::external_type_specification]
#[verifier::external_body]
pub struct ExRegex(regex::Regex);

/// Whether `regex::Regex::new` accepts a pattern.
pub uninterp spec fn regex_compiles(source: Seq<char>) -> bool;

/// What `regex::Regex::replace_all` returns for the regex compiled from
/// `source`, a haystack and a replacement string (with `$n` group references).
pub uninterp spec fn regex_replace_all(
    source: Seq<char>,
    haystack: Seq<char>,
    replacement: Seq<char>,
) -> Seq<char>;

/// The `(start, end)` byte offsets that `regex::Regex::find_iter` yields for
/// the regex compiled from `source` on a haystack.
pub uninterp spec fn regex_find_all(source: Seq<char>, haystack: Seq<char>) -> Seq<(usize, usize)>;

/// A compiled regular expression together with the text it was compiled from.
pub struct Pattern {
    source: String,
    re: regex::Regex,
}

impl View for Pattern {
    type V = Seq<char>;

    closed spec fn view(&self) -> Seq<char> {
        self.source@
    }
}

/// Characters that `regex::escape` prefixes with a backslash.
pub open spec fn is_regex_meta(c: char) -> bool {
    c == '\\' || c == '.' || c == '+' || c == '*' || c == '?' || c == '(' || c == ')' || c == '|'
        || c == '[' || c == ']' || c == '{' || c == '}' || c == '^' || c == '$' || c == '#' || c
        == '&' || c == '-' || c == '~'
}

/// `s` with a backslash before every regex meta character.
pub open spec fn escaped(s: Seq<char>) -> Seq<char>
    decreases s.len(),
{
    if s.len() == 0 {
        seq![]
    } else if is_regex_meta(s.last()) {
        escaped(s.drop_last()) + seq!['\\', s.last()]
    } else {
        escaped(s.drop_last()).push(s.last())
    }
}

/// `k` is the number of characters of `s` whose UTF-8 encoding takes `b` bytes.
pub open spec fn is_char_boundary(s: Seq<char>, b: int, k: int) -> bool {
    0 <= k <= s.len() && utf8_len(s.take(k)) == b
}

/// Compiles `source` with `regex::Regex::new`; `None` when the crate refuses it
/// (a syntax error or a regex over its size limit).
#[verifier::external_body]
pub(crate) fn compile(source: String) -> (r: Option<Pattern>)
    ensures
        r is Some <==> regex_compiles(source@),
        r matches Some(p) ==> p@ == source@,
{
    match regex::Regex::new(&source) {
        Ok(re) => Some(Pattern { source, re }),
        Err(_) => None,
    }
}

/// `regex::Regex::replace_all`: every non-overlapping match replaced by
/// `replacement`; the contract only ties the result to that function of the
/// pattern source, the haystack and the replacement.
#[verifier::external_body]
pub(crate) fn replace_all(p: &Pattern, haystack: &str, replacement: &str) -> (r: String)
    ensures
        r@ == regex_replace_all(p@, haystack@, replacement@),
{
    p.re.replace_all(haystack, replacement).into_owned()
}

/// `regex::Regex::find_iter`, each match as its byte offsets. As the crate
/// documents, matches come in order without overlapping, and their offsets lie
/// on character boundaries of the haystack with `start <= end`.
#[verifier::external_body]
pub(crate) fn find_all(p: &Pattern, haystack: &str) -> (r: Vec<(usize, usize)>)
    ensures
        r@ == regex_find_all(p@, haystack@),
        forall|i: int|
            0 <= i < r@.len() ==> (#[trigger] r@[i]).0 <= r@[i].1 && (exists|k: int|
                is_char_boundary(haystack@, r@[i].0 as int, k)) && (exists|k: int|
                is_char_boundary(haystack@, r@[i].1 as int, k)),
        forall|i: int| 0 <= i < r@.len() - 1 ==> (#[trigger] r@[i]).1 <= r@[i + 1].0,
{
    p.re.find_iter(haystack).map(|m| (m.start(), m.end())).collect()
}

/// `regex::escape`: a backslash before each regex meta character.
#[verifier::external_body]
pub(crate) fn escape(s: &str) -> (r: String)
    ensures
        r@ == escaped(s@),
{
    regex::escape(s)
}

/// `regex_replace_all` on a character vector.
pub(crate) fn replace_in_chars(p: &Pattern, s: &[char], replacement: &str) -> (r: Vec<char>)
    ensures
        r@ == regex_replace_all(p@, s@, replacement@),
{
    let hay = to_string(s);
    let out = replace_all(p, hay.as_str(), replacement);
    to_chars(out.as_str())
}

} // verus!
