//! Capitalising the first letter, closing the sentence, tidying punctuation.
use vstd::prelude::*;

use crate::text::chars::{push_all, to_chars, to_string, trim, trim_chars};
use crate::text::pattern::{regex_replace_all, replace_in_chars};
use crate::text::rules::{double_comma_source, space_before_punct_source, TextRules};
use crate::text::unicode::{is_lowercase, is_lowercase_char, uppercase_char, uppercase_of};

verus! {

/// Characters that may end a sentence as it is.
pub open spec fn is_closing(c: char) -> bool {
    c == '.' || c == '!' || c == '?' || c == ',' || c == ';' || c == ':' || c == ')' || c == ']'
        || c == '}'
}

/// The trimmed text with its first letter upper-cased when it is lower-case.
pub open spec fn capitalised(t: Seq<char>) -> Seq<char> {
    if t.len() > 0 && is_lowercase_char(t[0]) {
        uppercase_char(t[0]) + t.skip(1)
    } else {
        t
    }
}

/// `t` closed with a full stop unless it already ends with a closing mark.
pub open spec fn closed_sentence(t: Seq<char>) -> Seq<char> {
    if t.len() > 0 && is_closing(t.last()) {
        t
    } else {
        t.push('.')
    }
}

/// The text after the punctuation fix.
pub open spec fn punctuation_fixed(text: Seq<char>) -> Seq<char> {
    let t = trim(text);
    if t.len() == 0 {
        seq![]
    } else {
        let a = closed_sentence(capitalised(t));
        let b = regex_replace_all(space_before_punct_source(), a, "$1"@);
        regex_replace_all(double_comma_source(), b, ","@)
    }
}

/// Trims the text; a non-empty one gets its first letter upper-cased, a full
/// stop unless it ends with `. ! ? , ; : ) ] }`, no whitespace before
/// `. , ! ? ; :`, and runs of commas merged into one.
pub fn fix_punctuation(text: &str, rules: &TextRules) -> (r: String)
    requires
        rules.wf(),
    ensures
        r@ == punctuation_fixed(text@),
{
    let t = trim_chars(to_chars(text).as_slice());
    if t.len() == 0 {
        let e: Vec<char> = Vec::new();
        return to_string(e.as_slice());
    }
    let first = t[0];
    let mut result: Vec<char>;
    if is_lowercase(first) {
        result = uppercase_of(first);
        let mut rest: Vec<char> = Vec::new();
        let mut k: usize = 1;
        while k < t.len()
            invariant
                1 <= k <= t@.len(),
                rest@ == t@.subrange(1, k as int),
            decreases t@.len() - k,
        {
            rest.push(t[k]);
            k = k + 1;
            proof {
                assert(rest@ =~= t@.subrange(1, k as int));
            }
        }
        push_all(&mut result, rest.as_slice());
        proof {
            assert(t@.subrange(1, t@.len() as int) =~= t@.skip(1));
        }
    } else {
        result = t;
    }
    let closes = result.len() > 0 && {
        let c = result[result.len() - 1];
        c == '.' || c == '!' || c == '?' || c == ',' || c == ';' || c == ':' || c == ')' || c == ']'
            || c == '}'
    };
    if !closes {
        result.push('.');
    }
    let b = replace_in_chars(rules.space_before_punct(), result.as_slice(), "$1");
    let c = replace_in_chars(rules.double_comma(), b.as_slice(), ",");
    to_string(c.as_slice())
}

/// The tidying that follows: whitespace before `. , ! ? ; :` dropped, then
/// runs of commas merged.
pub open spec fn tidied(a: Seq<char>) -> Seq<char> {
    regex_replace_all(double_comma_source(), regex_replace_all(space_before_punct_source(), a, "$1"@), ","@)
}

/// A sentence already closed keeps its end: when the capitalised text ends
/// with one of `. ! ? , ; : ) ] }` no full stop is added, and otherwise
/// exactly one is, before the tidying. Capitalising touches only the first
/// character, so a text of two or more characters keeps its last one.
pub proof fn lemma_sentence_end(text: Seq<char>)
    requires
        trim(text).len() > 0,
    ensures
        ({
            let a = capitalised(trim(text));
            a.len() > 0 && (a.last() == '.' || a.last() == '!' || a.last() == '?' || a.last() == ','
                || a.last() == ';' || a.last() == ':' || a.last() == ')' || a.last() == ']'
                || a.last() == '}')
        }) ==> punctuation_fixed(text) == tidied(capitalised(trim(text))),
        !({
            let a = capitalised(trim(text));
            a.len() > 0 && (a.last() == '.' || a.last() == '!' || a.last() == '?' || a.last() == ','
                || a.last() == ';' || a.last() == ':' || a.last() == ')' || a.last() == ']'
                || a.last() == '}')
        }) ==> punctuation_fixed(text) == tidied(capitalised(trim(text)).push('.')),
        trim(text).len() >= 2 ==> capitalised(trim(text)).last() == trim(text).last(),
{
    let t = trim(text);
    if t.len() >= 2 && is_lowercase_char(t[0]) {
        let a = uppercase_char(t[0]) + t.skip(1);
        assert(a.last() == t.skip(1).last());
    }
}

} // verus!
