use vstd::prelude::*;

pub mod aliases;
pub mod chars;
pub mod dictionary;
pub mod hallucinations;
pub mod json;
pub mod lexical;
pub mod pattern;
pub mod phrase_file;
pub mod punctuation;
pub mod repetitions;
pub mod rules;
pub mod space_fixer;
pub mod string_map;
pub mod unicode;
pub mod user_dict;

use crate::config::TextFixConfig;
use crate::text::chars::{lemma_trim_idempotent, to_chars, to_string, trim, trim_chars};
use crate::text::hallucinations::{hallucinations_removed, remove_hallucinations};
use crate::text::punctuation::{fix_punctuation, punctuation_fixed};
use crate::text::repetitions::{fix_repetitions, repetitions_fixed};
use crate::text::rules::TextRules;
use crate::text::user_dict::{cached, user_dict_applied, UserDict};

verus! {

/// The text after the enabled fixes: hallucinations, user dictionary,
/// repetitions, punctuation, in that order; then trimmed, with a trailing
/// space when configured and the text is not empty.
pub open spec fn text_fixed(
    text: Seq<char>,
    config: TextFixConfig,
    dict: Seq<(Seq<char>, Seq<char>)>,
    ends: Seq<Seq<char>>,
    mids: Seq<Seq<char>>,
) -> Seq<char> {
    let a = if config.fix_hallucinations {
        hallucinations_removed(text, ends, mids)
    } else {
        text
    };
    let b = if config.fix_user_dict {
        user_dict_applied(a, cached(dict))
    } else {
        a
    };
    let c = if config.fix_repetitions {
        repetitions_fixed(b)
    } else {
        b
    };
    let d = if config.fix_punctuation {
        punctuation_fixed(c)
    } else {
        c
    };
    let e = trim(d);
    if config.trailing_space && e.len() > 0 {
        e.push(' ')
    } else {
        e
    }
}

/// Runs the enabled text fixes on a recognised phrase.
pub fn fix_text(text: &str, config: &TextFixConfig, user_dict: &UserDict, rules: &TextRules) -> (r: String)
    requires
        user_dict.wf(),
        rules.wf(),
    ensures
        r@ == text_fixed(text@, *config, user_dict@, rules.end_view(), rules.mid_view()),
{
    let mut t = to_string(to_chars(text).as_slice());
    if config.fix_hallucinations {
        t = remove_hallucinations(t.as_str(), rules);
    }
    if config.fix_user_dict {
        t = user_dict.apply(t.as_str());
    }
    if config.fix_repetitions {
        t = fix_repetitions(t.as_str());
    }
    if config.fix_punctuation {
        t = fix_punctuation(t.as_str(), rules);
    }
    let mut out = trim_chars(to_chars(t.as_str()).as_slice());
    if config.trailing_space && out.len() > 0 {
        out.push(' ');
    }
    to_string(out.as_slice())
}

/// With every fix off and no trailing space, a text is only trimmed.
pub proof fn lemma_fixes_off_only_trim(
    text: Seq<char>,
    dict: Seq<(Seq<char>, Seq<char>)>,
    ends: Seq<Seq<char>>,
    mids: Seq<Seq<char>>,
)
    ensures
        text_fixed(
            text,
            TextFixConfig {
                fix_hallucinations: false,
                fix_user_dict: false,
                fix_repetitions: false,
                fix_punctuation: false,
                trailing_space: false,
            },
            dict,
            ends,
            mids,
        ) == trim(text),
{
}

/// A fixed text is trimmed: without a trailing space configured it has no
/// surrounding whitespace; with one, it is such a text followed by exactly
/// one space (or empty).
pub proof fn lemma_fixed_text_trimmed(
    text: Seq<char>,
    config: TextFixConfig,
    dict: Seq<(Seq<char>, Seq<char>)>,
    ends: Seq<Seq<char>>,
    mids: Seq<Seq<char>>,
)
    ensures
        !config.trailing_space ==> trim(text_fixed(text, config, dict, ends, mids)) == text_fixed(
            text,
            config,
            dict,
            ends,
            mids,
        ),
        config.trailing_space && text_fixed(text, config, dict, ends, mids).len() > 0 ==> ({
            let r = text_fixed(text, config, dict, ends, mids);
            &&& r.last() == ' '
            &&& r.drop_last().len() > 0
            &&& trim(r.drop_last()) == r.drop_last()
        }),
{
    let a = if config.fix_hallucinations {
        hallucinations_removed(text, ends, mids)
    } else {
        text
    };
    let b = if config.fix_user_dict {
        user_dict_applied(a, cached(dict))
    } else {
        a
    };
    let c = if config.fix_repetitions {
        repetitions_fixed(b)
    } else {
        b
    };
    let d = if config.fix_punctuation {
        punctuation_fixed(c)
    } else {
        c
    };
    lemma_trim_idempotent(d);
    let e = trim(d);
    if config.trailing_space && e.len() > 0 {
        assert(e.push(' ').drop_last() =~= e);
    }
}

} // verus!
