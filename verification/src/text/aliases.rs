//! Corrections of commonly misheard phrases.
use vstd::prelude::*;

use crate::text::chars::to_chars;
use crate::text::json::{distinct_keys, json_string_map, pair_map, parse_string_map};
use crate::text::string_map::StringMap;
use crate::text::unicode::{lowercase, lowercase_chars};

verus! {

/// Misheard phrases and their corrections, both lower-cased.
pub struct Aliases {
    map: StringMap,
}

impl View for Aliases {
    type V = Seq<(Seq<char>, Seq<char>)>;

    /// The pairs; a later pair with the same phrase wins.
    closed spec fn view(&self) -> Seq<(Seq<char>, Seq<char>)> {
        self.map@
    }
}

impl Aliases {
    /// No aliases.
    pub fn new() -> (r: Self)
        ensures
            r@ == Seq::<(Seq<char>, Seq<char>)>::empty(),
    {
        Aliases { map: StringMap::new() }
    }

    /// Replaces the aliases with `pairs`, both sides lower-cased.
    pub fn set_pairs(&mut self, pairs: &Vec<(String, String)>)
        ensures
            final(self)@ == pairs@.map_values(|p: (String, String)| (lowercase(p.0@), lowercase(p.1@))),
    {
        self.map.clear();
        let mut i: usize = 0;
        while i < pairs.len()
            invariant
                i <= pairs@.len(),
                self@ == pairs@.take(i as int).map_values(
                    |p: (String, String)| (lowercase(p.0@), lowercase(p.1@)),
                ),
            decreases pairs@.len() - i,
        {
            let k = lowercase_chars(to_chars(pairs[i].0.as_str()).as_slice());
            let v = lowercase_chars(to_chars(pairs[i].1.as_str()).as_slice());
            self.map.insert(k, v);
            i = i + 1;
            proof {
                assert(self@ =~= pairs@.take(i as int).map_values(
                    |p: (String, String)| (lowercase(p.0@), lowercase(p.1@)),
                ));
            }
        }
        proof {
            assert(pairs@.take(i as int) =~= pairs@);
        }
    }

    /// Loads the aliases from a flat JSON document, an object of
    /// corrections by misheard phrase: the aliases become its pairs,
    /// lower-cased, in an order that is left open, and the result is `true`.
    /// Any other document clears the aliases and gives `false`.
    pub fn load_json(&mut self, doc: &str) -> (ok: bool)
        ensures
            ok == json_string_map(doc@) is Some,
            !ok ==> final(self)@ == Seq::<(Seq<char>, Seq<char>)>::empty(),
            ok ==> exists|v: Seq<(String, String)>|
                #[trigger] pair_map(v) == json_string_map(doc@)->0 && distinct_keys(v) && final(self)@
                    == v.map_values(|p: (String, String)| (lowercase(p.0@), lowercase(p.1@))),
    {
        match parse_string_map(doc) {
            Some(v) => {
                self.set_pairs(&v);
                assert(pair_map(v@) == json_string_map(doc@)->0);
                true
            },
            None => {
                self.map.clear();
                false
            },
        }
    }
}

} // verus!
