//! A set of known (lower-case) word forms.
use vstd::prelude::*;

use crate::text::chars::{chars_eq, to_chars};
use crate::text::unicode::{lowercase, lowercase_chars};

verus! {

/// Known word forms, stored lower-cased.
pub struct Dictionary {
    words: Vec<Vec<char>>,
}

impl View for Dictionary {
    type V = Set<Seq<char>>;

    closed spec fn view(&self) -> Set<Seq<char>> {
        Set::new(|w: Seq<char>| exists|i: int| 0 <= i < self.words@.len() && self.words@[i]@ == w)
    }
}

impl Dictionary {
    /// A dictionary without words.
    pub fn new() -> (d: Self)
        ensures
            d@ == Set::<Seq<char>>::empty(),
    {
        let d = Dictionary { words: Vec::new() };
        assert(d@ =~= Set::<Seq<char>>::empty());
        d
    }

    /// Adds a word, lower-cased.
    pub fn insert(&mut self, word: &str)
        ensures
            final(self)@ == old(self)@.insert(lowercase(word@)),
    {
        let w = lowercase_chars(to_chars(word).as_slice());
        let ghost before = self.words@;
        self.words.push(w);
        proof {
            assert forall|x: Seq<char>| #[trigger] self@.contains(x) == old(self)@.insert(
                lowercase(word@),
            ).contains(x) by {
                if old(self)@.contains(x) {
                    let i = choose|i: int| 0 <= i < before.len() && before[i]@ == x;
                    assert(self.words@[i] == before[i]);
                }
                if self@.contains(x) && x != lowercase(word@) {
                    let i = choose|i: int| 0 <= i < self.words@.len() && self.words@[i]@ == x;
                    assert(i < before.len());
                    assert(self.words@[i] == before[i]);
                }
                if x == lowercase(word@) {
                    assert(self.words@[before.len() as int]@ == x);
                }
            }
            assert(self@ =~= old(self)@.insert(lowercase(word@)));
        }
    }

    /// A dictionary of the given words, each lower-cased.
    pub fn from_words(words: &[&str]) -> (d: Self)
        ensures
            forall|w: Seq<char>|
                #[trigger] d@.contains(w) <==> exists|i: int|
                    0 <= i < words@.len() && lowercase(words@[i]@) == w,
    {
        let mut d = Dictionary::new();
        let mut i: usize = 0;
        while i < words.len()
            invariant
                i <= words@.len(),
                forall|w: Seq<char>|
                    #[trigger] d@.contains(w) <==> exists|k: int|
                        0 <= k < i && lowercase(words@[k]@) == w,
            decreases words@.len() - i,
        {
            d.insert(words[i]);
            proof {
                assert forall|w: Seq<char>|
                    #[trigger] d@.contains(w) <==> exists|k: int|
                        0 <= k < i + 1 && lowercase(words@[k]@) == w by {
                    if w == lowercase(words@[i as int]@) {
                        assert(0 <= i < i + 1);
                    }
                }
            }
            i = i + 1;
        }
        d
    }

    /// Whether the dictionary holds `word`, lower-cased.
    pub fn contains(&self, word: &str) -> (r: bool)
        ensures
            r == self@.contains(lowercase(word@)),
    {
        self.contains_chars(to_chars(word).as_slice())
    }

    /// Whether the dictionary holds the word made of `word`, lower-cased.
    pub fn contains_chars(&self, word: &[char]) -> (r: bool)
        ensures
            r == self@.contains(lowercase(word@)),
    {
        let lw = lowercase_chars(word);
        let mut i: usize = 0;
        while i < self.words.len()
            invariant
                i <= self.words@.len(),
                lw@ == lowercase(word@),
                forall|k: int| 0 <= k < i ==> self.words@[k]@ != lw@,
            decreases self.words@.len() - i,
        {
            if chars_eq(self.words[i].as_slice(), lw.as_slice()) {
                return true;
            }
            i = i + 1;
        }
        false
    }
}

} // verus!
