//! Simulated input that is only reported: each call gives the line the
//! application writes to its log.
use vstd::prelude::*;

use crate::text::chars::{push_all, to_chars, to_string};

verus! {

/// What `format!("{:?}", ..)` writes for a list of strings.
pub uninterp spec fn debug_listing(items: Seq<Seq<char>>) -> Seq<char>;

/// `format!("{:?}", items)`: std's `Debug` rendering of a slice of strings.
#[verifier::external_body]
fn debug_list(items: &[&str]) -> (r: String)
    ensures
        r@ == debug_listing(items@.map_values(|s: &str| s@)),
{
    format!("{:?}", items)
}

/// `prefix` followed by `rest`, as a string.
fn joined(prefix: &str, rest: &str) -> (r: String)
    ensures
        r@ == prefix@ + rest@,
{
    let mut v = to_chars(prefix);
    push_all(&mut v, to_chars(rest).as_slice());
    to_string(v.as_slice())
}

/// Input simulation that reports what it would do.
pub struct InputSimulation;

impl InputSimulation {
    pub fn new() -> (r: Self) {
        InputSimulation
    }

    /// The report of a key press.
    pub fn key_click(&self, key: &str) -> (r: String)
        ensures
            r@ == "Нажатие клавиши: "@ + key@,
    {
        joined("Нажатие клавиши: ", key)
    }

    /// The report of a key sequence.
    pub fn key_sequence(&self, keys: &[&str]) -> (r: String)
        ensures
            r@ == "Последовательность клавиш: "@ + debug_listing(keys@.map_values(|s: &str| s@)),
    {
        let listing = debug_list(keys);
        joined("Последовательность клавиш: ", listing.as_str())
    }

    /// The report of typed text.
    pub fn type_text(&self, text: &str) -> (r: String)
        ensures
            r@ == "Ввод текста: "@ + text@,
    {
        joined("Ввод текста: ", text)
    }
}

} // verus!
