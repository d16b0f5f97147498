//! Math mode: spoken numbers and operators become symbols ("два плюс три" is "2 + 3").
use vstd::prelude::*;

use crate::text::chars::{replace_all, replace_chars, to_chars, to_string};

verus! {

/// Spoken numerals and their digits. "восемь" comes before "семь", which it contains.
pub open spec fn numerals() -> Seq<(Seq<char>, Seq<char>)> {
    seq![
        ("ноль"@, "0"@), ("один"@, "1"@), ("два"@, "2"@), ("три"@, "3"@), ("четыре"@, "4"@),
        ("пять"@, "5"@), ("шесть"@, "6"@), ("восемь"@, "8"@), ("семь"@, "7"@), ("девять"@, "9"@),
        ("десять"@, "10"@),
    ]
}

/// Spoken operators and their symbols.
pub open spec fn operators() -> Seq<(Seq<char>, Seq<char>)> {
    seq![("плюс"@, "+"@), ("минус"@, "-"@), ("умножить"@, "*"@), ("разделить"@, "/"@), ("равно"@, "="@)]
}

/// `s` with each word of `table`, in order, replaced everywhere by its symbol.
pub open spec fn replace_table(s: Seq<char>, table: Seq<(Seq<char>, Seq<char>)>) -> Seq<char>
    decreases table.len(),
{
    if table.len() == 0 {
        s
    } else {
        replace_all(replace_table(s, table.drop_last()), table.last().0, table.last().1)
    }
}

/// The text of math mode: numerals first, then operators.
pub open spec fn math_converted(s: Seq<char>) -> Seq<char> {
    replace_table(replace_table(s, numerals()), operators())
}

fn apply_pairs(s: Vec<char>, words: &[&str], symbols: &[&str], table: Ghost<Seq<(Seq<char>, Seq<char>)>>) -> (r: Vec<char>)
    requires
        words@.len() == symbols@.len(),
        table@.len() == words@.len(),
        forall|i: int| 0 <= i < words@.len() ==> (#[trigger] table@[i]) == (words@[i]@, symbols@[i]@),
        forall|i: int| 0 <= i < words@.len() ==> (#[trigger] words@[i])@.len() > 0,
    ensures
        r@ == replace_table(s@, table@),
{
    let mut cur = s;
    let mut i: usize = 0;
    while i < words.len()
        invariant
            i <= words@.len(),
            words@.len() == symbols@.len(),
            table@.len() == words@.len(),
            forall|k: int| 0 <= k < words@.len() ==> (#[trigger] table@[k]) == (words@[k]@, symbols@[k]@),
            forall|k: int| 0 <= k < words@.len() ==> (#[trigger] words@[k])@.len() > 0,
            cur@ == replace_table(s@, table@.take(i as int)),
        decreases words@.len() - i,
    {
        proof {
            assert(table@.take(i + 1).drop_last() =~= table@.take(i as int));
            assert(table@.take(i + 1).last() == table@[i as int]);
            assert(words@[i as int]@.len() > 0);
        }
        cur = replace_chars(cur.as_slice(), to_chars(words[i]).as_slice(), to_chars(symbols[i]).as_slice());
        i = i + 1;
    }
    proof {
        assert(table@.take(i as int) =~= table@);
    }
    cur
}

/// Replaces spoken numerals (ноль..десять) by digits and spoken operators
/// (плюс, минус, умножить, разделить, равно) by symbols.
pub fn convert_math(text: &str) -> (r: String)
    ensures
        r@ == math_converted(text@),
{
    let nums: [&str; 11] = ["ноль", "один", "два", "три", "четыре", "пять", "шесть", "восемь", "семь", "девять", "десять"];
    let digits: [&str; 11] = ["0", "1", "2", "3", "4", "5", "6", "8", "7", "9", "10"];
    let ops: [&str; 5] = ["плюс", "минус", "умножить", "разделить", "равно"];
    let syms: [&str; 5] = ["+", "-", "*", "/", "="];
    proof {
        reveal_strlit("ноль");
        reveal_strlit("один");
        reveal_strlit("два");
        reveal_strlit("три");
        reveal_strlit("четыре");
        reveal_strlit("пять");
        reveal_strlit("шесть");
        reveal_strlit("восемь");
        reveal_strlit("семь");
        reveal_strlit("девять");
        reveal_strlit("десять");
        reveal_strlit("плюс");
        reveal_strlit("минус");
        reveal_strlit("умножить");
        reveal_strlit("разделить");
        reveal_strlit("равно");
    }
    let a = apply_pairs(to_chars(text), nums.as_slice(), digits.as_slice(), Ghost(numerals()));
    let b = apply_pairs(a, ops.as_slice(), syms.as_slice(), Ghost(operators()));
    to_string(b.as_slice())
}

} // verus!
