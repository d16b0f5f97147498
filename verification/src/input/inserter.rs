//! Typing recognised text: the text that is pasted (with a space in front
//! when the caret follows a word) and the key strokes that paste it.
use vstd::prelude::*;

use crate::text::chars::{push_all, to_chars, to_string};

verus! {

/// The Ctrl virtual-key code.
pub const VK_CONTROL: u16 = 0x11;

/// The V virtual-key code.
pub const VK_V: u16 = 0x56;

/// The Backspace virtual-key code.
pub const VK_BACK: u16 = 0x08;

/// A synthesized key stroke.
#[derive(Debug, Clone, Copy, PartialEq, Eq, Structural)]
pub enum KeyEvent {
    Down(u16),
    Up(u16),
}

/// The strokes of Ctrl+V: Ctrl down, V down, V up, Ctrl up.
pub fn send_ctrl_v() -> (r: Vec<KeyEvent>)
    ensures
        r@ == seq![
            KeyEvent::Down(VK_CONTROL),
            KeyEvent::Down(VK_V),
            KeyEvent::Up(VK_V),
            KeyEvent::Up(VK_CONTROL),
        ],
{
    let mut r: Vec<KeyEvent> = Vec::new();
    r.push(KeyEvent::Down(VK_CONTROL));
    r.push(KeyEvent::Down(VK_V));
    r.push(KeyEvent::Up(VK_V));
    r.push(KeyEvent::Up(VK_CONTROL));
    r
}

/// The strokes of `count` Backspaces: a press and a release each.
pub fn send_backspace(count: usize) -> (r: Vec<KeyEvent>)
    requires
        count <= usize::MAX / 2,
    ensures
        r@.len() == 2 * count,
        forall|j: int| 0 <= j < r@.len() ==> #[trigger] r@[j] == (if j % 2 == 0 { KeyEvent::Down(VK_BACK) } else { KeyEvent::Up(VK_BACK) }),
{
    let mut r: Vec<KeyEvent> = Vec::new();
    let mut k: usize = 0;
    while k < count
        invariant
            k <= count,
            count <= usize::MAX / 2,
            r@.len() == 2 * k,
            forall|j: int| 0 <= j < r@.len() ==> #[trigger] r@[j] == (if j % 2 == 0 { KeyEvent::Down(VK_BACK) } else { KeyEvent::Up(VK_BACK) }),
        decreases count - k,
    {
        r.push(KeyEvent::Down(VK_BACK));
        r.push(KeyEvent::Up(VK_BACK));
        k = k + 1;
    }
    r
}

/// A space goes in front of the pasted text when the UTF-16 unit before the
/// caret is a character other than a space or a tab (0 means none).
pub open spec fn space_needed(prev: u16) -> bool {
    prev != 0 && prev != 0x20 && prev != 0x09
}

/// The text to paste after the unit `prev` that precedes the caret.
pub open spec fn pasted_text(text: Seq<char>, prev: u16) -> Seq<char> {
    if space_needed(prev) {
        seq![' '] + text
    } else {
        text
    }
}

/// Whether a space goes in front of the pasted text.
pub fn needs_space_before(prev: u16) -> (r: bool)
    ensures
        r == space_needed(prev),
{
    prev != 0 && prev != 0x20 && prev != 0x09
}

/// Types text into the focused window by pasting it.
pub struct TextInserter;

impl TextInserter {
    pub fn new() -> (r: Self) {
        TextInserter
    }

    /// The text to paste when `prev` is the UTF-16 unit before the caret.
    pub fn prepared_text(&self, text: &str, prev: u16) -> (r: String)
        ensures
            r@ == pasted_text(text@, prev),
    {
        if needs_space_before(prev) {
            let mut v: Vec<char> = Vec::new();
            v.push(' ');
            push_all(&mut v, to_chars(text).as_slice());
            proof {
                assert(v@ =~= seq![' '] + text@);
            }
            to_string(v.as_slice())
        } else {
            to_string(to_chars(text).as_slice())
        }
    }
}

} // verus!
