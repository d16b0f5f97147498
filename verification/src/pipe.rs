//! Signals from the settings window: a short message asks for a reload of
//! the configuration, which the main loop picks up and clears.
use vstd::prelude::*;

use crate::text::chars::{chars_eq, to_chars, trim, trim_chars};

verus! {

/// What `String::from_utf8_lossy` decodes from some bytes.
pub uninterp spec fn lossy_text(bytes: Seq<u8>) -> Seq<char>;

/// `String::from_utf8_lossy`: the text of the bytes, with every invalid
/// sequence replaced by U+FFFD; valid UTF-8 decodes as itself.
#[verifier::external_body]
fn decode_lossy(bytes: &[u8]) -> (r: String)
    ensures
        r@ == lossy_text(bytes@),
        vstd::utf8::valid_utf8(bytes@) ==> r@ == vstd::utf8::decode_utf8(bytes@),
{
    String::from_utf8_lossy(bytes).to_string()
}

/// A message from the settings window.
#[derive(Debug, Clone, Copy, PartialEq, Eq, Structural)]
pub enum PipeMessage {
    /// Reload the configuration.
    Reload,
    /// A connectivity check.
    Debug,
    /// Anything else, ignored.
    Other,
}

/// The meaning of a message text: `reload` or `debug`, surrounding
/// whitespace aside.
pub open spec fn message_kind(text: Seq<char>) -> PipeMessage {
    if trim(text) == "reload"@ {
        PipeMessage::Reload
    } else if trim(text) == "debug"@ {
        PipeMessage::Debug
    } else {
        PipeMessage::Other
    }
}

/// The meaning of the bytes read from the settings channel.
pub fn classify_message(bytes: &[u8]) -> (r: PipeMessage)
    ensures
        r == message_kind(lossy_text(bytes@)),
{
    let text = decode_lossy(bytes);
    let t = trim_chars(to_chars(text.as_str()).as_slice());
    if chars_eq(t.as_slice(), to_chars("reload").as_slice()) {
        PipeMessage::Reload
    } else if chars_eq(t.as_slice(), to_chars("debug").as_slice()) {
        PipeMessage::Debug
    } else {
        PipeMessage::Other
    }
}

/// Whether a configuration reload was requested and not yet handled.
#[derive(Debug, Clone, Copy, PartialEq, Eq, Structural)]
pub struct SettingsSignal {
    pub changed: bool,
}

impl SettingsSignal {
    /// Nothing requested.
    pub fn new() -> (r: Self)
        ensures
            !r.changed,
    {
        SettingsSignal { changed: false }
    }

    /// Records what a message asks for: only `Reload` raises the signal.
    pub fn on_message(&mut self, msg: PipeMessage)
        ensures
            final(self).changed == (old(self).changed || msg == PipeMessage::Reload),
    {
        if msg == PipeMessage::Reload {
            self.changed = true;
        }
    }
}

/// Whether a reload was requested since the last check; the request is
/// cleared.
pub fn check_and_clear(signal: &mut SettingsSignal) -> (r: bool)
    ensures
        r == old(signal).changed,
        !final(signal).changed,
{
    let r = signal.changed;
    signal.changed = false;
    r
}

} // verus!
