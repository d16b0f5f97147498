//! Settings types and their defaults.
use vstd::prelude::*;

use crate::text::rules::owned;

verus! {

/// Which mouse button or keyboard shortcut starts a recording.
#[derive(Debug, Clone, Copy, PartialEq, Eq)]
pub enum TriggerButton {
    Middle,
    Right,
    Extra,
    Keyboard,
}

/// The recording trigger.
#[derive(Debug, Clone)]
pub struct TriggerConfig {
    pub button: TriggerButton,
    pub keyboard: Option<String>,
}

/// Which text fixes run on a recognised phrase.
#[derive(Debug, Clone, Copy, PartialEq, Eq)]
pub struct TextFixConfig {
    pub fix_hallucinations: bool,
    pub fix_user_dict: bool,
    pub fix_repetitions: bool,
    pub fix_punctuation: bool,
    pub trailing_space: bool,
}

/// Default recognition timeout, in seconds.
pub fn default_whisper_timeout() -> (r: u64)
    ensures
        r == 10,
{
    10
}

/// Default for flags that are on unless configured otherwise.
pub fn default_true() -> (r: bool)
    ensures
        r,
{
    true
}

/// Default engine mode: a resident recognition server.
pub fn default_engine_mode() -> (r: String)
    ensures
        r@ == "server"@,
{
    owned("server")
}

/// The default trigger: the Ctrl+Insert shortcut.
pub fn default_trigger() -> (r: TriggerConfig)
    ensures
        r.button == TriggerButton::Keyboard,
        r.keyboard matches Some(k) && k@ == "ctrl+insert"@,
{
    TriggerConfig { button: TriggerButton::Keyboard, keyboard: Some(owned("ctrl+insert")) }
}

/// All text fixes on, no trailing space.
pub fn default_text_fix() -> (r: TextFixConfig)
    ensures
        r == (TextFixConfig {
            fix_hallucinations: true,
            fix_user_dict: true,
            fix_repetitions: true,
            fix_punctuation: true,
            trailing_space: false,
        }),
{
    TextFixConfig {
        fix_hallucinations: true,
        fix_user_dict: true,
        fix_repetitions: true,
        fix_punctuation: true,
        trailing_space: false,
    }
}

/// The engine mode after migrating the retired "keep the model loaded"
/// flag: a kept-loaded model meant the resident server.
pub open spec fn migrated_mode(mode: Seq<char>, keep_loaded: Option<bool>) -> Seq<char> {
    if keep_loaded == Some(true) && mode == "one-shot"@ {
        "server"@
    } else {
        mode
    }
}

/// Migrates an engine mode of an older configuration.
pub fn migrate_engine_mode(mode: &str, keep_loaded: Option<bool>) -> (r: String)
    ensures
        r@ == migrated_mode(mode@, keep_loaded),
{
    let m = crate::text::chars::to_chars(mode);
    let one_shot = crate::text::chars::to_chars("one-shot");
    if keep_loaded == Some(true) && crate::text::chars::chars_eq(m.as_slice(), one_shot.as_slice()) {
        owned("server")
    } else {
        crate::text::chars::to_string(m.as_slice())
    }
}

} // verus!
