//! The recording trigger: which key and button events start or stop a
//! recording. In hold mode the trigger is held for as long as the recording
//! runs; in tap mode (automatic stop enabled) every press sends a start, and
//! key auto-repeat is ignored until the key is released.
use vstd::prelude::*;

verus! {

/// A request the trigger sends to the session.
#[derive(Debug, Clone, Copy, PartialEq, Eq, Structural)]
pub enum TriggerCommand {
    StartRecording,
    StopRecording,
}

/// The keyboard trigger's flags.
#[derive(Debug, Clone, Copy, PartialEq, Eq, Structural)]
pub struct HotkeyState {
    /// Hold mode: a recording was started by the held key.
    pub recording: bool,
    /// Tap mode is on.
    pub vad_enabled: bool,
    /// Tap mode: the key is down and its press was already handled.
    pub key_lock: bool,
}

/// A key event of the trigger key: the next flags and the request sent.
/// `modifier_held` is whether the required modifier (Ctrl) is down; a press
/// without it is ignored, a release is handled either way.
pub open spec fn key_step(s: HotkeyState, is_down: bool, modifier_held: bool) -> (HotkeyState, Option<TriggerCommand>) {
    if is_down {
        if !modifier_held {
            (s, None)
        } else if s.vad_enabled {
            if s.key_lock {
                (s, None)
            } else {
                (HotkeyState { key_lock: true, ..s }, Some(TriggerCommand::StartRecording))
            }
        } else if !s.recording {
            (HotkeyState { recording: true, ..s }, Some(TriggerCommand::StartRecording))
        } else {
            (s, None)
        }
    } else if s.vad_enabled {
        (HotkeyState { key_lock: false, ..s }, None)
    } else if s.recording {
        (HotkeyState { recording: false, ..s }, Some(TriggerCommand::StopRecording))
    } else {
        (s, None)
    }
}

impl HotkeyState {
    /// Nothing pressed, tap mode off.
    pub fn new() -> (r: Self)
        ensures
            r == (HotkeyState { recording: false, vad_enabled: false, key_lock: false }),
    {
        HotkeyState { recording: false, vad_enabled: false, key_lock: false }
    }

    /// A press (`is_down`) or release of the trigger key.
    pub fn on_key(&mut self, is_down: bool, modifier_held: bool) -> (r: Option<TriggerCommand>)
        ensures
            (*final(self), r) == key_step(*old(self), is_down, modifier_held),
    {
        if is_down {
            if !modifier_held {
                return None;
            }
            if self.vad_enabled {
                if self.key_lock {
                    return None;
                }
                self.key_lock = true;
                Some(TriggerCommand::StartRecording)
            } else if !self.recording {
                self.recording = true;
                Some(TriggerCommand::StartRecording)
            } else {
                None
            }
        } else if self.vad_enabled {
            self.key_lock = false;
            None
        } else if self.recording {
            self.recording = false;
            Some(TriggerCommand::StopRecording)
        } else {
            None
        }
    }
}

/// The recording ended elsewhere: forget the held key and the tap lock.
pub fn reset_recording_state(state: &mut HotkeyState)
    ensures
        *final(state) == (HotkeyState { recording: false, key_lock: false, ..*old(state) }),
{
    state.recording = false;
    state.key_lock = false;
}

/// Turns tap mode on or off.
pub fn set_vad_enabled(state: &mut HotkeyState, enabled: bool)
    ensures
        *final(state) == (HotkeyState { vad_enabled: enabled, ..*old(state) }),
{
    state.vad_enabled = enabled;
}

/// A press or release of the trigger mouse button, with `pressed` whether
/// its press was already handled: a press starts once, a release stops once.
pub fn on_mouse_button(pressed: &mut bool, is_press: bool) -> (r: Option<TriggerCommand>)
    ensures
        is_press ==> *final(pressed) && r == (if *old(pressed) {
            None
        } else {
            Some(TriggerCommand::StartRecording)
        }),
        !is_press ==> !*final(pressed) && r == (if *old(pressed) {
            Some(TriggerCommand::StopRecording)
        } else {
            None
        }),
{
    if is_press {
        if !*pressed {
            *pressed = true;
            return Some(TriggerCommand::StartRecording);
        }
        None
    } else {
        if *pressed {
            *pressed = false;
            return Some(TriggerCommand::StopRecording);
        }
        None
    }
}

/// Hold mode: pressing the key (with the modifier) and releasing it sends a
/// start and then a stop, and leaves the flags as they were when no recording
/// was held.
pub proof fn lemma_hold_press_release(s: HotkeyState)
    requires
        !s.vad_enabled,
        !s.recording,
    ensures
        key_step(s, true, true).1 == Some(TriggerCommand::StartRecording),
        key_step(key_step(s, true, true).0, false, true).1 == Some(TriggerCommand::StopRecording),
        key_step(key_step(s, true, true).0, false, true).0 == s,
{
}

/// Auto-repeat: a second press while the key is held sends nothing, in hold
/// mode and in tap mode.
pub proof fn lemma_repeat_press_ignored(s: HotkeyState, modifier_held: bool)
    ensures
        key_step(key_step(s, true, true).0, true, modifier_held).1 == None::<TriggerCommand>,
{
}

/// Tap mode: every separate press (a press after a release) sends a start,
/// and a release never sends anything.
pub proof fn lemma_tap_press_starts(s: HotkeyState, modifier_held: bool)
    requires
        s.vad_enabled,
    ensures
        key_step(s, false, modifier_held).1 == None::<TriggerCommand>,
        key_step(key_step(s, false, modifier_held).0, true, true).1 == Some(TriggerCommand::StartRecording),
{
}

} // verus!
