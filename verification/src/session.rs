//! The recording session: when a recording starts and stops, when a capture
//! goes to recognition, and what becomes of a recognised phrase.
use vstd::prelude::*;

use crate::commands::executor::{command_for, ActionModel, CommandAction, CommandExecutor};
use crate::commands::math::{convert_math, math_converted};
use crate::config::TextFixConfig;
use crate::text::chars::{contains, find_chars, to_chars, to_string, trim, trim_chars};
use crate::text::unicode::{lowercase, lowercase_chars};
use crate::text::rules::TextRules;
use crate::text::text_fixed;
use crate::text::fix_text;
use crate::text::user_dict::UserDict;

verus! {

/// Where the session stands.
#[derive(Debug, Clone, Copy, PartialEq, Eq, Structural)]
pub enum AppState {
    Idle,
    Recording,
    Processing,
}

/// The fewest samples a capture needs to go to recognition (one second at 16 kHz).
pub const MIN_CAPTURE_SAMPLES: usize = 16000;

/// What a start request did.
#[derive(Debug, Clone, Copy, PartialEq, Eq, Structural)]
pub enum StartOutcome {
    /// Nothing changed.
    Ignored,
    /// A recording began: the capture buffer is to be emptied.
    Started,
    /// The running recording was stopped (tap mode): the capture is to be
    /// taken and handed to `finish_capture`.
    ForceStopped,
}

/// What became of a recognised phrase.
#[derive(Debug)]
pub enum ResultOutcome {
    /// A recording is running: the phrase is stale and dropped.
    Ignored,
    /// The phrase was blank.
    Empty,
    /// The phrase triggered a voice command.
    Execute(CommandAction),
    /// The text to type into the focused window.
    Insert(String),
}

/// A phrase outcome with its text as a character sequence.
pub ghost enum ResultModel {
    Ignored,
    Empty,
    Execute(ActionModel),
    Insert(Seq<char>),
}

impl View for ResultOutcome {
    type V = ResultModel;

    open spec fn view(&self) -> ResultModel {
        match self {
            ResultOutcome::Ignored => ResultModel::Ignored,
            ResultOutcome::Empty => ResultModel::Empty,
            ResultOutcome::Execute(a) => ResultModel::Execute(a@),
            ResultOutcome::Insert(s) => ResultModel::Insert(s@),
        }
    }
}

/// The state after a start request, and what the request did.
pub open spec fn after_start(s: AppState, vad_enabled: bool) -> (AppState, StartOutcome) {
    match s {
        AppState::Idle => (AppState::Recording, StartOutcome::Started),
        AppState::Recording => if vad_enabled {
            (AppState::Processing, StartOutcome::ForceStopped)
        } else {
            (AppState::Recording, StartOutcome::Ignored)
        },
        AppState::Processing => (AppState::Processing, StartOutcome::Ignored),
    }
}

/// The state after a stop request, and whether the capture is to be taken.
pub open spec fn after_stop(s: AppState) -> (AppState, bool) {
    if s == AppState::Recording {
        (AppState::Processing, true)
    } else {
        (s, false)
    }
}

/// The state after a capture of `samples` samples was taken, and whether it
/// goes to recognition.
pub open spec fn after_capture(s: AppState, samples: nat) -> (AppState, bool) {
    if samples < MIN_CAPTURE_SAMPLES {
        (AppState::Idle, false)
    } else {
        (s, true)
    }
}

/// What a recognised phrase becomes when no recording runs: blank phrases
/// are dropped; a fixed phrase that triggers a command runs it; otherwise it is
/// typed, after the spoken-math conversion when math mode is on and the
/// conversion changes it.
pub open spec fn phrase_outcome(
    text: Seq<char>,
    config: TextFixConfig,
    dict: Seq<(Seq<char>, Seq<char>)>,
    ends: Seq<Seq<char>>,
    mids: Seq<Seq<char>>,
    commands: Seq<(Seq<char>, ActionModel)>,
    aliases: Seq<(Seq<char>, Seq<char>)>,
    max_words: u32,
    math_mode: bool,
) -> ResultModel {
    let t = trim(text);
    if t.len() == 0 {
        ResultModel::Empty
    } else {
        let fixed = text_fixed(t, config, dict, ends, mids);
        match command_for(commands, aliases, fixed, max_words) {
            Some(i) => ResultModel::Execute(commands[i].1),
            None => if math_mode && math_converted(fixed) != fixed {
                ResultModel::Insert(math_converted(fixed))
            } else {
                ResultModel::Insert(fixed)
            },
        }
    }
}

/// The recording session's state.
pub struct Session {
    state: AppState,
}

impl View for Session {
    type V = AppState;

    closed spec fn view(&self) -> AppState {
        self.state
    }
}

impl Session {
    /// A session with nothing recorded.
    pub fn new() -> (r: Self)
        ensures
            r@ == AppState::Idle,
    {
        Session { state: AppState::Idle }
    }

    /// The current state.
    pub fn state(&self) -> (r: AppState)
        ensures
            r == self@,
    {
        self.state
    }

    /// A start request (the trigger was pressed). While idle it begins a
    /// recording; during a recording in tap mode (`vad_enabled`) it stops it;
    /// otherwise it does nothing.
    pub fn on_start(&mut self, vad_enabled: bool) -> (r: StartOutcome)
        ensures
            (final(self)@, r) == after_start(old(self)@, vad_enabled),
    {
        match self.state {
            AppState::Idle => {
                self.state = AppState::Recording;
                StartOutcome::Started
            },
            AppState::Recording => {
                if vad_enabled {
                    self.state = AppState::Processing;
                    StartOutcome::ForceStopped
                } else {
                    StartOutcome::Ignored
                }
            },
            AppState::Processing => StartOutcome::Ignored,
        }
    }

    /// A stop request (the trigger was released, or silence was detected).
    /// Returns whether a recording was running; the capture is then to be
    /// taken and handed to `finish_capture`.
    pub fn on_stop(&mut self) -> (r: bool)
        ensures
            (final(self)@, r) == after_stop(old(self)@),
    {
        if self.state == AppState::Recording {
            self.state = AppState::Processing;
            true
        } else {
            false
        }
    }

    /// A capture of `samples` samples was taken. Returns whether it goes to
    /// recognition; a capture that is too short ends the session.
    pub fn finish_capture(&mut self, samples: usize) -> (r: bool)
        ensures
            (final(self)@, r) == after_capture(old(self)@, samples as nat),
    {
        if samples < MIN_CAPTURE_SAMPLES {
            self.state = AppState::Idle;
            false
        } else {
            true
        }
    }

    /// A recognised phrase arrived. It is dropped while a recording runs;
    /// otherwise it is fixed, matched against the voice commands, and
    /// becomes a command or text to type, and the session is idle again.
    pub fn on_result(
        &mut self,
        text: &str,
        config: &TextFixConfig,
        user_dict: &UserDict,
        rules: &TextRules,
        executor: &CommandExecutor,
        max_words: u32,
        math_mode: bool,
    ) -> (r: ResultOutcome)
        requires
            user_dict.wf(),
            rules.wf(),
        ensures
            old(self)@ == AppState::Recording ==> r@ == ResultModel::Ignored && final(self)@ == old(self)@,
            old(self)@ != AppState::Recording ==> final(self)@ == AppState::Idle && r@ == phrase_outcome(
                text@,
                *config,
                user_dict@,
                rules.end_view(),
                rules.mid_view(),
                executor.commands_view(),
                executor.aliases_view(),
                max_words,
                math_mode,
            ),
    {
        if self.state == AppState::Recording {
            return ResultOutcome::Ignored;
        }
        let trimmed = trim_chars(to_chars(text).as_slice());
        self.state = AppState::Idle;
        if trimmed.len() == 0 {
            return ResultOutcome::Empty;
        }
        let t = to_string(trimmed.as_slice());
        let fixed = fix_text(t.as_str(), config, user_dict, rules);
        match executor.try_execute(fixed.as_str(), max_words) {
            Some(a) => ResultOutcome::Execute(a.duplicate()),
            None => {
                if math_mode {
                    let math = convert_math(fixed.as_str());
                    if math != fixed {
                        return ResultOutcome::Insert(math);
                    }
                }
                ResultOutcome::Insert(fixed)
            },
        }
    }
}

/// A start from idle followed by a stop always hands the capture over, and a
/// capture shorter than `MIN_CAPTURE_SAMPLES` then leaves the session idle,
/// in hold mode and in tap mode alike.
pub proof fn lemma_short_recording_ends_idle(vad_enabled: bool, samples: nat)
    requires
        samples < MIN_CAPTURE_SAMPLES,
    ensures
        ({
            let started = after_start(AppState::Idle, vad_enabled);
            let stopped = if vad_enabled {
                after_start(started.0, true)
            } else {
                (after_stop(started.0).0, StartOutcome::ForceStopped)
            };
            &&& started.1 == StartOutcome::Started
            &&& stopped.0 == AppState::Processing
            &&& after_capture(stopped.0, samples) == (AppState::Idle, false)
        }),
{
}

/// A running recording is only left through a stop (or a tap-mode start):
/// while recording, a start in hold mode changes nothing.
pub proof fn lemma_hold_mode_start_keeps_recording()
    ensures
        after_start(AppState::Recording, false) == (AppState::Recording, StartOutcome::Ignored),
{
}

/// A stop request outside a recording changes nothing and takes no capture.
pub proof fn lemma_stop_outside_recording(s: AppState)
    requires
        s != AppState::Recording,
    ensures
        after_stop(s) == (s, false),
{
}

/// Whether a detected phrase holds a wake word: some wake word occurs in the
/// lower-cased phrase.
pub open spec fn has_wake_word(text: Seq<char>, words: Seq<Seq<char>>) -> bool {
    exists|i: int| 0 <= i < words.len() && contains(lowercase(text), #[trigger] words[i])
}

/// Whether the detected phrase `text` holds one of `wake_words`.
pub fn heard_wake_word(text: &str, wake_words: &Vec<String>) -> (r: bool)
    ensures
        r == has_wake_word(text@, wake_words@.map_values(|w: String| w@)),
{
    let lower = lowercase_chars(to_chars(text).as_slice());
    let ghost ws = wake_words@.map_values(|w: String| w@);
    let mut i: usize = 0;
    while i < wake_words.len()
        invariant
            i <= wake_words@.len(),
            ws == wake_words@.map_values(|w: String| w@),
            lower@ == lowercase(text@),
            forall|k: int| 0 <= k < i ==> !contains(lowercase(text@), #[trigger] ws[k]),
        decreases wake_words@.len() - i,
    {
        let w = to_chars(wake_words[i].as_str());
        if find_chars(lower.as_slice(), w.as_slice()).is_some() {
            proof {
                assert(ws[i as int] == w@);
            }
            return true;
        }
        proof {
            assert(ws[i as int] == w@);
        }
        i = i + 1;
    }
    false
}

/// What to do with a block of audio while listening for the wake word.
#[derive(Debug, Clone, Copy, PartialEq, Eq, Structural)]
pub enum WakeStep {
    /// Too quiet to hold a wake word: drop it.
    Skip,
    /// Run the detector on it and report with `on_detection`.
    Detect,
    /// A command is being spoken: keep the block.
    Collect,
    /// The command ended: take the kept audio; recognise it when `true`.
    Finish(bool),
}

/// The wake-word listener: whether a command is awaited after the wake
/// word, and how many samples of it are kept.
#[derive(Debug, Clone, Copy, PartialEq, Eq, Structural)]
pub struct WakeListener {
    pub awaiting: bool,
    pub command_len: usize,
}

impl WakeListener {
    /// Listening, no command.
    pub fn new() -> (r: Self)
        ensures
            r == (WakeListener { awaiting: false, command_len: 0 }),
    {
        WakeListener { awaiting: false, command_len: 0 }
    }

    /// A block of `len` samples; `silent` when its energy is below the
    /// command's end level, `quiet` when below the detection level.
    pub fn on_block(&mut self, len: usize, silent: bool, quiet: bool) -> (r: WakeStep)
        ensures
            old(self).awaiting && silent ==> ({
                let total = old(self).command_len + len;
                &&& r == WakeStep::Finish(total >= MIN_CAPTURE_SAMPLES)
                &&& *final(self) == WakeListener { awaiting: false, command_len: 0 }
            }),
            old(self).awaiting && !silent ==> r == WakeStep::Collect && final(self).awaiting
                && final(self).command_len == (if old(self).command_len + len <= usize::MAX {
                old(self).command_len + len
            } else {
                usize::MAX as int
            }),
            !old(self).awaiting ==> *final(self) == *old(self) && r == (if quiet {
                WakeStep::Skip
            } else {
                WakeStep::Detect
            }),
    {
        if self.awaiting {
            let total = self.command_len.saturating_add(len);
            if silent {
                self.awaiting = false;
                self.command_len = 0;
                WakeStep::Finish(total >= MIN_CAPTURE_SAMPLES)
            } else {
                self.command_len = total;
                WakeStep::Collect
            }
        } else if quiet {
            WakeStep::Skip
        } else {
            WakeStep::Detect
        }
    }

    /// The detector's verdict on a block of `len` samples: a wake word starts
    /// a command that begins with this block.
    pub fn on_detection(&mut self, heard: bool, len: usize)
        ensures
            heard ==> *final(self) == (WakeListener { awaiting: true, command_len: len }),
            !heard ==> *final(self) == *old(self),
    {
        if heard {
            self.awaiting = true;
            self.command_len = len;
        }
    }
}

} // verus!
