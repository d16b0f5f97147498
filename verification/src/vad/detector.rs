//! Speech/silence tracking over successive audio chunks. Whether a chunk is
//! loud (its RMS level above the threshold) is measured by the caller; this
//! state machine decides when speech starts and when it has ended.
use vstd::prelude::*;

verus! {

/// What a chunk meant.
#[derive(Debug, Clone, Copy, PartialEq, Eq, Structural)]
pub enum VadEvent {
    /// No speech, or speech has just ended after enough quiet.
    Silence,
    /// The first loud chunk after silence.
    SpeechStart,
    /// Speech goes on (loud, or quiet for less than the silence duration).
    Speech,
}

/// The tracker's state: whether speech is under way, and how many quiet
/// samples followed it.
pub ghost struct VadModel {
    pub in_speech: bool,
    pub silence: nat,
}

/// One chunk of `n` samples, `loud` or not, with a silence duration of
/// `duration` samples: the next state and the event.
pub open spec fn vad_step(m: VadModel, duration: nat, loud: bool, n: nat) -> (VadModel, VadEvent) {
    if n == 0 {
        (m, VadEvent::Silence)
    } else if loud {
        if !m.in_speech {
            (VadModel { in_speech: true, silence: 0 }, VadEvent::SpeechStart)
        } else {
            (VadModel { in_speech: true, silence: 0 }, VadEvent::Speech)
        }
    } else if m.in_speech {
        if m.silence + n >= duration {
            (VadModel { in_speech: false, silence: 0 }, VadEvent::Silence)
        } else {
            (VadModel { in_speech: true, silence: m.silence + n }, VadEvent::Speech)
        }
    } else {
        (m, VadEvent::Silence)
    }
}

/// Speech tracking with a fixed silence duration.
pub struct VadState {
    silence_duration_frames: usize,
    silence_frames: usize,
    in_speech: bool,
}

impl View for VadState {
    type V = VadModel;

    closed spec fn view(&self) -> VadModel {
        VadModel { in_speech: self.in_speech, silence: self.silence_frames as nat }
    }
}

impl VadState {
    /// How many quiet samples end speech.
    pub closed spec fn duration(&self) -> nat {
        self.silence_duration_frames as nat
    }

    /// No speech yet; speech ends after `silence_duration_frames` quiet samples.
    pub fn new(silence_duration_frames: usize) -> (r: Self)
        ensures
            r@ == (VadModel { in_speech: false, silence: 0 }),
            r.duration() == silence_duration_frames,
    {
        VadState { silence_duration_frames, silence_frames: 0, in_speech: false }
    }

    /// Takes a chunk of `len` samples that is `loud` or not.
    pub fn process(&mut self, loud: bool, len: usize) -> (r: VadEvent)
        ensures
            (final(self)@, r) == vad_step(old(self)@, old(self).duration(), loud, len as nat),
            final(self).duration() == old(self).duration(),
    {
        if len == 0 {
            return VadEvent::Silence;
        }
        if loud {
            if !self.in_speech {
                self.in_speech = true;
                self.silence_frames = 0;
                return VadEvent::SpeechStart;
            }
            self.silence_frames = 0;
            VadEvent::Speech
        } else if self.in_speech {
            let s = self.silence_frames.saturating_add(len);
            if s >= self.silence_duration_frames {
                self.in_speech = false;
                self.silence_frames = 0;
                VadEvent::Silence
            } else {
                self.silence_frames = s;
                VadEvent::Speech
            }
        } else {
            VadEvent::Silence
        }
    }

    /// Back to no speech.
    pub fn reset(&mut self)
        ensures
            final(self)@ == (VadModel { in_speech: false, silence: 0 }),
            final(self).duration() == old(self).duration(),
    {
        self.in_speech = false;
        self.silence_frames = 0;
    }
}

/// Speech is only ever declared over after it started: a `Silence` event from
/// a state in speech leaves speech, and a state not in speech never yields
/// `Speech`.
pub proof fn lemma_speech_needs_start(m: VadModel, duration: nat, loud: bool, n: nat)
    ensures
        !m.in_speech ==> vad_step(m, duration, loud, n).1 != VadEvent::Speech,
        m.in_speech && vad_step(m, duration, loud, n).1 == VadEvent::Silence && n > 0
            ==> !vad_step(m, duration, loud, n).0.in_speech,
{
}

/// Quiet chunks end speech once they add up to the silence duration: from
/// speech with `silence` quiet samples, a quiet chunk of at least
/// `duration - silence` samples yields `Silence`.
pub proof fn lemma_enough_quiet_ends_speech(silence: nat, duration: nat, n: nat)
    requires
        n > 0,
        silence + n >= duration,
    ensures
        vad_step(VadModel { in_speech: true, silence }, duration, false, n) == (
        VadModel { in_speech: false, silence: 0 }, VadEvent::Silence),
{
}

} // verus!
