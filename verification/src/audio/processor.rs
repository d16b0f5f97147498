//! Decisions of the audio accumulator: which captured chunks are kept, when
//! the speech detector looks at them, and when a recording stops by itself
//! (silence after speech, or no speech at all before the start timeout).
use vstd::prelude::*;

use crate::vad::detector::{vad_step, VadEvent, VadModel, VadState};

verus! {

/// What to do with a captured chunk.
#[derive(Debug, Clone, Copy, PartialEq, Eq, Structural)]
pub enum ChunkStep {
    /// No recording: drop the chunk and the pending detector samples.
    Discard,
    /// Append the chunk to the recording.
    Record,
    /// Append it to the recording and to the pending detector samples.
    RecordAndAccumulate,
    /// Append it to both, then measure the pending samples and call `analyze`.
    RecordAndAnalyze,
}

/// What an analysed block of samples asks for.
#[derive(Debug, Clone, Copy, PartialEq, Eq, Structural)]
pub enum ProcessorAction {
    /// Keep recording.
    Continue,
    /// Speech was followed by enough silence: stop the recording.
    AutoStop,
    /// No speech came before the start timeout: stop and drop the recording.
    StartTimeout,
}

/// The accumulator's state.
pub ghost struct ProcessorModel {
    pub vad: VadModel,
    pub speech_detected: bool,
    pub total_frames: nat,
    pub pending: nat,
}

/// The accumulator's fixed settings, in samples.
pub ghost struct ProcessorLimits {
    pub silence_duration: nat,
    pub analyze_every: nat,
    pub start_timeout: nat,
}

/// A chunk of `len` samples arrives; `recording` and `vad_enabled` are the
/// current switches.
pub open spec fn chunk_step(
    m: ProcessorModel,
    lim: ProcessorLimits,
    len: nat,
    recording: bool,
    vad_enabled: bool,
) -> (ProcessorModel, ChunkStep) {
    if !recording {
        let cleared = ProcessorModel {
            pending: 0,
            ..m
        };
        if m.speech_detected {
            (ProcessorModel { speech_detected: false, total_frames: 0, ..cleared }, ChunkStep::Discard)
        } else {
            (cleared, ChunkStep::Discard)
        }
    } else if !vad_enabled {
        (m, ChunkStep::Record)
    } else {
        let p = if m.pending + len <= usize::MAX {
            m.pending + len
        } else {
            usize::MAX as nat
        };
        let next = ProcessorModel { pending: p, ..m };
        if p >= lim.analyze_every {
            (next, ChunkStep::RecordAndAnalyze)
        } else {
            (next, ChunkStep::RecordAndAccumulate)
        }
    }
}

/// The pending samples were measured as `loud` or not.
pub open spec fn analyze_step(m: ProcessorModel, lim: ProcessorLimits, loud: bool) -> (
    ProcessorModel,
    ProcessorAction,
) {
    let (v, ev) = vad_step(m.vad, lim.silence_duration, loud, m.pending);
    match ev {
        VadEvent::SpeechStart | VadEvent::Speech => (
            ProcessorModel { vad: v, speech_detected: true, total_frames: m.total_frames, pending: 0 },
            ProcessorAction::Continue,
        ),
        VadEvent::Silence => if m.speech_detected {
            (
                ProcessorModel { vad: v, speech_detected: false, total_frames: 0, pending: 0 },
                ProcessorAction::AutoStop,
            )
        } else if m.total_frames + m.pending >= lim.start_timeout {
            (
                ProcessorModel { vad: v, speech_detected: false, total_frames: 0, pending: 0 },
                ProcessorAction::StartTimeout,
            )
        } else {
            (
                ProcessorModel {
                    vad: v,
                    speech_detected: false,
                    total_frames: m.total_frames + m.pending,
                    pending: 0,
                },
                ProcessorAction::Continue,
            )
        },
    }
}

/// The accumulator between the microphone and the recording buffer.
pub struct AudioProcessor {
    vad: VadState,
    speech_detected: bool,
    total_frames: usize,
    pending: usize,
    analyze_every: usize,
    start_timeout: usize,
}

impl View for AudioProcessor {
    type V = ProcessorModel;

    closed spec fn view(&self) -> ProcessorModel {
        ProcessorModel {
            vad: self.vad@,
            speech_detected: self.speech_detected,
            total_frames: self.total_frames as nat,
            pending: self.pending as nat,
        }
    }
}

impl AudioProcessor {
    /// The fixed settings.
    pub closed spec fn limits(&self) -> ProcessorLimits {
        ProcessorLimits {
            silence_duration: self.vad.duration(),
            analyze_every: self.analyze_every as nat,
            start_timeout: self.start_timeout as nat,
        }
    }

    /// Speech ends after `silence_duration` quiet samples; the detector looks
    /// at every `analyze_every` samples; without speech a recording stops after
    /// `start_timeout` samples.
    pub fn new(silence_duration: usize, analyze_every: usize, start_timeout: usize) -> (r: Self)
        ensures
            r@ == (ProcessorModel {
                vad: VadModel { in_speech: false, silence: 0 },
                speech_detected: false,
                total_frames: 0,
                pending: 0,
            }),
            r.limits() == (ProcessorLimits {
                silence_duration: silence_duration as nat,
                analyze_every: analyze_every as nat,
                start_timeout: start_timeout as nat,
            }),
    {
        AudioProcessor {
            vad: VadState::new(silence_duration),
            speech_detected: false,
            total_frames: 0,
            pending: 0,
            analyze_every,
            start_timeout,
        }
    }

    /// A captured chunk of `len` samples arrived.
    pub fn on_chunk(&mut self, len: usize, recording: bool, vad_enabled: bool) -> (r: ChunkStep)
        ensures
            (final(self)@, r) == chunk_step(old(self)@, old(self).limits(), len as nat, recording, vad_enabled),
            final(self).limits() == old(self).limits(),
    {
        if !recording {
            if self.speech_detected {
                self.speech_detected = false;
                self.total_frames = 0;
            }
            self.pending = 0;
            return ChunkStep::Discard;
        }
        if !vad_enabled {
            return ChunkStep::Record;
        }
        self.pending = self.pending.saturating_add(len);
        if self.pending >= self.analyze_every {
            ChunkStep::RecordAndAnalyze
        } else {
            ChunkStep::RecordAndAccumulate
        }
    }

    /// The pending samples were measured: `loud` when their level is above
    /// the detector's threshold. The pending samples are used up.
    pub fn analyze(&mut self, loud: bool) -> (r: ProcessorAction)
        ensures
            (final(self)@, r) == analyze_step(old(self)@, old(self).limits(), loud),
            final(self).limits() == old(self).limits(),
    {
        let n = self.pending;
        let ev = self.vad.process(loud, n);
        self.pending = 0;
        match ev {
            VadEvent::SpeechStart | VadEvent::Speech => {
                self.speech_detected = true;
                ProcessorAction::Continue
            },
            VadEvent::Silence => {
                if self.speech_detected {
                    self.speech_detected = false;
                    self.total_frames = 0;
                    ProcessorAction::AutoStop
                } else {
                    let t = self.total_frames.saturating_add(n);
                    if t >= self.start_timeout {
                        self.total_frames = 0;
                        ProcessorAction::StartTimeout
                    } else {
                        self.total_frames = t;
                        ProcessorAction::Continue
                    }
                }
            },
        }
    }

    /// How many samples wait for the detector.
    pub fn pending(&self) -> (r: usize)
        ensures
            r == self@.pending,
    {
        self.pending
    }
}

/// A recording only stops by itself for a reason: an automatic stop needs
/// speech to have been detected before, and a start timeout needs that no
/// speech was detected and that the quiet samples reached the timeout. Either
/// way the counters start afresh.
pub proof fn lemma_stops_have_reasons(m: ProcessorModel, lim: ProcessorLimits, loud: bool)
    ensures
        analyze_step(m, lim, loud).1 == ProcessorAction::AutoStop ==> m.speech_detected,
        analyze_step(m, lim, loud).1 == ProcessorAction::StartTimeout ==> !m.speech_detected
            && m.total_frames + m.pending >= lim.start_timeout,
        analyze_step(m, lim, loud).1 != ProcessorAction::Continue ==> analyze_step(m, lim, loud).0.total_frames == 0
            && !analyze_step(m, lim, loud).0.speech_detected,
        analyze_step(m, lim, loud).0.pending == 0,
{
}

/// A loud block never stops a recording.
pub proof fn lemma_loud_keeps_recording(m: ProcessorModel, lim: ProcessorLimits)
    requires
        m.pending > 0,
    ensures
        analyze_step(m, lim, true).1 == ProcessorAction::Continue,
        analyze_step(m, lim, true).0.speech_detected,
{
}

} // verus!
