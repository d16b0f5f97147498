//! Text post-processing, command matching and recording-session logic of the
//! VoxMiM voice-typing tool, verified with Verus.
use vstd::prelude::*;

pub mod audio;
pub mod commands;
pub mod config;
pub mod input;
pub mod lang;
pub mod pipe;
pub mod session;
pub mod stt;
pub mod text;
pub mod ui;
pub mod vad;

verus! {

} // verus!
