//! File dialogs.
use vstd::prelude::*;

verus! {

/// The audio-file picker where none is available yet: no file is chosen.
pub fn pick_audio_file() -> (r: Option<String>)
    ensures
        r is None,
{
    None
}

} // verus!
