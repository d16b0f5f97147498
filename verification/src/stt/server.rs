//! Recognising a model file that the recognition server can load.
use vstd::prelude::*;

verus! {

/// A model file starts with the magic `GGUF` (a GGUF container) or `lmgg`
/// (whisper.cpp's own ggml format); anything else (a PyTorch zip, for
/// instance) is refused. Fewer than four bytes are refused too.
pub open spec fn has_whisper_magic(header: Seq<u8>) -> bool {
    header.len() >= 4 && (header.take(4) == seq![0x47u8, 0x47, 0x55, 0x46] || header.take(4) == seq![
        0x6Cu8,
        0x6D,
        0x67,
        0x67,
    ])
}

/// Whether the first bytes of a file mark a model the server can load.
pub fn is_whisper_magic(header: &[u8]) -> (r: bool)
    ensures
        r == has_whisper_magic(header@),
{
    if header.len() < 4 {
        return false;
    }
    let gguf = header[0] == 0x47 && header[1] == 0x47 && header[2] == 0x55 && header[3] == 0x46;
    let lmgg = header[0] == 0x6C && header[1] == 0x6D && header[2] == 0x67 && header[3] == 0x67;
    proof {
        if gguf {
            assert(header@.take(4) =~= seq![0x47u8, 0x47, 0x55, 0x46]);
        }
        if lmgg {
            assert(header@.take(4) =~= seq![0x6Cu8, 0x6D, 0x67, 0x67]);
        }
        if header@.take(4) == seq![0x47u8, 0x47, 0x55, 0x46] {
            assert(header@.take(4)[0] == header@[0]);
        }
    }
    gguf || lmgg
}

} // verus!
