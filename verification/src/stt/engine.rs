//! Recognition engine settings shared by the workers.
use vstd::prelude::*;

verus! {

/// How the recogniser runs.
#[derive(Debug, Clone, Copy, PartialEq, Eq, Structural)]
pub enum EngineMode {
    /// A command-line run per phrase.
    OneShot,
    /// A resident HTTP server.
    Server,
}

impl EngineMode {
    /// `"server"` selects the server; anything else a run per phrase.
    pub fn from_str(s: &str) -> (r: EngineMode)
        ensures
            r == (if s@ == "server"@ {
                EngineMode::Server
            } else {
                EngineMode::OneShot
            }),
    {
        let c = crate::text::chars::to_chars(s);
        let server = crate::text::chars::to_chars("server");
        if crate::text::chars::chars_eq(c.as_slice(), server.as_slice()) {
            EngineMode::Server
        } else {
            EngineMode::OneShot
        }
    }
}

/// Settings every recognition call reads.
#[derive(Debug, Clone)]
pub struct EngineSettings {
    /// Keep the recorded WAV files.
    pub keep_wav: bool,
    /// Read and write timeout of a server request, in seconds.
    pub whisper_timeout_secs: u64,
    /// Use the resident server.
    pub server_mode: bool,
    /// The configured directory of the recogniser's programs.
    pub bins: Option<String>,
}

impl EngineSettings {
    /// WAV files dropped, a 10-second timeout, the server, no directory.
    pub fn new() -> (r: Self)
        ensures
            !r.keep_wav,
            r.whisper_timeout_secs == 10,
            r.server_mode,
            r.bins is None,
    {
        EngineSettings { keep_wav: false, whisper_timeout_secs: 10, server_mode: true, bins: None }
    }
}

/// Whether recorded WAV files are kept.
pub fn set_keep_wav_global(settings: &mut EngineSettings, keep: bool)
    ensures
        final(settings).keep_wav == keep,
        final(settings).whisper_timeout_secs == old(settings).whisper_timeout_secs,
        final(settings).server_mode == old(settings).server_mode,
        final(settings).bins == old(settings).bins,
{
    settings.keep_wav = keep;
}

/// The server request timeout.
pub fn set_whisper_timeout(settings: &mut EngineSettings, secs: u64)
    ensures
        final(settings).whisper_timeout_secs == secs,
        final(settings).keep_wav == old(settings).keep_wav,
        final(settings).server_mode == old(settings).server_mode,
        final(settings).bins == old(settings).bins,
{
    settings.whisper_timeout_secs = secs;
}

/// Whether the resident server is used.
pub fn set_engine_mode_server(settings: &mut EngineSettings, is_server: bool)
    ensures
        final(settings).server_mode == is_server,
        final(settings).keep_wav == old(settings).keep_wav,
        final(settings).whisper_timeout_secs == old(settings).whisper_timeout_secs,
        final(settings).bins == old(settings).bins,
{
    settings.server_mode = is_server;
}

/// The configured program directory.
pub fn set_bins_global(settings: &mut EngineSettings, path: Option<String>)
    ensures
        final(settings).bins == path,
        final(settings).keep_wav == old(settings).keep_wav,
        final(settings).whisper_timeout_secs == old(settings).whisper_timeout_secs,
        final(settings).server_mode == old(settings).server_mode,
{
    settings.bins = path;
}

} // verus!
