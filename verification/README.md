# voxmim

Voice typing: hold Ctrl+Insert, speak, release, and the recognised text is
corrected and typed into the active window.

The library (`src/`) holds the logic, each function with a Verus contract:

- `text/`: the corrections of a recognised phrase (hallucinated phrases,
  the user dictionary, stuttered repetitions, punctuation, split words), the
  hallucination phrase file, the JSON documents of the dictionary, alias and
  locale files, and the stable sort by lower-cased text.
- `commands/`: voice commands (triggers, aliases, dictation threshold) and
  spoken arithmetic.
- `session.rs`: the recording session (start, stop, short captures, what a
  recognised phrase becomes) and wake-word listening.
- `audio/`, `vad/`: the accumulator's decisions, speech/silence tracking,
  the noise filter setting and a ring buffer.
- `input/`: the trigger key and mouse button, paste key strokes, the text
  to paste.
- `stt/`: requests to the recognition server, the multipart upload, the WAV
  header, reading the answer, model file magic, library path rewrites.
- `lang.rs`, `pipe.rs`, `ui/`, `config.rs`: locales with UTF-16 output,
  settings-window messages, the tray menu, configuration defaults.

`app/` is the program around it: reading and writing the files, audio
capture, the recogniser processes and sockets, keyboard hooks, clipboard,
threads and the main loop. `tests/` exercise the library.
