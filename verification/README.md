# kazoo_core

The integer and byte-level core of the Kazoo voice-driven synthesizer
engine, written in Verus. Verus proves the contract of every function in
`src/` except the thin wrappers marked `#[verifier::external_body]`: those
make one call into `std` (reads and writes on `std::io` streams, `io::Error`
construction, UTF-8 validation, `String::push`), and their contracts are
trusted, not proved.

- `src/` — the verified library: the IPC frame protocol and message
  encodings, hub discovery paths and the PID file format, the hub's
  connection rules, the sequencing rules of the audio block transport, the
  text notation parser, MIDI input decoding, the engine's command
  decisions and effect-chain slots, clip placement and track bookkeeping
  and signal routing, stream and device configuration, time
  and note-name formatting, instrument ids.
- `tests/` — tests run against the compiled library.
- `app/` — the runtime around the library: environment and file access,
  the instrument-side connection to the hub and the hub's socket listener,
  lock-free sample rings shared between threads, messages with
  floating-point fields, beat timing of notation, clip mixing and the disk
  recorder loop with its WAV file sink.

Floating-point signal processing (synthesis, effects, analysis, mixing
gains) is not part of this crate.
