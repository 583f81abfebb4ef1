//! Kazoo core: the integer and byte-level logic of the Kazoo voice-driven
//! synthesizer engine, specified and proved with Verus.
//!
//! Modules:
//! - [`text`]: decimal rendering and parsing of integers.
//! - [`audio_transport`]: block-ring configuration and the sequencing rules
//!   of the frame-indexed audio block transport.
//! - [`protocol`]: audio block metadata shared by the transports.
//! - [`ipc`]: the binary wire protocol between instruments and the hub, the
//!   hub's connection rules, and the discovery paths and PID file format.
//! - [`notation`]: the pipe-friendly musical text notation.
//! - [`engine`]: ring-buffer sizing, the disk recorder's rules and MIDI
//!   input decoding.
//! - [`io`]: stream parameters and device capability summaries.
//! - [`mixer`]: track and clip identifiers, clip placement on the timeline
//!   and the solo/mute rule.
//! - [`effects`]: distortion and filter selectors.
use vstd::prelude::*;

pub mod audio_transport;
pub mod effects;
pub mod engine;
pub mod io;
pub mod ipc;
pub mod mixer;
pub mod notation;
pub mod protocol;
pub mod text;

use crate::text::{decimal_digits, push_decimal, push_zero_padded, string_push, zero_padded};

verus! {

// ---------------------------------------------------------------------------
// Error handling
// ---------------------------------------------------------------------------

/// `std::io::Error`, carried through the library as an opaque value.
#[verifier::external_type_specification]
#[verifier::external_body]
pub struct ExIoError(std::io::Error);

/// All fallible operations of the engine report this error type.
#[derive(Debug)]
pub enum Error {
    /// Audio device error.
    AudioDevice(String),
    /// Stream error.
    Stream(String),
    /// File I/O error.
    FileIo(std::io::Error),
    /// Audio format error.
    AudioFormat(String),
    /// Configuration error.
    Config(String),
    /// Engine not running.
    EngineNotRunning,
}

/// Convenience alias used throughout the crate.
pub type Result<T> = std::result::Result<T, Error>;

// ---------------------------------------------------------------------------
// Constants
// ---------------------------------------------------------------------------

/// Default audio sample rate in Hz.
pub const DEFAULT_SAMPLE_RATE: u32 = 44_100;

/// Default audio buffer size in samples.
pub const DEFAULT_BUFFER_SIZE: usize = 128;

/// Maximum number of mixer tracks.
pub const MAX_TRACKS: usize = 16;

/// FFT size used for spectrum display.
pub const SPECTRUM_FFT_SIZE: usize = 2048;

/// Maximum number of effects per track.
pub const MAX_EFFECTS_PER_TRACK: usize = 8;

/// Maximum number of synth layers per track.
pub const MAX_SYNTH_LAYERS: usize = 4;

// ---------------------------------------------------------------------------
// Time position
// ---------------------------------------------------------------------------

/// A sample-accurate time position in the transport timeline.
#[derive(Debug, Clone, Copy)]
pub struct TimePosition {
    /// Absolute sample offset from the beginning.
    pub samples: u64,
    /// Sample rate this position is relative to.
    pub sample_rate: u32,
}

/// The sample rate a position is read with: a rate of zero counts as one.
pub open spec fn effective_rate(rate: u32) -> nat {
    if rate == 0 {
        1
    } else {
        rate as nat
    }
}

/// Elapsed time at `samples` / `rate` in milliseconds, rounded to the
/// nearest millisecond; an exact half goes to the even millisecond, as
/// three-decimal formatting of the seconds rounds it.
pub open spec fn total_millis(samples: u64, rate: u32) -> nat {
    let r = effective_rate(rate);
    let q = samples as nat * 1000 / r;
    let rem = samples as nat * 1000 % r;
    if 2 * rem > r || (2 * rem == r && q % 2 == 1) {
        q + 1
    } else {
        q
    }
}

/// `MM:SS.mmm` of the rounded elapsed time: whole minutes (at least two
/// digits, saturating at `u32::MAX`), then the seconds within the minute
/// (always below 60) with three decimals.
pub open spec fn format_time_spec(samples: u64, rate: u32) -> Seq<char> {
    let total = total_millis(samples, rate);
    let m = total / 60000;
    let shown = if m > u32::MAX { u32::MAX as nat } else { m };
    let ms = total % 60000;
    zero_padded(shown, 2) + seq![':'] + zero_padded(ms / 1000, 2) + seq!['.']
        + zero_padded(ms % 1000, 3)
}

impl TimePosition {
    /// Position at the very beginning (sample 0) with the default sample rate.
    pub fn zero() -> (t: Self)
        ensures
            t.samples == 0,
            t.sample_rate == DEFAULT_SAMPLE_RATE,
    {
        Self { samples: 0, sample_rate: DEFAULT_SAMPLE_RATE }
    }

    /// Create a position at a specific sample with the given rate; a rate of
    /// zero is replaced by one.
    pub fn new(samples: u64, sample_rate: u32) -> (t: Self)
        ensures
            t.samples == samples,
            t.sample_rate == (if sample_rate == 0 { 1 } else { sample_rate }),
    {
        Self { samples, sample_rate: if sample_rate == 0 { 1 } else { sample_rate } }
    }

    /// Format as `MM:SS.mmm`.
    pub fn format_time(&self) -> (s: String)
        ensures
            s@ == format_time_spec(self.samples, self.sample_rate),
    {
        let r: u128 = if self.sample_rate == 0 { 1 } else { self.sample_rate as u128 };
        let scaled: u128 = (self.samples as u128) * 1000;
        let q: u128 = scaled / r;
        let rem: u128 = scaled % r;
        assert(q <= scaled) by (nonlinear_arith)
            requires
                r >= 1,
                q == scaled / r,
                scaled >= 0,
        ;
        let total: u128 = if 2 * rem > r || (2 * rem == r && q % 2 == 1) {
            q + 1
        } else {
            q
        };
        let minutes: u128 = total / 60000;
        let shown: u64 = if minutes > u32::MAX as u128 { u32::MAX as u64 } else { minutes as u64 };
        let ms: u64 = (total % 60000) as u64;
        let mut s = String::new();
        push_zero_padded(&mut s, shown, 2);
        string_push(&mut s, ':');
        push_zero_padded(&mut s, ms / 1000, 2);
        string_push(&mut s, '.');
        push_zero_padded(&mut s, ms % 1000, 3);
        assert(s@ =~= format_time_spec(self.samples, self.sample_rate));
        s
    }
}

impl Default for TimePosition {
    fn default() -> (t: Self)
        ensures
            t.samples == 0,
            t.sample_rate == DEFAULT_SAMPLE_RATE,
    {
        Self::zero()
    }
}

// ---------------------------------------------------------------------------
// MIDI note names
// ---------------------------------------------------------------------------

/// Name of the pitch class `pc` (0 = C ... 11 = B), sharps for black keys.
pub open spec fn pitch_class_name(pc: nat) -> Seq<char> {
    if pc == 0 {
        seq!['C']
    } else if pc == 1 {
        seq!['C', '#']
    } else if pc == 2 {
        seq!['D']
    } else if pc == 3 {
        seq!['D', '#']
    } else if pc == 4 {
        seq!['E']
    } else if pc == 5 {
        seq!['F']
    } else if pc == 6 {
        seq!['F', '#']
    } else if pc == 7 {
        seq!['G']
    } else if pc == 8 {
        seq!['G', '#']
    } else if pc == 9 {
        seq!['A']
    } else if pc == 10 {
        seq!['A', '#']
    } else {
        seq!['B']
    }
}

/// Signed decimal text of `v`.
pub open spec fn signed_decimal(v: int) -> Seq<char> {
    if v < 0 {
        seq!['-'] + decimal_digits((-v) as nat)
    } else {
        decimal_digits(v as nat)
    }
}

/// MIDI note name: pitch class followed by the octave `note / 12 - 1`
/// (note 0 is C-1, note 60 is C4, note 69 is A4).
pub open spec fn midi_note_name_spec(note: u8) -> Seq<char> {
    pitch_class_name((note % 12) as nat) + signed_decimal(note / 12 - 1)
}

/// MIDI note name (e.g. `"A4"`, `"C#3"`).
///
/// Uses the standard MIDI convention where MIDI note 0 is C-1, MIDI note 12
/// is C0, MIDI note 60 is C4, and MIDI note 69 is A4.
pub fn midi_note_name(note: u8) -> (s: String)
    ensures
        s@ == midi_note_name_spec(note),
{
    let mut s = String::new();
    let pc = note % 12;
    let (letter, sharp) = if pc == 0 {
        ('C', false)
    } else if pc == 1 {
        ('C', true)
    } else if pc == 2 {
        ('D', false)
    } else if pc == 3 {
        ('D', true)
    } else if pc == 4 {
        ('E', false)
    } else if pc == 5 {
        ('F', false)
    } else if pc == 6 {
        ('F', true)
    } else if pc == 7 {
        ('G', false)
    } else if pc == 8 {
        ('G', true)
    } else if pc == 9 {
        ('A', false)
    } else if pc == 10 {
        ('A', true)
    } else {
        ('B', false)
    };
    string_push(&mut s, letter);
    if sharp {
        string_push(&mut s, '#');
    }
    assert(s@ =~= pitch_class_name(pc as nat));
    let octave = note / 12;
    if octave == 0 {
        string_push(&mut s, '-');
        string_push(&mut s, '1');
        assert(decimal_digits(1) =~= seq!['1']);
    } else {
        push_decimal(&mut s, (octave - 1) as u64);
    }
    assert(s@ =~= midi_note_name_spec(note));
    s
}

} // verus!
