//! Small pipe-friendly musical notation.
//!
//! This is intentionally not a full music language. It is a compact textual
//! event format that humans and agents can type, pipe, or generate without a
//! GUI:
//!
//! ```text
//! c4/4 d4/8 eb4/8 [g4 bb4 d5]/2 r/4
//! ```
//!
//! Tokens are separated by whitespace. A token is either a note, a rest
//! (`r`), or a chord in square brackets. Durations are written after `/` as
//! note values: `1` whole, `2` half, `4` quarter, `8` eighth, etc. Dotted
//! durations append `.`. Notes are MIDI-style pitch spellings with octave
//! numbers; middle C is `c4` / MIDI note 60.
//!
//! This module parses the text into tokens holding their MIDI notes and
//! note values; a note value `1/d` (dotted or not) lasts `4/d` quarter-note
//! beats, times 1.5 when dotted.
use vstd::prelude::*;
use vstd::string::StringExecFns;

use crate::text::{
    chars_of, decimal_digits, is_digit, lemma_decimal_digits_numeral, parse_i16, parse_i16_spec,
    parse_u32, parse_u32_spec, string_from_chars, string_push,
};
use crate::{midi_note_name_spec, pitch_class_name, signed_decimal};

verus! {

// ---------------------------------------------------------------------------
// Character classes
// ---------------------------------------------------------------------------

/// `c` has the Unicode `White_Space` property (what `char::is_whitespace`
/// tests).
pub open spec fn is_whitespace_spec(c: char) -> bool {
    ('\u{9}' <= c && c <= '\u{d}') || c == ' ' || c == '\u{85}' || c == '\u{a0}' || c
        == '\u{1680}' || ('\u{2000}' <= c && c <= '\u{200a}') || c == '\u{2028}' || c
        == '\u{2029}' || c == '\u{202f}' || c == '\u{205f}' || c == '\u{3000}'
}

/// Whether `c` is Unicode whitespace.
pub fn is_whitespace(c: char) -> (r: bool)
    ensures
        r == is_whitespace_spec(c),
{
    ('\u{9}' <= c && c <= '\u{d}') || c == ' ' || c == '\u{85}' || c == '\u{a0}' || c
        == '\u{1680}' || ('\u{2000}' <= c && c <= '\u{200a}') || c == '\u{2028}' || c
        == '\u{2029}' || c == '\u{202f}' || c == '\u{205f}' || c == '\u{3000}'
}

/// `c` with an ASCII upper-case letter turned into lower case.
pub open spec fn ascii_lower_spec(c: char) -> char {
    if 'A' <= c && c <= 'Z' {
        (((c as u32) + 32) as u8) as char
    } else {
        c
    }
}

/// `c` with an ASCII upper-case letter turned into lower case.
pub fn ascii_lower(c: char) -> (r: char)
    ensures
        r == ascii_lower_spec(c),
{
    if 'A' <= c && c <= 'Z' {
        let v: u32 = (c as u32) + 32;
        (v as u8) as char
    } else {
        c
    }
}

// ---------------------------------------------------------------------------
// Errors
// ---------------------------------------------------------------------------

/// What is wrong with a token.
#[derive(Debug, Clone, Copy, PartialEq, Eq, Structural)]
pub enum NotationFault {
    /// No `/` before a duration.
    MissingDuration,
    /// Nothing before the `/`.
    MissingBody,
    /// The duration is not a decimal `u32`.
    BadDenominator,
    /// The duration is `0`.
    ZeroDenominator,
    /// A chord without notes.
    EmptyChord,
    /// An empty note.
    EmptyNote,
    /// The note starts with something other than a letter `a`-`g`.
    UnknownLetter(char),
    /// The note has no octave number.
    MissingOctave,
    /// The note is outside MIDI range.
    OutOfRange,
}

/// The diagnostic text of a fault.
pub open spec fn fault_message(f: NotationFault) -> Seq<char> {
    match f {
        NotationFault::MissingDuration => "missing duration like /4 or /8"@,
        NotationFault::MissingBody => "missing note, chord, or rest before duration"@,
        NotationFault::BadDenominator => "duration denominator must be a positive integer"@,
        NotationFault::ZeroDenominator => "duration denominator must be non-zero"@,
        NotationFault::EmptyChord => "chord must contain at least one note"@,
        NotationFault::EmptyNote => "empty note"@,
        NotationFault::UnknownLetter(c) => "unknown note letter: "@.push(c),
        NotationFault::MissingOctave => "note must include an octave, e.g. c4"@,
        NotationFault::OutOfRange => "note is outside MIDI range 0..127"@,
    }
}

impl NotationFault {
    /// The human-readable diagnostic.
    pub fn message(&self) -> (m: String)
        ensures
            m@ == fault_message(*self),
    {
        match self {
            NotationFault::MissingDuration => String::from_str("missing duration like /4 or /8"),
            NotationFault::MissingBody => String::from_str(
                "missing note, chord, or rest before duration",
            ),
            NotationFault::BadDenominator => String::from_str(
                "duration denominator must be a positive integer",
            ),
            NotationFault::ZeroDenominator => String::from_str(
                "duration denominator must be non-zero",
            ),
            NotationFault::EmptyChord => String::from_str("chord must contain at least one note"),
            NotationFault::EmptyNote => String::from_str("empty note"),
            NotationFault::UnknownLetter(c) => {
                let mut m = String::from_str("unknown note letter: ");
                string_push(&mut m, *c);
                m
            },
            NotationFault::MissingOctave => String::from_str(
                "note must include an octave, e.g. c4",
            ),
            NotationFault::OutOfRange => String::from_str("note is outside MIDI range 0..127"),
        }
    }
}

/// Error returned by the text notation parser.
#[derive(Debug, Clone)]
pub struct NotationError {
    /// Token index where parsing failed.
    pub token_index: usize,
    /// Human-readable diagnostic.
    pub message: String,
}

// ---------------------------------------------------------------------------
// Tokenizer
// ---------------------------------------------------------------------------

/// Tokenizer state: the finished tokens, the token being read, and whether
/// the reader is inside a chord's brackets.
pub struct TokState {
    pub tokens: Seq<Seq<char>>,
    pub current: Seq<char>,
    pub in_chord: bool,
}

/// One character of tokenizing: brackets open and close a chord and stay in
/// the token; whitespace outside a chord ends the current token (if any);
/// anything else is added to it.
pub open spec fn tok_step(st: TokState, c: char) -> TokState {
    if c == '[' {
        TokState { current: st.current.push(c), in_chord: true, ..st }
    } else if c == ']' {
        TokState { current: st.current.push(c), in_chord: false, ..st }
    } else if is_whitespace_spec(c) && !st.in_chord {
        if st.current.len() > 0 {
            TokState { tokens: st.tokens.push(st.current), current: Seq::empty(), ..st }
        } else {
            st
        }
    } else {
        TokState { current: st.current.push(c), ..st }
    }
}

/// Tokenizer state after reading all of `s`.
pub open spec fn tok_run(s: Seq<char>) -> TokState
    decreases s.len(),
{
    if s.len() == 0 {
        TokState { tokens: Seq::empty(), current: Seq::empty(), in_chord: false }
    } else {
        tok_step(tok_run(s.drop_last()), s.last())
    }
}

/// The tokens of `s`: whitespace-separated, where whitespace inside square
/// brackets does not separate.
pub open spec fn tokenize_spec(s: Seq<char>) -> Seq<Seq<char>> {
    let st = tok_run(s);
    if st.current.len() > 0 {
        st.tokens.push(st.current)
    } else {
        st.tokens
    }
}

/// The views of a sequence of strings.
pub open spec fn string_views(v: Seq<String>) -> Seq<Seq<char>> {
    Seq::new(v.len(), |i: int| v[i]@)
}

/// Splits `input` into tokens.
pub fn tokenize(input: &str) -> (tokens: Vec<String>)
    ensures
        string_views(tokens@) == tokenize_spec(input@),
{
    let cs = chars_of(input);
    let mut tokens: Vec<String> = Vec::new();
    let mut current: Vec<char> = Vec::new();
    let mut in_chord = false;
    let mut i: usize = 0;
    while i < cs.len()
        invariant
            i <= cs@.len(),
            ({
                let st = tok_run(cs@.take(i as int));
                &&& string_views(tokens@) == st.tokens
                &&& current@ == st.current
                &&& in_chord == st.in_chord
            }),
        decreases cs@.len() - i,
    {
        let c = cs[i];
        assert(cs@.take(i + 1).drop_last() =~= cs@.take(i as int));
        assert(cs@.take(i + 1).last() == c);
        if c == '[' {
            in_chord = true;
            current.push(c);
        } else if c == ']' {
            in_chord = false;
            current.push(c);
        } else if is_whitespace(c) && !in_chord {
            if current.len() > 0 {
                let ghost before = tokens@;
                tokens.push(string_from_chars(current.as_slice()));
                assert(string_views(tokens@) =~= string_views(before).push(current@));
                current = Vec::new();
            }
        } else {
            current.push(c);
        }
        i = i + 1;
    }
    assert(cs@.take(i as int) =~= cs@);
    if current.len() > 0 {
        let ghost before = tokens@;
        tokens.push(string_from_chars(current.as_slice()));
        assert(string_views(tokens@) =~= string_views(before).push(current@));
    }
    tokens
}

/// Every token is non-empty.
pub proof fn lemma_tokens_nonempty(s: Seq<char>)
    ensures
        forall|i: int| 0 <= i < tokenize_spec(s).len() ==> #[trigger] tokenize_spec(s)[i].len() > 0,
{
    lemma_tok_run_nonempty(s);
}

/// The finished tokens of a run are all non-empty.
proof fn lemma_tok_run_nonempty(s: Seq<char>)
    ensures
        forall|i: int| 0 <= i < tok_run(s).tokens.len() ==> #[trigger] tok_run(s).tokens[i].len() > 0,
    decreases s.len(),
{
    if s.len() > 0 {
        lemma_tok_run_nonempty(s.drop_last());
        let prev = tok_run(s.drop_last());
        let next = tok_run(s);
        assert(next == tok_step(prev, s.last()));
        assert forall|i: int| 0 <= i < next.tokens.len() implies #[trigger] next.tokens[i].len() > 0 by {
            if i < prev.tokens.len() {
                assert(next.tokens[i] == prev.tokens[i]);
            }
        }
    }
}

// ---------------------------------------------------------------------------
// Durations
// ---------------------------------------------------------------------------

/// A note value `1/denominator`, dotted or not. It lasts
/// `4 / denominator` quarter-note beats, times 1.5 when dotted.
#[derive(Debug, Clone, Copy, PartialEq, Eq, Structural)]
pub struct NoteValue {
    /// Denominator of the note value (4 = quarter note); never 0.
    pub denominator: u32,
    /// Whether the value is dotted.
    pub dotted: bool,
}

/// Index of the last `c` in `s`, or -1.
pub open spec fn last_index_of(s: Seq<char>, c: char) -> int
    decreases s.len(),
{
    if s.len() == 0 {
        -1
    } else if s.last() == c {
        s.len() - 1
    } else {
        last_index_of(s.drop_last(), c)
    }
}

/// `s` without its trailing `'.'` characters.
pub open spec fn trim_trailing_dots(s: Seq<char>) -> Seq<char>
    decreases s.len(),
{
    if s.len() > 0 && s.last() == '.' {
        trim_trailing_dots(s.drop_last())
    } else {
        s
    }
}

/// A token split at its last `/` into the body and the note value: the
/// duration after the `/` is a decimal `u32` other than 0, optionally
/// followed by dots (any trailing dot makes the value dotted).
pub open spec fn split_duration_spec(t: Seq<char>) -> Result<(Seq<char>, NoteValue), NotationFault> {
    let k = last_index_of(t, '/');
    if k < 0 {
        Err(NotationFault::MissingDuration)
    } else if k == 0 {
        Err(NotationFault::MissingBody)
    } else {
        let duration = t.skip(k + 1);
        let dotted = duration.len() > 0 && duration.last() == '.';
        match parse_u32_spec(trim_trailing_dots(duration)) {
            None => Err(NotationFault::BadDenominator),
            Some(d) => if d == 0 {
                Err(NotationFault::ZeroDenominator)
            } else {
                Ok((t.take(k), NoteValue { denominator: d, dotted }))
            },
        }
    }
}

/// Splits a token into its body and note value.
pub fn split_duration_chars(t: &[char]) -> (r: Result<(Vec<char>, NoteValue), NotationFault>)
    ensures
        match split_duration_spec(t@) {
            Ok((body, v)) => r matches Ok((b, rv)) && b@ == body && rv == v,
            Err(f) => r == Err::<(Vec<char>, NoteValue), NotationFault>(f),
        },
{
    let mut k: usize = t.len();
    assert(t@.take(k as int) =~= t@);
    while k > 0 && t[k - 1] != '/'
        invariant
            k <= t@.len(),
            last_index_of(t@, '/') == last_index_of(t@.take(k as int), '/'),
        decreases k,
    {
        assert(t@.take(k as int).drop_last() =~= t@.take(k - 1));
        k = k - 1;
    }
    if k == 0 {
        assert(t@.take(0) =~= Seq::<char>::empty());
        return Err(NotationFault::MissingDuration);
    }
    assert(t@.take(k as int).last() == '/');
    let slash = k - 1;
    if slash == 0 {
        return Err(NotationFault::MissingBody);
    }
    let mut duration: Vec<char> = Vec::new();
    let mut i: usize = k;
    while i < t.len()
        invariant
            k <= i <= t@.len(),
            duration@ == t@.subrange(k as int, i as int),
        decreases t@.len() - i,
    {
        duration.push(t[i]);
        i = i + 1;
        assert(duration@ =~= t@.subrange(k as int, i as int));
    }
    assert(duration@ =~= t@.skip(k as int));
    let dotted = duration.len() > 0 && duration[duration.len() - 1] == '.';
    let mut e: usize = duration.len();
    assert(duration@.take(e as int) =~= duration@);
    while e > 0 && duration[e - 1] == '.'
        invariant
            e <= duration@.len(),
            trim_trailing_dots(duration@) == trim_trailing_dots(duration@.take(e as int)),
        decreases e,
    {
        assert(duration@.take(e as int).drop_last() =~= duration@.take(e - 1));
        e = e - 1;
    }
    let digits = vstd::slice::slice_subrange(duration.as_slice(), 0, e);
    assert(digits@ =~= duration@.take(e as int));
    assert(trim_trailing_dots(duration@) == digits@);
    match parse_u32(digits) {
        None => Err(NotationFault::BadDenominator),
        Some(d) => {
            if d == 0 {
                return Err(NotationFault::ZeroDenominator);
            }
            let mut body: Vec<char> = Vec::new();
            let mut j: usize = 0;
            while j < slash
                invariant
                    j <= slash < t@.len(),
                    body@ == t@.take(j as int),
                decreases slash - j,
            {
                body.push(t[j]);
                j = j + 1;
                assert(body@ =~= t@.take(j as int));
            }
            Ok((body, NoteValue { denominator: d, dotted }))
        },
    }
}

/// Splits a token into its body and note value.
pub fn split_duration(token: &str) -> (r: Result<(String, NoteValue), String>)
    ensures
        match split_duration_spec(token@) {
            Ok((body, v)) => r matches Ok((b, rv)) && b@ == body && rv == v,
            Err(f) => r matches Err(m) && m@ == fault_message(f),
        },
{
    let cs = chars_of(token);
    match split_duration_chars(cs.as_slice()) {
        Ok((body, v)) => Ok((string_from_chars(body.as_slice()), v)),
        Err(f) => Err(f.message()),
    }
}

// ---------------------------------------------------------------------------
// Notes
// ---------------------------------------------------------------------------

/// Pitch class of a lower-case note letter (`c` = 0 ... `b` = 11).
pub open spec fn pitch_class_of(c: char) -> Option<int> {
    if c == 'c' {
        Some(0)
    } else if c == 'd' {
        Some(2)
    } else if c == 'e' {
        Some(4)
    } else if c == 'f' {
        Some(5)
    } else if c == 'g' {
        Some(7)
    } else if c == 'a' {
        Some(9)
    } else if c == 'b' {
        Some(11)
    } else {
        None
    }
}

/// The accidental after the letter of `s`: `#` raises by one, `b` or `♭`
/// lowers by one.
pub open spec fn accidental_of(s: Seq<char>) -> int {
    if s.len() > 1 && s[1] == '#' {
        1
    } else if s.len() > 1 && (s[1] == 'b' || s[1] == '\u{266d}') {
        -1
    } else {
        0
    }
}

/// Where the octave number of `s` starts: after the letter and any
/// accidental.
pub open spec fn octave_start(s: Seq<char>) -> int {
    if accidental_of(s) != 0 {
        2
    } else {
        1
    }
}

/// A note spelling: a letter `a`-`g` (either case), an optional accidental
/// and an octave number; middle C is `c4` / MIDI note 60. The note must lie
/// in MIDI range 0..=127.
pub open spec fn parse_note_spec(s: Seq<char>) -> Result<u8, NotationFault> {
    if s.len() == 0 {
        Err(NotationFault::EmptyNote)
    } else {
        match pitch_class_of(ascii_lower_spec(s[0])) {
            None => Err(NotationFault::UnknownLetter(s[0])),
            Some(pc) => match parse_i16_spec(s.skip(octave_start(s))) {
                None => Err(NotationFault::MissingOctave),
                Some(octave) => {
                    let midi = (octave + 1) * 12 + pc + accidental_of(s);
                    if 0 <= midi && midi <= 127 {
                        Ok(midi as u8)
                    } else {
                        Err(NotationFault::OutOfRange)
                    }
                },
            },
        }
    }
}

/// Parses a note spelling into its MIDI note number. The number is
/// computed exactly, so any octave too far out gives `OutOfRange`.
pub fn parse_note_chars(s: &[char]) -> (r: Result<u8, NotationFault>)
    ensures
        r == parse_note_spec(s@),
{
    if s.len() == 0 {
        return Err(NotationFault::EmptyNote);
    }
    let letter = s[0];
    let lower = ascii_lower(letter);
    let pc: i32 = if lower == 'c' {
        0
    } else if lower == 'd' {
        2
    } else if lower == 'e' {
        4
    } else if lower == 'f' {
        5
    } else if lower == 'g' {
        7
    } else if lower == 'a' {
        9
    } else if lower == 'b' {
        11
    } else {
        return Err(NotationFault::UnknownLetter(letter));
    };
    let acc: i32 = if s.len() > 1 && s[1] == '#' {
        1
    } else if s.len() > 1 && (s[1] == 'b' || s[1] == '\u{266d}') {
        -1
    } else {
        0
    };
    let start: usize = if acc != 0 { 2 } else { 1 };
    let mut rest: Vec<char> = Vec::new();
    let mut i: usize = start;
    while i < s.len()
        invariant
            start <= i <= s@.len(),
            start <= 2,
            rest@ == s@.subrange(start as int, i as int),
        decreases s@.len() - i,
    {
        rest.push(s[i]);
        i = i + 1;
        assert(rest@ =~= s@.subrange(start as int, i as int));
    }
    assert(rest@ =~= s@.skip(start as int));
    match parse_i16(rest.as_slice()) {
        None => Err(NotationFault::MissingOctave),
        Some(octave) => {
            let midi: i32 = ((octave as i32) + 1) * 12 + pc + acc;
            if 0 <= midi && midi <= 127 {
                Ok(midi as u8)
            } else {
                Err(NotationFault::OutOfRange)
            }
        },
    }
}

/// Parses a note spelling into its MIDI note number.
pub fn parse_note(note: &str) -> (r: Result<u8, String>)
    ensures
        match parse_note_spec(note@) {
            Ok(n) => r == Ok::<u8, String>(n),
            Err(f) => r matches Err(m) && m@ == fault_message(f),
        },
{
    let cs = chars_of(note);
    match parse_note_chars(cs.as_slice()) {
        Ok(n) => Ok(n),
        Err(f) => Err(f.message()),
    }
}

// ---------------------------------------------------------------------------
// Note bodies: rests, chords and single notes
// ---------------------------------------------------------------------------

/// Word splitter state: the finished words and the word being read.
pub struct WordState {
    pub words: Seq<Seq<char>>,
    pub current: Seq<char>,
}

/// Word splitter state after reading all of `s`.
pub open spec fn word_run(s: Seq<char>) -> WordState
    decreases s.len(),
{
    if s.len() == 0 {
        WordState { words: Seq::empty(), current: Seq::empty() }
    } else {
        let st = word_run(s.drop_last());
        let c = s.last();
        if is_whitespace_spec(c) {
            if st.current.len() > 0 {
                WordState { words: st.words.push(st.current), current: Seq::empty() }
            } else {
                st
            }
        } else {
            WordState { current: st.current.push(c), ..st }
        }
    }
}

/// The whitespace-separated words of `s` (what `str::split_whitespace`
/// yields).
pub open spec fn words_spec(s: Seq<char>) -> Seq<Seq<char>> {
    let st = word_run(s);
    if st.current.len() > 0 {
        st.words.push(st.current)
    } else {
        st.words
    }
}

/// The whitespace-separated words of `s`.
pub fn split_words(s: &[char]) -> (words: Vec<Vec<char>>)
    ensures
        words@.len() == words_spec(s@).len(),
        forall|i: int| 0 <= i < words@.len() ==> #[trigger] words@[i]@ == words_spec(s@)[i],
{
    let mut words: Vec<Vec<char>> = Vec::new();
    let mut current: Vec<char> = Vec::new();
    let mut i: usize = 0;
    while i < s.len()
        invariant
            i <= s@.len(),
            ({
                let st = word_run(s@.take(i as int));
                &&& words@.len() == st.words.len()
                &&& forall|j: int| 0 <= j < words@.len() ==> #[trigger] words@[j]@ == st.words[j]
                &&& current@ == st.current
            }),
        decreases s@.len() - i,
    {
        let c = s[i];
        assert(s@.take(i + 1).drop_last() =~= s@.take(i as int));
        assert(s@.take(i + 1).last() == c);
        if is_whitespace(c) {
            if current.len() > 0 {
                words.push(current);
                current = Vec::new();
            }
        } else {
            current.push(c);
        }
        i = i + 1;
    }
    assert(s@.take(i as int) =~= s@);
    if current.len() > 0 {
        words.push(current);
    }
    words
}

/// `a` and `b` are equal ignoring ASCII case.
pub open spec fn eq_ignore_ascii_case_spec(a: Seq<char>, b: Seq<char>) -> bool {
    a.len() == b.len() && forall|i: int| 0 <= i < a.len() ==> ascii_lower_spec(#[trigger] a[i])
        == ascii_lower_spec(b[i])
}

/// The body is a rest: `r` or `rest`, in any ASCII case.
pub open spec fn is_rest_spec(body: Seq<char>) -> bool {
    eq_ignore_ascii_case_spec(body, seq!['r']) || eq_ignore_ascii_case_spec(
        body,
        seq!['r', 'e', 's', 't'],
    )
}

/// The body is a chord: `[`, the notes, `]`.
pub open spec fn is_chord_spec(body: Seq<char>) -> bool {
    body.len() >= 2 && body[0] == '[' && body.last() == ']'
}

/// The text between a chord's brackets.
pub open spec fn chord_inner(body: Seq<char>) -> Seq<char> {
    body.subrange(1, body.len() - 1)
}

/// The notes of the chord words `ws`, in order; the first word that is not
/// a note gives the fault.
pub open spec fn chord_notes_spec(ws: Seq<Seq<char>>) -> Result<Seq<u8>, NotationFault>
    decreases ws.len(),
{
    if ws.len() == 0 {
        Ok(Seq::empty())
    } else {
        match chord_notes_spec(ws.drop_last()) {
            Err(f) => Err(f),
            Ok(notes) => match parse_note_spec(ws.last()) {
                Err(f) => Err(f),
                Ok(n) => Ok(notes.push(n)),
            },
        }
    }
}

/// The MIDI notes of a body: none for a rest, the chord's notes (at least
/// one) for a chord, or the single note.
pub open spec fn parse_body_spec(body: Seq<char>) -> Result<Seq<u8>, NotationFault> {
    if is_rest_spec(body) {
        Ok(Seq::empty())
    } else if is_chord_spec(body) {
        match chord_notes_spec(words_spec(chord_inner(body))) {
            Err(f) => Err(f),
            Ok(notes) => if notes.len() == 0 {
                Err(NotationFault::EmptyChord)
            } else {
                Ok(notes)
            },
        }
    } else {
        match parse_note_spec(body) {
            Err(f) => Err(f),
            Ok(n) => Ok(seq![n]),
        }
    }
}

/// Whether `s` equals `target` (lower-case ASCII) ignoring ASCII case.
fn eq_ignore_case(s: &[char], target: &[char]) -> (r: bool)
    ensures
        r == eq_ignore_ascii_case_spec(s@, target@.map_values(|c: char| ascii_lower_spec(c))),
{
    if s.len() != target.len() {
        return false;
    }
    let ghost t = target@.map_values(|c: char| ascii_lower_spec(c));
    let mut i: usize = 0;
    while i < s.len()
        invariant
            i <= s@.len() == target@.len() == t.len(),
            t == target@.map_values(|c: char| ascii_lower_spec(c)),
            forall|j: int| 0 <= j < i ==> ascii_lower_spec(#[trigger] s@[j]) == ascii_lower_spec(
                t[j],
            ),
        decreases s@.len() - i,
    {
        let a = ascii_lower(s[i]);
        let b = ascii_lower(target[i]);
        assert(ascii_lower_spec(t[i as int]) == ascii_lower_spec(ascii_lower_spec(target@[i as int])));
        if a != b {
            assert(ascii_lower_spec(ascii_lower_spec(target@[i as int])) == ascii_lower_spec(target@[i as int])) by {
                lemma_ascii_lower_idempotent(target@[i as int]);
            }
            return false;
        }
        proof {
            lemma_ascii_lower_idempotent(target@[i as int]);
        }
        i = i + 1;
    }
    true
}

/// Lower-casing twice is lower-casing once.
proof fn lemma_ascii_lower_idempotent(c: char)
    ensures
        ascii_lower_spec(ascii_lower_spec(c)) == ascii_lower_spec(c),
{
    if 'A' <= c && c <= 'Z' {
        let v: int = (c as u32) + 32;
        assert(97 <= v <= 122);
        let b: u8 = v as u8;
        assert(b as int == v);
        assert((b as char) as int == v);
    }
}

/// Parses a body into its MIDI notes.
pub fn parse_body_chars(body: &[char]) -> (r: Result<Vec<u8>, NotationFault>)
    ensures
        match parse_body_spec(body@) {
            Ok(notes) => r matches Ok(v) && v@ == notes,
            Err(f) => r matches Err(rf) && rf == f,
        },
{
    let r1 = ['r'];
    let r4 = ['r', 'e', 's', 't'];
    proof {
        assert(r1@.map_values(|c: char| ascii_lower_spec(c)) =~= seq!['r']);
        assert(r4@.map_values(|c: char| ascii_lower_spec(c)) =~= seq!['r', 'e', 's', 't']);
    }
    if eq_ignore_case(body, r1.as_slice()) || eq_ignore_case(body, r4.as_slice()) {
        return Ok(Vec::new());
    }
    let n = body.len();
    if n >= 2 && body[0] == '[' && body[n - 1] == ']' {
        let inner = vstd::slice::slice_subrange(body, 1, n - 1);
        assert(inner@ =~= chord_inner(body@));
        let words = split_words(inner);
        let ghost ws = words_spec(inner@);
        let mut notes: Vec<u8> = Vec::new();
        let mut i: usize = 0;
        assert(ws.take(0) =~= Seq::<Seq<char>>::empty());
        while i < words.len()
            invariant
                i <= words@.len() == ws.len(),
                ws == words_spec(chord_inner(body@)),
                !is_rest_spec(body@),
                is_chord_spec(body@),
                forall|j: int| 0 <= j < words@.len() ==> #[trigger] words@[j]@ == ws[j],
                chord_notes_spec(ws.take(i as int)) == Ok::<Seq<u8>, NotationFault>(notes@),
            decreases words@.len() - i,
        {
            assert(ws.take(i + 1).drop_last() =~= ws.take(i as int));
            assert(ws.take(i + 1).last() == words@[i as int]@);
            match parse_note_chars(words[i].as_slice()) {
                Ok(note) => {
                    notes.push(note);
                },
                Err(f) => {
                    proof {
                        lemma_chord_notes_prefix_err(ws, i + 1);
                    }
                    return Err(f);
                },
            }
            i = i + 1;
        }
        assert(ws.take(i as int) =~= ws);
        if notes.len() == 0 {
            return Err(NotationFault::EmptyChord);
        }
        return Ok(notes);
    }
    match parse_note_chars(body) {
        Ok(note) => {
            let v = vec![note];
            assert(v@ =~= seq![note]);
            Ok(v)
        },
        Err(f) => Err(f),
    }
}

/// A body's MIDI notes.
pub fn parse_body(body: &str) -> (r: Result<Vec<u8>, String>)
    ensures
        match parse_body_spec(body@) {
            Ok(notes) => r matches Ok(v) && v@ == notes,
            Err(f) => r matches Err(m) && m@ == fault_message(f),
        },
{
    let cs = chars_of(body);
    match parse_body_chars(cs.as_slice()) {
        Ok(v) => Ok(v),
        Err(f) => Err(f.message()),
    }
}

/// An error in a prefix of the chord words is the error of all of them.
proof fn lemma_chord_notes_prefix_err(ws: Seq<Seq<char>>, k: int)
    requires
        0 <= k <= ws.len(),
        chord_notes_spec(ws.take(k)) is Err,
    ensures
        chord_notes_spec(ws) == chord_notes_spec(ws.take(k)),
    decreases ws.len() - k,
{
    if k < ws.len() {
        assert(ws.take(k + 1).drop_last() =~= ws.take(k));
        lemma_chord_notes_prefix_err(ws, k + 1);
    } else {
        assert(ws.take(k) =~= ws);
    }
}

// ---------------------------------------------------------------------------
// Whole phrases
// ---------------------------------------------------------------------------

/// One parsed token: its MIDI notes (none for a rest) and its note value.
#[derive(Debug, Clone)]
pub struct NotationToken {
    /// MIDI note numbers. Empty means a rest.
    pub notes: Vec<u8>,
    /// How long the token lasts.
    pub value: NoteValue,
}

impl NotationToken {
    /// Whether this token is a rest.
    pub fn is_rest(&self) -> (r: bool)
        ensures
            r == (self.notes@.len() == 0),
    {
        self.notes.len() == 0
    }
}

/// A token's notes and note value.
pub open spec fn parse_token_spec(t: Seq<char>) -> Result<(Seq<u8>, NoteValue), NotationFault> {
    match split_duration_spec(t) {
        Err(f) => Err(f),
        Ok((body, v)) => match parse_body_spec(body) {
            Err(f) => Err(f),
            Ok(notes) => Ok((notes, v)),
        },
    }
}

/// The parsed tokens `ts`, in order; the first token that does not parse
/// gives its index and fault.
pub open spec fn parse_tokens_spec(ts: Seq<Seq<char>>) -> Result<
    Seq<(Seq<u8>, NoteValue)>,
    (int, NotationFault),
>
    decreases ts.len(),
{
    if ts.len() == 0 {
        Ok(Seq::empty())
    } else {
        match parse_tokens_spec(ts.drop_last()) {
            Err(e) => Err(e),
            Ok(done) => match parse_token_spec(ts.last()) {
                Err(f) => Err((ts.len() - 1, f)),
                Ok(x) => Ok(done.push(x)),
            },
        }
    }
}

/// What the notation `input` says: its parsed tokens, or the index of the
/// first bad token and what is wrong with it.
pub open spec fn parse_notation_spec(input: Seq<char>) -> Result<
    Seq<(Seq<u8>, NoteValue)>,
    (int, NotationFault),
> {
    parse_tokens_spec(tokenize_spec(input))
}

/// Parses pipe-friendly text notation into its tokens, in order.
pub fn parse_tokens(input: &str) -> (r: Result<Vec<NotationToken>, NotationError>)
    ensures
        match parse_notation_spec(input@) {
            Ok(toks) => r matches Ok(v) && v@.len() == toks.len() && forall|i: int|
                0 <= i < v@.len() ==> (#[trigger] v@[i]).notes@ == toks[i].0 && v@[i].value
                    == toks[i].1,
            Err((idx, f)) => r matches Err(e) && e.token_index == idx && e.message@
                == fault_message(f),
        },
{
    let tokens = tokenize(input);
    let ghost ts = tokenize_spec(input@);
    let mut out: Vec<NotationToken> = Vec::new();
    let mut i: usize = 0;
    assert(ts.take(0) =~= Seq::<Seq<char>>::empty());
    while i < tokens.len()
        invariant
            i <= tokens@.len() == ts.len(),
            ts == tokenize_spec(input@),
            string_views(tokens@) == ts,
            parse_tokens_spec(ts.take(i as int)) matches Ok(done) && out@.len() == done.len()
                && forall|j: int|
                0 <= j < out@.len() ==> (#[trigger] out@[j]).notes@ == done[j].0 && out@[j].value
                    == done[j].1,
        decreases tokens@.len() - i,
    {
        let ghost t = ts[i as int];
        assert(tokens@[i as int]@ == t);
        assert(ts.take(i + 1).drop_last() =~= ts.take(i as int));
        assert(ts.take(i + 1).last() == t);
        let cs = chars_of(tokens[i].as_str());
        match split_duration_chars(cs.as_slice()) {
            Err(f) => {
                proof {
                    lemma_tokens_prefix_err(ts, i + 1);
                }
                return Err(NotationError { token_index: i, message: f.message() });
            },
            Ok((body, value)) => match parse_body_chars(body.as_slice()) {
                Err(f) => {
                    proof {
                        lemma_tokens_prefix_err(ts, i + 1);
                    }
                    return Err(NotationError { token_index: i, message: f.message() });
                },
                Ok(notes) => {
                    out.push(NotationToken { notes, value });
                },
            },
        }
        i = i + 1;
    }
    assert(ts.take(i as int) =~= ts);
    Ok(out)
}

/// An error in a prefix of the tokens is the error of all of them.
proof fn lemma_tokens_prefix_err(ts: Seq<Seq<char>>, k: int)
    requires
        0 <= k <= ts.len(),
        parse_tokens_spec(ts.take(k)) is Err,
    ensures
        parse_tokens_spec(ts) == parse_tokens_spec(ts.take(k)),
    decreases ts.len() - k,
{
    if k < ts.len() {
        assert(ts.take(k + 1).drop_last() =~= ts.take(k));
        lemma_tokens_prefix_err(ts, k + 1);
    } else {
        assert(ts.take(k) =~= ts);
    }
}

/// The tokens `ts` are read one by one: they parse exactly when each does,
/// giving one entry per token, in order, each the parse of its token;
/// otherwise the error names the first token that does not parse and its
/// fault.
proof fn lemma_tokens_one_by_one(ts: Seq<Seq<char>>)
    ensures
        match parse_tokens_spec(ts) {
            Ok(toks) => toks.len() == ts.len() && forall|i: int|
                0 <= i < ts.len() ==> parse_token_spec(#[trigger] ts[i]) == Ok::<
                    (Seq<u8>, NoteValue),
                    NotationFault,
                >(toks[i]),
            Err((idx, f)) => 0 <= idx < ts.len() && parse_token_spec(ts[idx]) == Err::<
                (Seq<u8>, NoteValue),
                NotationFault,
            >(f) && forall|j: int| 0 <= j < idx ==> parse_token_spec(#[trigger] ts[j]) is Ok,
        },
    decreases ts.len(),
{
    if ts.len() > 0 {
        let init = ts.drop_last();
        lemma_tokens_one_by_one(init);
        assert forall|j: int| 0 <= j < init.len() implies init[j] == ts[j] by {}
        match parse_tokens_spec(init) {
            Ok(done) => {
                match parse_token_spec(ts.last()) {
                    Ok(x) => {
                        let toks = done.push(x);
                        assert forall|i: int| 0 <= i < ts.len() implies parse_token_spec(
                            #[trigger] ts[i],
                        ) == Ok::<(Seq<u8>, NoteValue), NotationFault>(toks[i]) by {
                            if i < init.len() {
                                assert(init[i] == ts[i]);
                            }
                        }
                    },
                    Err(f) => {
                        assert forall|j: int| 0 <= j < ts.len() - 1 implies parse_token_spec(
                            #[trigger] ts[j],
                        ) is Ok by {
                            assert(init[j] == ts[j]);
                        }
                    },
                }
            },
            Err((idx, f)) => {
                assert forall|j: int| 0 <= j < idx implies parse_token_spec(#[trigger] ts[j]) is Ok by {
                    assert(init[j] == ts[j]);
                }
                assert(init[idx] == ts[idx]);
            },
        }
    }
}

/// Notation is read token by token: for every input, it parses exactly
/// when each of its whitespace-separated tokens does, and then gives one
/// entry per token, in order, each the parse of its token (a rest included,
/// with no notes); otherwise the error names the first token that does not
/// parse, with that token's fault.
pub proof fn lemma_notation_token_by_token(input: Seq<char>)
    ensures
        ({
            let ts = tokenize_spec(input);
            &&& parse_notation_spec(input) is Ok <==> forall|i: int|
                0 <= i < ts.len() ==> parse_token_spec(#[trigger] ts[i]) is Ok
            &&& match parse_notation_spec(input) {
                Ok(toks) => toks.len() == ts.len() && forall|i: int|
                    0 <= i < ts.len() ==> parse_token_spec(#[trigger] ts[i]) == Ok::<
                        (Seq<u8>, NoteValue),
                        NotationFault,
                    >(toks[i]),
                Err((idx, f)) => 0 <= idx < ts.len() && parse_token_spec(ts[idx]) == Err::<
                    (Seq<u8>, NoteValue),
                    NotationFault,
                >(f) && forall|j: int| 0 <= j < idx ==> parse_token_spec(#[trigger] ts[j]) is Ok,
            }
        }),
{
    let ts = tokenize_spec(input);
    lemma_tokens_one_by_one(ts);
    match parse_notation_spec(input) {
        Ok(toks) => {},
        Err((idx, f)) => {
            assert(parse_token_spec(ts[idx]) is Err);
        },
    }
}

/// A rest token, `r` or `rest` in any ASCII case, has no notes.
pub proof fn lemma_rest_has_no_notes(body: Seq<char>)
    requires
        body == seq!['r'] || body == seq!['R'] || (body.len() == 4 && (body[0] == 'r' || body[0]
            == 'R') && (body[1] == 'e' || body[1] == 'E') && (body[2] == 's' || body[2] == 'S')
            && (body[3] == 't' || body[3] == 'T')),
    ensures
        parse_body_spec(body) == Ok::<Seq<u8>, NotationFault>(Seq::empty()),
{
    if body.len() == 1 {
        assert(eq_ignore_ascii_case_spec(body, seq!['r']));
    } else {
        assert(eq_ignore_ascii_case_spec(body, seq!['r', 'e', 's', 't']));
    }
}

// ---------------------------------------------------------------------------
// Note names
// ---------------------------------------------------------------------------

/// The name the library gives a MIDI note (`midi_note_name`) reads back as
/// that note: for every note in MIDI range, parsing its name gives the
/// note.
pub proof fn lemma_note_name_parses_back(note: u8)
    requires
        note <= 127,
    ensures
        parse_note_spec(midi_note_name_spec(note)) == Ok::<u8, NotationFault>(note),
{
    let pc = (note % 12) as nat;
    let octave: int = note / 12 - 1;
    let letters = pitch_class_name(pc);
    let digits = signed_decimal(octave);
    let s = letters + digits;
    assert(s == midi_note_name_spec(note));
    lemma_signed_decimal_parses(octave);
    assert(digits.len() > 0 && (digits[0] == '-' || is_digit(digits[0])));
    // Letter and accidental.
    let base: int = if pc == 0 || pc == 1 {
        0
    } else if pc == 2 || pc == 3 {
        2
    } else if pc == 4 {
        4
    } else if pc == 5 || pc == 6 {
        5
    } else if pc == 7 || pc == 8 {
        7
    } else if pc == 9 || pc == 10 {
        9
    } else {
        11
    };
    let sharp = pc == 1 || pc == 3 || pc == 6 || pc == 8 || pc == 10;
    assert(s[0] == letters[0]);
    assert(pitch_class_of(ascii_lower_spec(s[0])) == Some(base)) by {
        let c = letters[0];
        let v: int = (c as u32) + 32;
        let b: u8 = v as u8;
        assert(b as int == v);
        assert((b as char) as int == v);
    }
    if sharp {
        assert(letters.len() == 2 && letters[1] == '#');
        assert(s[1] == '#');
        assert(accidental_of(s) == 1);
        assert(s.skip(2) =~= digits);
    } else {
        assert(letters.len() == 1);
        assert(s[1] == digits[0]);
        assert(accidental_of(s) == 0);
        assert(s.skip(1) =~= digits);
    }
    assert(parse_i16_spec(s.skip(octave_start(s))) == Some(octave as i16));
    assert((octave + 1) * 12 + base + accidental_of(s) == note);
}

/// The signed decimal text of an octave number of a MIDI note parses back
/// as that number.
proof fn lemma_signed_decimal_parses(v: int)
    requires
        -1 <= v <= 9,
    ensures
        parse_i16_spec(signed_decimal(v)) == Some(v as i16),
        signed_decimal(v).len() > 0,
        signed_decimal(v)[0] == '-' || is_digit(signed_decimal(v)[0]),
{
    lemma_decimal_digits_numeral(if v < 0 { 1 } else { v as nat });
    let d = signed_decimal(v);
    if v < 0 {
        assert(d.drop_first() =~= decimal_digits(1));
    } else {
        assert(d == decimal_digits(v as nat));
        assert(d[0] != '-' && d[0] != '+');
    }
}

} // verus!
