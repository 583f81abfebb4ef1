//! IPC message types and payload serialization.
//!
//! Each message type has a constant tag, a struct for its payload fields,
//! and `encode` / `decode` methods that work directly on byte slices.
use vstd::prelude::*;
use vstd::string::StringSliceAdditionalSpecFns;
use vstd::utf8::{decode_utf8, encode_utf8, encode_utf8_decode_utf8, encode_utf8_valid_utf8, valid_utf8};

use crate::ipc::protocol::{
    le_u32_at, le_u32_bytes, lemma_le_u32_bytes_roundtrip, lemma_le_u32_digits, lemma_le_u32_value,
    lemma_le_u32_value_roundtrip, read_le_u32, write_le_u32,
};

verus! {

// ---------------------------------------------------------------------------
// Message type constants
// ---------------------------------------------------------------------------

/// Instrument -> Hub. Registration handshake (sent once on connect).
pub const MSG_REGISTER: u8 = 0x01;
/// Hub -> Instrument. Registration confirmed (assigned strip index).
pub const MSG_REGISTERED: u8 = 0x02;
/// Instrument -> Hub. Audio block (hot path, every buffer cycle).
pub const MSG_AUDIO: u8 = 0x10;
/// Hub -> Instrument. Transport state broadcast.
pub const MSG_TRANSPORT_SYNC: u8 = 0x20;
/// Instrument -> Hub. Transport change request.
pub const MSG_TRANSPORT_REQUEST: u8 = 0x21;
/// Routed through Hub. MIDI-style note events between instruments.
pub const MSG_NOTE_EVENT: u8 = 0x30;
/// Either direction. Mixer parameter update.
pub const MSG_PARAMETER_CHANGE: u8 = 0x40;
/// Either direction. Clean disconnect.
pub const MSG_SHUTDOWN: u8 = 0xFF;

/// Fixed-size instrument name field in the Register message.
pub const REGISTER_NAME_LEN: usize = 32;

/// Transport stopped (position at zero).
pub const TRANSPORT_STOPPED: u8 = 0;
/// Transport playing.
pub const TRANSPORT_PLAYING: u8 = 1;
/// Transport recording (implies playing).
pub const TRANSPORT_RECORDING: u8 = 2;
/// Transport paused (position preserved).
pub const TRANSPORT_PAUSED: u8 = 3;

/// MIDI Note On event.
pub const NOTE_ON: u8 = 0;
/// MIDI Note Off event.
pub const NOTE_OFF: u8 = 1;
/// MIDI Continuous Controller event.
pub const NOTE_CC: u8 = 2;
/// MIDI Pitch Bend event.
pub const NOTE_PITCH_BEND: u8 = 3;

/// Volume parameter on a mixer strip.
pub const PARAM_VOLUME: u8 = 0;
/// Pan parameter on a mixer strip.
pub const PARAM_PAN: u8 = 1;
/// Mute toggle on a mixer strip.
pub const PARAM_MUTE: u8 = 2;
/// Solo toggle on a mixer strip.
pub const PARAM_SOLO: u8 = 3;
/// Record-arm toggle on a mixer strip.
pub const PARAM_ARM: u8 = 4;

// ---------------------------------------------------------------------------
// Byte copying
// ---------------------------------------------------------------------------

/// Copies `src` into `buf[at..at + src.len()]`, leaving the rest alone.
fn copy_into(buf: &mut [u8], at: usize, src: &[u8])
    requires
        at + src@.len() <= old(buf)@.len(),
    ensures
        final(buf)@ == old(buf)@.subrange(0, at as int) + src@ + old(buf)@.subrange(
            at + src@.len(),
            old(buf)@.len() as int,
        ),
{
    let n: usize = buf.len();
    let mut i: usize = 0;
    while i < src.len()
        invariant
            i <= src@.len(),
            n == buf@.len(),
            at + src@.len() <= old(buf)@.len(),
            buf@.len() == old(buf)@.len(),
            buf@ == old(buf)@.subrange(0, at as int) + src@.subrange(0, i as int) + old(
                buf,
            )@.subrange(at + i, old(buf)@.len() as int),
        decreases src@.len() - i,
    {
        buf[at + i] = src[i];
        i = i + 1;
        assert(buf@ =~= old(buf)@.subrange(0, at as int) + src@.subrange(0, i as int) + old(
            buf,
        )@.subrange(at + i, old(buf)@.len() as int));
    }
    assert(src@.subrange(0, i as int) =~= src@);
}

/// The 16 bytes `buf[at..at + 16]` as an array.
fn array16_at(buf: &[u8], at: usize) -> (a: [u8; 16])
    requires
        at + 16 <= buf@.len(),
    ensures
        a@ == buf@.subrange(at as int, at + 16),
{
    let n: usize = buf.len();
    let mut a = [0u8; 16];
    let mut i: usize = 0;
    while i < 16
        invariant
            i <= 16,
            n == buf@.len(),
            at + 16 <= buf@.len(),
            a@.len() == 16,
            forall|k: int| 0 <= k < i ==> a@[k] == buf@[at + k],
        decreases 16 - i,
    {
        a[i] = buf[at + i];
        i = i + 1;
    }
    assert(a@ =~= buf@.subrange(at as int, at + 16));
    a
}

/// The 32 bytes `buf[at..at + 32]` as an array.
fn array32_at(buf: &[u8], at: usize) -> (a: [u8; 32])
    requires
        at + 32 <= buf@.len(),
    ensures
        a@ == buf@.subrange(at as int, at + 32),
{
    let n: usize = buf.len();
    let mut a = [0u8; 32];
    let mut i: usize = 0;
    while i < 32
        invariant
            i <= 32,
            n == buf@.len(),
            at + 32 <= buf@.len(),
            a@.len() == 32,
            forall|k: int| 0 <= k < i ==> a@[k] == buf@[at + k],
        decreases 32 - i,
    {
        a[i] = buf[at + i];
        i = i + 1;
    }
    assert(a@ =~= buf@.subrange(at as int, at + 32));
    a
}

// ---------------------------------------------------------------------------
// std::str::from_utf8
// ---------------------------------------------------------------------------

/// `std::str::from_utf8(bytes).ok()`: `Some` exactly when `bytes` is
/// well-formed UTF-8, holding the characters they encode.
#[verifier::external_body]
fn str_from_utf8(bytes: &[u8]) -> (r: Option<&str>)
    ensures
        r is Some <==> valid_utf8(bytes@),
        r matches Some(s) ==> s@ == decode_utf8(bytes@),
{
    std::str::from_utf8(bytes).ok()
}

// ---------------------------------------------------------------------------
// Instrument ids
// ---------------------------------------------------------------------------

/// The sixteen bytes of an instrument id made from a process id, a
/// timestamp in nanoseconds and a counter, each little-endian.
pub open spec fn instrument_id_bytes(pid: u32, timestamp: u64, counter: u32) -> Seq<u8> {
    le_u32_bytes(pid) + le_u32_bytes(timestamp as u32) + le_u32_bytes((timestamp >> 32u64) as u32)
        + le_u32_bytes(counter)
}

/// The instrument id made from process id `pid`, timestamp `timestamp`
/// (nanoseconds) and counter `counter`: bytes 0..4 hold the process id,
/// 4..12 the timestamp and 12..16 the counter, each little-endian.
pub fn instrument_id_from(pid: u32, timestamp: u64, counter: u32) -> (id: [u8; 16])
    ensures
        id@ == instrument_id_bytes(pid, timestamp, counter),
{
    let mut buf: Vec<u8> = vec![0u8; 16];
    write_le_u32(buf.as_mut_slice(), 0, pid);
    write_le_u32(buf.as_mut_slice(), 4, timestamp as u32);
    write_le_u32(buf.as_mut_slice(), 8, (timestamp >> 32u64) as u32);
    write_le_u32(buf.as_mut_slice(), 12, counter);
    assert(buf@ =~= instrument_id_bytes(pid, timestamp, counter));
    array16_at(buf.as_slice(), 0)
}

/// Ids made from different process ids, timestamps or counters differ: the
/// id determines all three.
pub proof fn lemma_instrument_id_determines_fields(
    pid1: u32,
    ts1: u64,
    c1: u32,
    pid2: u32,
    ts2: u64,
    c2: u32,
)
    requires
        instrument_id_bytes(pid1, ts1, c1) == instrument_id_bytes(pid2, ts2, c2),
    ensures
        pid1 == pid2,
        ts1 == ts2,
        c1 == c2,
{
    let a = instrument_id_bytes(pid1, ts1, c1);
    let b = instrument_id_bytes(pid2, ts2, c2);
    let parts1 = seq![pid1, ts1 as u32, (ts1 >> 32u64) as u32, c1];
    let parts2 = seq![pid2, ts2 as u32, (ts2 >> 32u64) as u32, c2];
    assert forall|k: int| 0 <= k < 4 implies #[trigger] parts1[k] == parts2[k] by {
        lemma_le_u32_value_roundtrip(parts1[k]);
        lemma_le_u32_value_roundtrip(parts2[k]);
        assert(a.subrange(4 * k, 4 * k + 4) =~= le_u32_bytes(parts1[k]));
        assert(b.subrange(4 * k, 4 * k + 4) =~= le_u32_bytes(parts2[k]));
        assert(le_u32_at(a, 4 * k) == le_u32_at(le_u32_bytes(parts1[k]), 0));
        assert(le_u32_at(b, 4 * k) == le_u32_at(le_u32_bytes(parts2[k]), 0));
        assert(le_u32_at(a, 4 * k) == le_u32_at(b, 4 * k));
    }
    assert(parts1[1] == parts2[1] && parts1[2] == parts2[2]);
    let lo1 = ts1 as u32;
    let hi1 = (ts1 >> 32u64) as u32;
    let lo2 = ts2 as u32;
    let hi2 = (ts2 >> 32u64) as u32;
    assert(ts1 == ts2) by (bit_vector)
        requires
            lo1 == ts1 as u32,
            hi1 == (ts1 >> 32u64) as u32,
            lo2 == ts2 as u32,
            hi2 == (ts2 >> 32u64) as u32,
            lo1 == lo2,
            hi1 == hi2,
    ;
    assert(parts1[0] == parts2[0] && parts1[3] == parts2[3]);
}

// ---------------------------------------------------------------------------
// 0x01: Register
// ---------------------------------------------------------------------------

/// Registration message sent by an instrument on first connection.
#[derive(Debug, Clone)]
pub struct RegisterMsg {
    /// Unique instrument identifier.
    pub instrument_id: [u8; 16],
    /// Null-padded instrument name (e.g. `"kazoo-808"`).
    pub name: [u8; 32],
    /// Number of audio channels (1 = mono, 2 = stereo).
    pub channel_count: u8,
    /// Instrument's sample rate in Hz.
    pub sample_rate: u32,
    /// Instrument's buffer size in samples.
    pub buffer_size: u32,
}

/// Wire bytes of a register message: id, name, channel count, then sample
/// rate and buffer size little-endian (57 bytes).
pub open spec fn register_bytes(m: RegisterMsg) -> Seq<u8> {
    m.instrument_id@ + m.name@ + seq![m.channel_count] + le_u32_bytes(m.sample_rate)
        + le_u32_bytes(m.buffer_size)
}

/// `m` is the register message stored in the first 57 bytes of `b`.
pub open spec fn register_decodes(b: Seq<u8>, m: RegisterMsg) -> bool {
    &&& m.instrument_id@ == b.subrange(0, 16)
    &&& m.name@ == b.subrange(16, 48)
    &&& m.channel_count == b[48]
    &&& m.sample_rate == le_u32_at(b, 49)
    &&& m.buffer_size == le_u32_at(b, 53)
}

/// The 32-byte name field for the name bytes `bytes`: the first 32 bytes,
/// zero-padded.
pub open spec fn padded_name(bytes: Seq<u8>) -> Seq<u8> {
    let n = if bytes.len() < 32 {
        bytes.len()
    } else {
        32
    };
    bytes.take(n as int) + Seq::new((32 - n) as nat, |i: int| 0u8)
}

/// The stored name: `name` cut at its first zero byte (or whole).
pub open spec fn name_field_text(name: Seq<u8>) -> Seq<u8> {
    let z = first_zero(name);
    name.take(z)
}

/// Index of the first zero byte of `s`, or `s.len()` when there is none.
pub open spec fn first_zero(s: Seq<u8>) -> int
    decreases s.len(),
{
    if s.len() == 0 {
        0
    } else if s[0] == 0 {
        0
    } else {
        1 + first_zero(s.drop_first())
    }
}

/// `first_zero` is the index of the first zero byte, or the length.
pub proof fn lemma_first_zero(s: Seq<u8>)
    ensures
        0 <= first_zero(s) <= s.len(),
        forall|i: int| 0 <= i < first_zero(s) ==> s[i] != 0,
        first_zero(s) < s.len() ==> s[first_zero(s)] == 0,
    decreases s.len(),
{
    if s.len() > 0 && s[0] != 0 {
        lemma_first_zero(s.drop_first());
        assert forall|i: int| 0 <= i < first_zero(s) implies s[i] != 0 by {
            if i > 0 {
                assert(s[i] == s.drop_first()[i - 1]);
            }
        }
    }
}

impl RegisterMsg {
    /// Wire size: 16 + 32 + 1 + 4 + 4 = 57 bytes.
    pub const WIRE_SIZE: usize = 57;

    /// Create a register message for the instrument `instrument_id`. The
    /// name's UTF-8 bytes are stored truncated to 32 bytes and zero-padded.
    pub fn new(
        instrument_id: [u8; 16],
        name: &str,
        channel_count: u8,
        sample_rate: u32,
        buffer_size: u32,
    ) -> (m: Self)
        ensures
            m.instrument_id == instrument_id,
            m.name@ == padded_name(name.spec_bytes()),
            m.channel_count == channel_count,
            m.sample_rate == sample_rate,
            m.buffer_size == buffer_size,
    {
        let bytes = name.as_bytes();
        let copy_len = if bytes.len() < REGISTER_NAME_LEN { bytes.len() } else { REGISTER_NAME_LEN };
        let mut name_buf = [0u8; 32];
        let mut i: usize = 0;
        while i < copy_len
            invariant
                i <= copy_len <= 32,
                copy_len <= bytes@.len(),
                name_buf@.len() == 32,
                forall|k: int| 0 <= k < i ==> name_buf@[k] == bytes@[k],
                forall|k: int| i <= k < 32 ==> name_buf@[k] == 0u8,
            decreases copy_len - i,
        {
            name_buf[i] = bytes[i];
            i = i + 1;
        }
        assert(name_buf@ =~= padded_name(bytes@));
        Self { instrument_id, name: name_buf, channel_count, sample_rate, buffer_size }
    }

    /// The instrument name: the name bytes up to the first zero, read as
    /// UTF-8; the empty string when they are not valid UTF-8.
    pub fn name_str(&self) -> (s: &str)
        ensures
            s@ == (if valid_utf8(name_field_text(self.name@)) {
                decode_utf8(name_field_text(self.name@))
            } else {
                Seq::empty()
            }),
    {
        let mut end: usize = 0;
        proof {
            lemma_first_zero(self.name@);
        }
        while end < REGISTER_NAME_LEN && self.name[end] != 0
            invariant
                end <= 32,
                self.name@.len() == 32,
                0 <= first_zero(self.name@) <= 32,
                forall|i: int| 0 <= i < first_zero(self.name@) ==> self.name@[i] != 0,
                first_zero(self.name@) < 32 ==> self.name@[first_zero(self.name@)] == 0,
                end <= first_zero(self.name@),
            decreases 32 - end,
        {
            end = end + 1;
        }
        let text = vstd::slice::slice_subrange(self.name.as_slice(), 0, end);
        assert(text@ =~= name_field_text(self.name@));
        match str_from_utf8(text) {
            Some(s) => s,
            None => {
                let empty = "";
                proof {
                    reveal_strlit("");
                }
                empty
            },
        }
    }

    /// Encode into `buf`; returns the number of bytes written (57).
    pub fn encode(&self, buf: &mut [u8]) -> (n: usize)
        requires
            old(buf)@.len() >= Self::WIRE_SIZE,
        ensures
            n == Self::WIRE_SIZE,
            final(buf)@ == register_bytes(*self) + old(buf)@.subrange(57, old(buf)@.len() as int),
    {
        copy_into(buf, 0, self.instrument_id.as_slice());
        copy_into(buf, 16, self.name.as_slice());
        buf[48] = self.channel_count;
        write_le_u32(buf, 49, self.sample_rate);
        write_le_u32(buf, 53, self.buffer_size);
        assert(buf@ =~= register_bytes(*self) + old(buf)@.subrange(57, old(buf)@.len() as int));
        Self::WIRE_SIZE
    }

    /// Decode from the first 57 bytes of `buf`.
    pub fn decode(buf: &[u8]) -> (m: Self)
        requires
            buf@.len() >= Self::WIRE_SIZE,
        ensures
            register_decodes(buf@, m),
    {
        Self {
            instrument_id: array16_at(buf, 0),
            name: array32_at(buf, 16),
            channel_count: buf[48],
            sample_rate: read_le_u32(buf, 49),
            buffer_size: read_le_u32(buf, 53),
        }
    }
}

// ---------------------------------------------------------------------------
// 0x30: Note Event
// ---------------------------------------------------------------------------

/// MIDI-style note event routed between instruments.
#[derive(Debug, Clone, Copy)]
pub struct NoteEventMsg {
    /// Source instrument UUID.
    pub source: [u8; 16],
    /// Target instrument UUID (all zeros = broadcast).
    pub target: [u8; 16],
    /// Event type (see `NOTE_*` constants).
    pub event_type: u8,
    /// MIDI channel (0-15).
    pub channel: u8,
    /// MIDI note number (or CC number for CC events).
    pub note: u8,
    /// Velocity (or CC value for CC events).
    pub velocity: u8,
}

/// Wire bytes of a note event: source, target, then the four one-byte
/// fields (36 bytes).
pub open spec fn note_event_bytes(m: NoteEventMsg) -> Seq<u8> {
    m.source@ + m.target@ + seq![m.event_type, m.channel, m.note, m.velocity]
}

/// `m` is the note event stored in the first 36 bytes of `b`.
pub open spec fn note_event_decodes(b: Seq<u8>, m: NoteEventMsg) -> bool {
    &&& m.source@ == b.subrange(0, 16)
    &&& m.target@ == b.subrange(16, 32)
    &&& m.event_type == b[32]
    &&& m.channel == b[33]
    &&& m.note == b[34]
    &&& m.velocity == b[35]
}

impl NoteEventMsg {
    /// Wire size: 16 + 16 + 1 + 1 + 1 + 1 = 36 bytes.
    pub const WIRE_SIZE: usize = 36;

    /// Encode into `buf`; returns the number of bytes written (36).
    pub fn encode(&self, buf: &mut [u8]) -> (n: usize)
        requires
            old(buf)@.len() >= Self::WIRE_SIZE,
        ensures
            n == Self::WIRE_SIZE,
            final(buf)@ == note_event_bytes(*self) + old(buf)@.subrange(
                36,
                old(buf)@.len() as int,
            ),
    {
        copy_into(buf, 0, self.source.as_slice());
        copy_into(buf, 16, self.target.as_slice());
        buf[32] = self.event_type;
        buf[33] = self.channel;
        buf[34] = self.note;
        buf[35] = self.velocity;
        assert(buf@ =~= note_event_bytes(*self) + old(buf)@.subrange(36, old(buf)@.len() as int));
        Self::WIRE_SIZE
    }

    /// Decode from the first 36 bytes of `buf`.
    pub fn decode(buf: &[u8]) -> (m: Self)
        requires
            buf@.len() >= Self::WIRE_SIZE,
        ensures
            note_event_decodes(buf@, m),
    {
        Self {
            source: array16_at(buf, 0),
            target: array16_at(buf, 16),
            event_type: buf[32],
            channel: buf[33],
            note: buf[34],
            velocity: buf[35],
        }
    }
}

// ---------------------------------------------------------------------------
// Round trips
// ---------------------------------------------------------------------------

/// Decoding the bytes a register message encodes to gives back exactly that
/// message, whatever follows them.
pub proof fn lemma_register_roundtrip(m: RegisterMsg, rest: Seq<u8>, d: RegisterMsg)
    requires
        register_decodes(register_bytes(m) + rest, d),
    ensures
        d == m,
{
    let b = register_bytes(m) + rest;
    lemma_le_u32_value_roundtrip(m.sample_rate);
    lemma_le_u32_value_roundtrip(m.buffer_size);
    assert(b.subrange(49, 53) =~= le_u32_bytes(m.sample_rate));
    assert(b.subrange(53, 57) =~= le_u32_bytes(m.buffer_size));
    assert(le_u32_at(b, 49) == le_u32_at(le_u32_bytes(m.sample_rate), 0));
    assert(le_u32_at(b, 53) == le_u32_at(le_u32_bytes(m.buffer_size), 0));
    assert(b.subrange(0, 16) =~= m.instrument_id@);
    assert(b.subrange(16, 48) =~= m.name@);
    assert(d.instrument_id =~= m.instrument_id);
    assert(d.name =~= m.name);
}

/// Encoding a decoded register message gives back the 57 bytes it was
/// decoded from.
pub proof fn lemma_register_bytes_roundtrip(b: Seq<u8>, d: RegisterMsg)
    requires
        b.len() >= RegisterMsg::WIRE_SIZE,
        register_decodes(b, d),
    ensures
        register_bytes(d) == b.subrange(0, 57),
{
    lemma_le_u32_bytes_roundtrip(b[49], b[50], b[51], b[52]);
    lemma_le_u32_bytes_roundtrip(b[53], b[54], b[55], b[56]);
    assert(register_bytes(d) =~= b.subrange(0, 57));
}

/// Decoding the bytes a note event encodes to gives back exactly that
/// event, whatever follows them.
pub proof fn lemma_note_event_roundtrip(m: NoteEventMsg, rest: Seq<u8>, d: NoteEventMsg)
    requires
        note_event_decodes(note_event_bytes(m) + rest, d),
    ensures
        d == m,
{
    let b = note_event_bytes(m) + rest;
    assert(b.subrange(0, 16) =~= m.source@);
    assert(b.subrange(16, 32) =~= m.target@);
    assert(d.source =~= m.source);
    assert(d.target =~= m.target);
}

/// The documented layout of a note event on the wire, by byte offset:
/// bytes 0..16 the source id, 16..32 the target id, then byte 32 the event
/// type, 33 the channel, 34 the note and 35 the velocity. Encoding writes
/// exactly these bytes, and decoding reads each field from its offset.
pub proof fn lemma_note_event_layout(m: NoteEventMsg, b: Seq<u8>)
    ensures
        note_event_bytes(m).len() == 36,
        forall|i: int| 0 <= i < 16 ==> #[trigger] note_event_bytes(m)[i] == m.source@[i],
        forall|i: int| 16 <= i < 32 ==> #[trigger] note_event_bytes(m)[i] == m.target@[i - 16],
        note_event_bytes(m)[32] == m.event_type,
        note_event_bytes(m)[33] == m.channel,
        note_event_bytes(m)[34] == m.note,
        note_event_bytes(m)[35] == m.velocity,
        b.len() >= 36 ==> (note_event_decodes(b, m) <==> {
            &&& forall|i: int| 0 <= i < 16 ==> #[trigger] m.source@[i] == b[i]
            &&& forall|i: int| 0 <= i < 16 ==> #[trigger] m.target@[i] == b[i + 16]
            &&& m.event_type == b[32]
            &&& m.channel == b[33]
            &&& m.note == b[34]
            &&& m.velocity == b[35]
        }),
{
    if b.len() >= 36 {
        if note_event_decodes(b, m) {
            assert forall|i: int| 0 <= i < 16 implies #[trigger] m.source@[i] == b[i] by {
                assert(b.subrange(0, 16)[i] == b[i]);
            }
            assert forall|i: int| 0 <= i < 16 implies #[trigger] m.target@[i] == b[i + 16] by {
                assert(b.subrange(16, 32)[i] == b[i + 16]);
            }
        }
        if (forall|i: int| 0 <= i < 16 ==> #[trigger] m.source@[i] == b[i]) && (forall|i: int|
            0 <= i < 16 ==> #[trigger] m.target@[i] == b[i + 16]) {
            assert(m.source@ =~= b.subrange(0, 16));
            assert(m.target@ =~= b.subrange(16, 32));
        }
    }
}

/// The documented layout of a register message on the wire, by byte
/// offset: bytes 0..16 the instrument id, 16..48 the name field, byte 48
/// the channel count, 49..53 the sample rate and 53..57 the buffer size,
/// each as base-256 digits, least significant first. Decoding reads each
/// field from its offset.
pub proof fn lemma_register_layout(m: RegisterMsg, b: Seq<u8>)
    ensures
        register_bytes(m).len() == 57,
        forall|i: int| 0 <= i < 16 ==> #[trigger] register_bytes(m)[i] == m.instrument_id@[i],
        forall|i: int| 16 <= i < 48 ==> #[trigger] register_bytes(m)[i] == m.name@[i - 16],
        register_bytes(m)[48] == m.channel_count,
        register_bytes(m)[49] == m.sample_rate % 256,
        register_bytes(m)[50] == m.sample_rate / 256 % 256,
        register_bytes(m)[51] == m.sample_rate / 65536 % 256,
        register_bytes(m)[52] == m.sample_rate / 16777216,
        register_bytes(m)[53] == m.buffer_size % 256,
        register_bytes(m)[54] == m.buffer_size / 256 % 256,
        register_bytes(m)[55] == m.buffer_size / 65536 % 256,
        register_bytes(m)[56] == m.buffer_size / 16777216,
        b.len() >= 57 && register_decodes(b, m) ==> {
            &&& m.channel_count == b[48]
            &&& m.sample_rate == b[49] + 256 * b[50] + 65536 * b[51] + 16777216 * b[52]
            &&& m.buffer_size == b[53] + 256 * b[54] + 65536 * b[55] + 16777216 * b[56]
        },
{
    lemma_le_u32_digits(m.sample_rate);
    lemma_le_u32_digits(m.buffer_size);
    lemma_le_u32_value(b[49], b[50], b[51], b[52]);
    lemma_le_u32_value(b[53], b[54], b[55], b[56]);
}

/// Encoding a decoded note event gives back the 36 bytes it was decoded
/// from.
pub proof fn lemma_note_event_bytes_roundtrip(b: Seq<u8>, d: NoteEventMsg)
    requires
        b.len() >= NoteEventMsg::WIRE_SIZE,
        note_event_decodes(b, d),
    ensures
        note_event_bytes(d) == b.subrange(0, 36),
{
    assert(note_event_bytes(d) =~= b.subrange(0, 36));
}

/// The name a register message is created with reads back unchanged when
/// its UTF-8 encoding fits in the 32-byte field and holds no zero byte.
pub proof fn lemma_register_name_roundtrip(name: Seq<char>)
    requires
        encode_utf8(name).len() <= 32,
        forall|i: int| 0 <= i < encode_utf8(name).len() ==> encode_utf8(name)[i] != 0,
    ensures
        valid_utf8(name_field_text(padded_name(encode_utf8(name)))),
        decode_utf8(name_field_text(padded_name(encode_utf8(name)))) == name,
{
    let bytes = encode_utf8(name);
    let field = padded_name(bytes);
    lemma_first_zero(field);
    let n = bytes.len() as int;
    assert forall|i: int| 0 <= i < n implies field[i] != 0 by {
        assert(field[i] == bytes[i]);
    }
    if n < 32 {
        assert(field[n] == 0);
    }
    assert(first_zero(field) == n) by {
        if first_zero(field) < n {
            assert(field[first_zero(field)] == bytes[first_zero(field)]);
        }
    }
    assert(name_field_text(field) =~= bytes);
    encode_utf8_valid_utf8(name);
    encode_utf8_decode_utf8(name);
}

} // verus!
