//! Wire protocol: binary framed messages.
//!
//! Frame format (little-endian):
//!
//! ```text
//! +--------+--------+--------+---------------------------+
//! | Type   | Length | Seq    | Payload                   |
//! | 1 byte | 4 byte | 4 byte | variable                  |
//! +--------+--------+--------+---------------------------+
//! ```
//!
//! All multi-byte integers are little-endian. The Length field contains
//! the payload size in bytes (not including the 9-byte header).
use vstd::prelude::*;
use vstd::string::StringExecFns;

verus! {

/// Size of the frame header in bytes: 1 (type) + 4 (length) + 4 (seq).
pub const HEADER_SIZE: usize = 9;

/// Maximum payload size in bytes (64 KiB).
pub const MAX_PAYLOAD_SIZE: usize = 65_536;

/// Maximum total frame size (header + payload).
pub const MAX_FRAME_SIZE: usize = 65_545;

// ---------------------------------------------------------------------------
// Little-endian integers
// ---------------------------------------------------------------------------

/// The four little-endian bytes of `v`.
pub open spec fn le_u32_bytes(v: u32) -> Seq<u8> {
    seq![
        (v & 0xff) as u8,
        ((v >> 8u32) & 0xff) as u8,
        ((v >> 16u32) & 0xff) as u8,
        ((v >> 24u32) & 0xff) as u8,
    ]
}

/// The `u32` whose little-endian bytes are `b0, b1, b2, b3`.
pub open spec fn u32_from_le(b0: u8, b1: u8, b2: u8, b3: u8) -> u32 {
    (b0 as u32) | ((b1 as u32) << 8u32) | ((b2 as u32) << 16u32) | ((b3 as u32) << 24u32)
}

/// The `u32` stored little-endian in `b[at..at + 4]`.
pub open spec fn le_u32_at(b: Seq<u8>, at: int) -> u32 {
    u32_from_le(b[at], b[at + 1], b[at + 2], b[at + 3])
}

/// Decoding the little-endian bytes of a `u32` gives it back.
pub proof fn lemma_le_u32_value_roundtrip(v: u32)
    ensures
        le_u32_at(le_u32_bytes(v), 0) == v,
{
    let b0 = (v & 0xff) as u8;
    let b1 = ((v >> 8u32) & 0xff) as u8;
    let b2 = ((v >> 16u32) & 0xff) as u8;
    let b3 = ((v >> 24u32) & 0xff) as u8;
    assert(u32_from_le(b0, b1, b2, b3) == v) by (bit_vector)
        requires
            b0 == (v & 0xff) as u8,
            b1 == ((v >> 8u32) & 0xff) as u8,
            b2 == ((v >> 16u32) & 0xff) as u8,
            b3 == ((v >> 24u32) & 0xff) as u8,
    ;
}

/// Encoding a decoded `u32` gives back its four bytes.
pub proof fn lemma_le_u32_bytes_roundtrip(b0: u8, b1: u8, b2: u8, b3: u8)
    ensures
        le_u32_bytes(u32_from_le(b0, b1, b2, b3)) == seq![b0, b1, b2, b3],
{
    let v = u32_from_le(b0, b1, b2, b3);
    assert((v & 0xff) as u8 == b0 && ((v >> 8u32) & 0xff) as u8 == b1 && ((v >> 16u32) & 0xff) as u8
        == b2 && ((v >> 24u32) & 0xff) as u8 == b3) by (bit_vector)
        requires
            v == (b0 as u32) | ((b1 as u32) << 8u32) | ((b2 as u32) << 16u32) | ((b3 as u32) << 24u32),
    ;
    assert(le_u32_bytes(v) =~= seq![b0, b1, b2, b3]);
}

/// The little-endian bytes of `v` are its base-256 digits, least
/// significant first.
pub proof fn lemma_le_u32_digits(v: u32)
    ensures
        le_u32_bytes(v) == seq![
            (v % 256) as u8,
            (v / 256 % 256) as u8,
            (v / 65536 % 256) as u8,
            (v / 16777216) as u8,
        ],
{
    assert((v & 0xff) as u8 == (v % 256) as u8) by (bit_vector);
    assert(((v >> 8u32) & 0xff) as u8 == (v / 256 % 256) as u8) by (bit_vector);
    assert(((v >> 16u32) & 0xff) as u8 == (v / 65536 % 256) as u8) by (bit_vector);
    assert(((v >> 24u32) & 0xff) as u8 == (v / 16777216) as u8) by (bit_vector);
    assert(le_u32_bytes(v) =~= seq![
        (v % 256) as u8,
        (v / 256 % 256) as u8,
        (v / 65536 % 256) as u8,
        (v / 16777216) as u8,
    ]);
}

/// Four little-endian bytes read as `b0 + 256 b1 + 65536 b2 + 16777216 b3`.
pub proof fn lemma_le_u32_value(b0: u8, b1: u8, b2: u8, b3: u8)
    ensures
        u32_from_le(b0, b1, b2, b3) as int == b0 as int + 256 * (b1 as int) + 65536 * (b2 as int)
            + 16777216 * (b3 as int),
{
    let v = u32_from_le(b0, b1, b2, b3);
    assert(v == (b0 as u32) + 256 * (b1 as u32) + 65536 * (b2 as u32) + 16777216 * (b3 as u32))
        by (bit_vector)
        requires
            v == (b0 as u32) | ((b1 as u32) << 8u32) | ((b2 as u32) << 16u32) | ((b3 as u32)
                << 24u32),
    ;
}

/// Writes the little-endian bytes of `v` at `buf[at..at + 4]`.
pub fn write_le_u32(buf: &mut [u8], at: usize, v: u32)
    requires
        at + 4 <= old(buf)@.len(),
    ensures
        final(buf)@ == old(buf)@.subrange(0, at as int) + le_u32_bytes(v) + old(buf)@.subrange(
            at + 4,
            old(buf)@.len() as int,
        ),
{
    buf[at] = (v & 0xff) as u8;
    buf[at + 1] = ((v >> 8u32) & 0xff) as u8;
    buf[at + 2] = ((v >> 16u32) & 0xff) as u8;
    buf[at + 3] = ((v >> 24u32) & 0xff) as u8;
    assert(buf@ =~= old(buf)@.subrange(0, at as int) + le_u32_bytes(v) + old(buf)@.subrange(
        at + 4,
        old(buf)@.len() as int,
    ));
}

/// Reads the little-endian `u32` at `buf[at..at + 4]`.
pub fn read_le_u32(buf: &[u8], at: usize) -> (v: u32)
    requires
        at + 4 <= buf@.len(),
    ensures
        v == le_u32_at(buf@, at as int),
{
    (buf[at] as u32) | ((buf[at + 1] as u32) << 8u32) | ((buf[at + 2] as u32) << 16u32) | ((buf[at
        + 3] as u32) << 24u32)
}

// ---------------------------------------------------------------------------
// Frame header
// ---------------------------------------------------------------------------

/// Parsed frame header.
#[derive(Debug, Clone, Copy, PartialEq, Eq, Structural)]
pub struct FrameHeader {
    /// Message type tag (see the `MSG_*` constants of the message types).
    pub msg_type: u8,
    /// Payload length in bytes (excluding the 9-byte header).
    pub payload_len: u32,
    /// Monotonically increasing sequence number for ordering.
    pub seq: u32,
}

/// The nine wire bytes of `h`: type, length (LE), sequence (LE).
pub open spec fn header_bytes(h: FrameHeader) -> Seq<u8> {
    seq![h.msg_type] + le_u32_bytes(h.payload_len) + le_u32_bytes(h.seq)
}

/// The header stored in the first nine bytes of `b`.
pub open spec fn decode_header_spec(b: Seq<u8>) -> FrameHeader {
    FrameHeader { msg_type: b[0], payload_len: le_u32_at(b, 1), seq: le_u32_at(b, 5) }
}

/// The header read from a buffer depends on its first nine bytes only.
pub proof fn lemma_decode_header_prefix(a: Seq<u8>, b: Seq<u8>)
    requires
        a.len() >= HEADER_SIZE,
        b.len() >= HEADER_SIZE,
        a.subrange(0, HEADER_SIZE as int) == b.subrange(0, HEADER_SIZE as int),
    ensures
        decode_header_spec(a) == decode_header_spec(b),
{
    assert forall|i: int| 0 <= i < HEADER_SIZE implies a[i] == b[i] by {
        assert(a[i] == a.subrange(0, HEADER_SIZE as int)[i]);
        assert(b[i] == b.subrange(0, HEADER_SIZE as int)[i]);
    }
}

/// The documented layout of a frame header, by byte offset: byte 0 the
/// message type, bytes 1..5 the payload length and 5..9 the sequence
/// number, each as base-256 digits, least significant first; decoding reads
/// each field from its offset.
pub proof fn lemma_header_layout(h: FrameHeader, b: Seq<u8>)
    ensures
        header_bytes(h).len() == HEADER_SIZE,
        header_bytes(h)[0] == h.msg_type,
        header_bytes(h)[1] == h.payload_len % 256,
        header_bytes(h)[2] == h.payload_len / 256 % 256,
        header_bytes(h)[3] == h.payload_len / 65536 % 256,
        header_bytes(h)[4] == h.payload_len / 16777216,
        header_bytes(h)[5] == h.seq % 256,
        header_bytes(h)[6] == h.seq / 256 % 256,
        header_bytes(h)[7] == h.seq / 65536 % 256,
        header_bytes(h)[8] == h.seq / 16777216,
        b.len() >= HEADER_SIZE ==> {
            let d = decode_header_spec(b);
            &&& d.msg_type == b[0]
            &&& d.payload_len == b[1] + 256 * b[2] + 65536 * b[3] + 16777216 * b[4]
            &&& d.seq == b[5] + 256 * b[6] + 65536 * b[7] + 16777216 * b[8]
        },
{
    lemma_le_u32_digits(h.payload_len);
    lemma_le_u32_digits(h.seq);
    if b.len() >= HEADER_SIZE {
        lemma_le_u32_value(b[1], b[2], b[3], b[4]);
        lemma_le_u32_value(b[5], b[6], b[7], b[8]);
    }
}

/// Encode a frame header into the first [`HEADER_SIZE`] bytes of `buf`;
/// the rest of `buf` is left as it was.
pub fn encode_header(header: &FrameHeader, buf: &mut [u8])
    requires
        old(buf)@.len() >= HEADER_SIZE,
    ensures
        final(buf)@ == header_bytes(*header) + old(buf)@.subrange(
            HEADER_SIZE as int,
            old(buf)@.len() as int,
        ),
{
    buf[0] = header.msg_type;
    write_le_u32(buf, 1, header.payload_len);
    write_le_u32(buf, 5, header.seq);
    assert(buf@ =~= header_bytes(*header) + old(buf)@.subrange(
        HEADER_SIZE as int,
        old(buf)@.len() as int,
    ));
}

/// Decode a frame header from the first [`HEADER_SIZE`] bytes of `buf`.
pub fn decode_header(buf: &[u8]) -> (h: FrameHeader)
    requires
        buf@.len() >= HEADER_SIZE,
    ensures
        h == decode_header_spec(buf@),
{
    FrameHeader { msg_type: buf[0], payload_len: read_le_u32(buf, 1), seq: read_le_u32(buf, 5) }
}

/// Decoding the encoding of a header gives the header back, whatever bytes
/// follow it.
pub proof fn lemma_header_roundtrip(h: FrameHeader, rest: Seq<u8>)
    ensures
        decode_header_spec(header_bytes(h) + rest) == h,
{
    let b = header_bytes(h) + rest;
    lemma_le_u32_value_roundtrip(h.payload_len);
    lemma_le_u32_value_roundtrip(h.seq);
    assert(b.subrange(1, 5) =~= le_u32_bytes(h.payload_len));
    assert(b.subrange(5, 9) =~= le_u32_bytes(h.seq));
    assert(le_u32_at(b, 1) == le_u32_at(le_u32_bytes(h.payload_len), 0));
    assert(le_u32_at(b, 5) == le_u32_at(le_u32_bytes(h.seq), 0));
}

/// Encoding a decoded header gives back the nine bytes it was decoded from.
pub proof fn lemma_header_bytes_roundtrip(b: Seq<u8>)
    requires
        b.len() >= HEADER_SIZE,
    ensures
        header_bytes(decode_header_spec(b)) == b.subrange(0, HEADER_SIZE as int),
{
    lemma_le_u32_bytes_roundtrip(b[1], b[2], b[3], b[4]);
    lemma_le_u32_bytes_roundtrip(b[5], b[6], b[7], b[8]);
    assert(header_bytes(decode_header_spec(b)) =~= b.subrange(0, HEADER_SIZE as int));
}

} // verus!

verus! {

// ---------------------------------------------------------------------------
// std::io calls
// ---------------------------------------------------------------------------

/// What one `Read::read` call gave: a byte count, a would-block error, or
/// another error.
pub enum ReadOutcome {
    /// `Ok(n)`: `n` bytes were read (0 means end of input).
    Got(usize),
    /// `Err(e)` with `e.kind() == ErrorKind::WouldBlock`.
    WouldBlock,
    /// Any other error.
    Failed(std::io::Error),
}

/// `io::Error::new(ErrorKind::InvalidData, message)`.
/// Nothing is stated of the error made: an `io::Error`, its kind included,
/// is opaque to the proofs.
#[verifier::external_body]
fn invalid_data_error(message: String) -> std::io::Error {
    std::io::Error::new(std::io::ErrorKind::InvalidData, message)
}

/// `io::Error::new(ErrorKind::InvalidInput, message)`.
/// Nothing is stated of the error made: an `io::Error`, its kind included,
/// is opaque to the proofs.
#[verifier::external_body]
fn invalid_input_error(message: &str) -> std::io::Error {
    std::io::Error::new(std::io::ErrorKind::InvalidInput, message)
}

/// `io::Error::new(ErrorKind::UnexpectedEof, message)`.
/// Nothing is stated of the error made: an `io::Error`, its kind included,
/// is opaque to the proofs.
#[verifier::external_body]
fn unexpected_eof_error(message: &str) -> std::io::Error {
    std::io::Error::new(std::io::ErrorKind::UnexpectedEof, message)
}

// ---------------------------------------------------------------------------
// Frame I/O model
// ---------------------------------------------------------------------------

/// Progress of a non-blocking frame read.
#[derive(Debug, Clone, Copy, PartialEq, Eq, Structural)]
pub enum ReadState {
    /// Reading the 9-byte header. `filled` bytes have been read so far.
    Header {
        /// Header bytes read so far.
        filled: usize,
    },
    /// Header is complete; reading the payload. `filled` payload bytes read.
    Payload {
        /// The decoded header of the frame being read.
        header: FrameHeader,
        /// Payload bytes read so far.
        filled: usize,
    },
}

/// Bytes of the current frame received so far in state `s`.
pub open spec fn received_len(s: ReadState) -> nat {
    match s {
        ReadState::Header { filled } => filled as nat,
        ReadState::Payload { filled, .. } => (HEADER_SIZE + filled) as nat,
    }
}

/// A state a frame buffer can be in.
pub open spec fn valid_state(s: ReadState) -> bool {
    match s {
        ReadState::Header { filled } => filled <= HEADER_SIZE,
        ReadState::Payload { header, filled } => 0 < header.payload_len <= MAX_PAYLOAD_SIZE
            && filled <= header.payload_len,
    }
}

/// A read in progress that still needs bytes.
pub open spec fn pending(s: ReadState) -> bool {
    match s {
        ReadState::Header { filled } => filled < HEADER_SIZE,
        ReadState::Payload { header, filled } => filled < header.payload_len,
    }
}

/// Decreases with every byte read and with the move from header to payload.
pub open spec fn progress_measure(s: ReadState) -> nat {
    match s {
        ReadState::Header { filled } => (MAX_FRAME_SIZE + 10 - filled) as nat,
        ReadState::Payload { header, filled } => (header.payload_len - filled) as nat,
    }
}

/// The bytes a read asks for in a state that still needs bytes: the rest
/// of the header, or the rest of the payload.
pub open spec fn read_window(s: ReadState) -> (int, int) {
    match s {
        ReadState::Header { filled } => (filled as int, HEADER_SIZE as int),
        ReadState::Payload { header, filled } => (
            HEADER_SIZE + filled,
            HEADER_SIZE + header.payload_len,
        ),
    }
}

/// `s` with `n` more bytes received.
pub open spec fn advance(s: ReadState, n: nat) -> ReadState {
    match s {
        ReadState::Header { filled } => ReadState::Header { filled: (filled + n) as usize },
        ReadState::Payload { header, filled } => ReadState::Payload {
            header,
            filled: (filled + n) as usize,
        },
    }
}

/// The outcome of one `Read::read`, as the buffer records it.
pub enum ReadEvent {
    /// `n` bytes read; 0 means end of input.
    Got(nat),
    /// The reader would block.
    WouldBlock,
    /// Another reader error: the error the reader returned.
    Failed(std::io::Error),
}

/// One call a frame buffer makes on a reader or writer.
pub enum IoEvent {
    /// A `read` into `[start, end)`: its outcome and the buffer after it.
    Read { start: int, end: int, outcome: ReadEvent, after: Seq<u8> },
    /// A `read_exact` into `[start, end)`: what it returned and the buffer
    /// after it.
    ReadExact { start: int, end: int, result: std::io::Result<()>, after: Seq<u8> },
    /// A `write_all` of these bytes, and what it returned.
    WriteAll { bytes: Seq<u8>, result: std::io::Result<()> },
}

/// `after` equals `before` outside `[start, end)` and has its length.
pub open spec fn same_outside(before: Seq<u8>, after: Seq<u8>, start: int, end: int) -> bool {
    &&& after.len() == before.len()
    &&& forall|i: int| 0 <= i < before.len() && !(start <= i < end) ==> after[i] == before[i]
}

/// What a non-blocking read call ends with.
#[derive(Debug, Clone, Copy, PartialEq, Eq, Structural)]
pub enum CallResult {
    /// A complete frame with this header.
    Frame(FrameHeader),
    /// The reader would block; progress is kept.
    Pending,
    /// The reader reported end of input before the frame was complete.
    EndOfInput,
    /// The header announces a payload larger than [`MAX_PAYLOAD_SIZE`].
    TooLarge,
    /// The reader failed with another error.
    ReaderFailed,
}

/// The step taken, without reading, from a state that needs no more
/// bytes: a complete header is checked and either ends the call or starts
/// the payload; a complete payload ends the call with its frame.
pub open spec fn settle(s: ReadState, bytes: Seq<u8>) -> (ReadState, Option<CallResult>) {
    match s {
        ReadState::Header { .. } => {
            let h = decode_header_spec(bytes);
            if h.payload_len > MAX_PAYLOAD_SIZE {
                (ReadState::Header { filled: 0 }, Some(CallResult::TooLarge))
            } else if h.payload_len == 0 {
                (ReadState::Header { filled: 0 }, Some(CallResult::Frame(h)))
            } else {
                (ReadState::Payload { header: h, filled: 0 }, None)
            }
        },
        ReadState::Payload { header, .. } => (
            ReadState::Header { filled: 0 },
            Some(CallResult::Frame(header)),
        ),
    }
}

/// The step taken on one read outcome in a state that needs bytes: bytes
/// read are received and the call goes on; zero bytes is end of input; a
/// would-block ends the call keeping progress; another error ends it.
pub open spec fn read_step(s: ReadState, o: ReadEvent) -> (ReadState, Option<CallResult>) {
    match o {
        ReadEvent::Got(n) => if n == 0 {
            (s, Some(CallResult::EndOfInput))
        } else {
            (advance(s, n), None)
        },
        ReadEvent::WouldBlock => (s, Some(CallResult::Pending)),
        ReadEvent::Failed(_) => (s, Some(CallResult::ReaderFailed)),
    }
}

/// The step taken on a recorded event in a state that needs bytes: a read
/// steps by its outcome; any other call ends the read as failed.
pub open spec fn on_read(s: ReadState, e: IoEvent) -> (ReadState, Option<CallResult>) {
    match e {
        IoEvent::Read { outcome, .. } => read_step(s, outcome),
        _ => (s, Some(CallResult::ReaderFailed)),
    }
}

/// How the outcome of a `read` is recorded.
pub open spec fn outcome_event(o: &ReadOutcome) -> ReadEvent {
    match o {
        ReadOutcome::Got(n) => ReadEvent::Got(*n as nat),
        ReadOutcome::WouldBlock => ReadEvent::WouldBlock,
        ReadOutcome::Failed(e) => ReadEvent::Failed(*e),
    }
}

impl ReadState {
    /// Whether the read in progress still needs bytes.
    pub fn needs_bytes(&self) -> (b: bool)
        ensures
            b == pending(*self),
    {
        match self {
            ReadState::Header { filled } => *filled < HEADER_SIZE,
            ReadState::Payload { header, filled } => *filled < header.payload_len as usize,
        }
    }

    /// The part `[start, end)` of the buffer that the next read fills: the
    /// rest of the header, or the rest of the payload.
    pub fn window(&self) -> (w: (usize, usize))
        requires
            valid_state(*self),
        ensures
            w.0 == read_window(*self).0,
            w.1 == read_window(*self).1,
    {
        match self {
            ReadState::Header { filled } => (*filled, HEADER_SIZE),
            ReadState::Payload { header, filled } => (
                HEADER_SIZE + *filled,
                HEADER_SIZE + header.payload_len as usize,
            ),
        }
    }

    /// The next state, and the result where the call ends, after a read
    /// with `outcome` in a state that needs bytes.
    pub fn after_read(&self, outcome: &ReadOutcome) -> (r: (ReadState, Option<CallResult>))
        requires
            valid_state(*self),
            pending(*self),
            outcome matches ReadOutcome::Got(n) ==> n <= read_window(*self).1 - read_window(
                *self,
            ).0,
        ensures
            r == read_step(*self, outcome_event(outcome)),
            valid_state(r.0),
    {
        match outcome {
            ReadOutcome::Got(n) => {
                if *n == 0 {
                    (*self, Some(CallResult::EndOfInput))
                } else {
                    match self {
                        ReadState::Header { filled } => (
                            ReadState::Header { filled: *filled + *n },
                            None,
                        ),
                        ReadState::Payload { header, filled } => (
                            ReadState::Payload { header: *header, filled: *filled + *n },
                            None,
                        ),
                    }
                }
            },
            ReadOutcome::WouldBlock => (*self, Some(CallResult::Pending)),
            ReadOutcome::Failed(_) => (*self, Some(CallResult::ReaderFailed)),
        }
    }

    /// The step from a state that needs no more bytes, given the buffer: a
    /// complete header is checked and either ends the call or starts the
    /// payload; a complete payload ends the call with its frame.
    pub fn settled(&self, buf: &[u8]) -> (r: (ReadState, Option<CallResult>))
        requires
            valid_state(*self),
            !pending(*self),
            buf@.len() >= HEADER_SIZE,
        ensures
            r == settle(*self, buf@),
            valid_state(r.0),
    {
        match self {
            ReadState::Header { .. } => {
                let h = decode_header(buf);
                if h.payload_len as usize > MAX_PAYLOAD_SIZE {
                    (ReadState::Header { filled: 0 }, Some(CallResult::TooLarge))
                } else if h.payload_len == 0 {
                    (ReadState::Header { filled: 0 }, Some(CallResult::Frame(h)))
                } else {
                    (ReadState::Payload { header: h, filled: 0 }, None)
                }
            },
            ReadState::Payload { header, .. } => (
                ReadState::Header { filled: 0 },
                Some(CallResult::Frame(*header)),
            ),
        }
    }
}

/// A recorded read fits a state: it is a `read` of exactly the state's
/// window, leaving the rest of the buffer alone, and got no more bytes
/// than the window holds.
pub open spec fn read_fits(s: ReadState, bytes: Seq<u8>, e: IoEvent) -> bool {
    match e {
        IoEvent::Read { start, end, outcome, after } => {
            &&& (start, end) == read_window(s)
            &&& same_outside(bytes, after, start, end)
            &&& (outcome matches ReadEvent::Got(n) ==> n <= end - start)
        },
        _ => false,
    }
}

/// The buffer after a recorded event.
pub open spec fn bytes_after(bytes: Seq<u8>, e: IoEvent) -> Seq<u8> {
    match e {
        IoEvent::Read { after, .. } => after,
        IoEvent::ReadExact { after, .. } => after,
        IoEvent::WriteAll { .. } => bytes,
    }
}

/// How a non-blocking read call runs on the recorded reads `evs`.
pub struct CallRun {
    /// Read state at the end.
    pub state: ReadState,
    /// Buffer at the end.
    pub bytes: Seq<u8>,
    /// What the call ends with.
    pub result: CallResult,
    /// Recorded reads the call uses.
    pub used: nat,
    /// Every read used fits the state it was made in.
    pub fits: bool,
}

/// A non-blocking read call from state `s` with buffer `bytes`, on the
/// recorded reads `evs`: steps without reading while no bytes are needed,
/// otherwise takes the next read, until the call ends.
pub open spec fn run_call(s: ReadState, bytes: Seq<u8>, evs: Seq<IoEvent>) -> CallRun
    decreases evs.len(), (if s is Header { 1nat } else { 0nat }),
{
    if !pending(s) {
        let (s2, r) = settle(s, bytes);
        match r {
            Some(res) => CallRun { state: s2, bytes, result: res, used: 0, fits: true },
            None => run_call(s2, bytes, evs),
        }
    } else if evs.len() == 0 {
        CallRun { state: s, bytes, result: CallResult::Pending, used: 0, fits: false }
    } else {
        let e = evs[0];
        let (s2, r) = on_read(s, e);
        let b2 = bytes_after(bytes, e);
        let fit = read_fits(s, bytes, e);
        match r {
            Some(res) => CallRun { state: s2, bytes: b2, result: res, used: 1, fits: fit },
            None => {
                let rest = run_call(s2, b2, evs.drop_first());
                CallRun { used: rest.used + 1, fits: fit && rest.fits, ..rest }
            },
        }
    }
}

/// `run` with `n` more reads used before it.
pub open spec fn after_reads(run: CallRun, n: nat) -> CallRun {
    CallRun { used: run.used + n, ..run }
}

/// How a blocking read runs on the recorded calls `evs`.
pub struct BlockingRun {
    /// The frame's header, or `None` when the read fails.
    pub header: Option<FrameHeader>,
    /// Buffer at the end.
    pub bytes: Seq<u8>,
    /// Recorded calls the read uses.
    pub used: nat,
    /// Every call used is a `read_exact` of the right window.
    pub fits: bool,
}

/// A recorded call is a `read_exact` of `[start, end)` leaving the rest of
/// the buffer alone.
pub open spec fn exact_fits(bytes: Seq<u8>, e: IoEvent, start: int, end: int) -> bool {
    e matches IoEvent::ReadExact { start: s, end: t, after, .. } && s == start && t == end
        && same_outside(bytes, after, start, end)
}

/// A blocking read from buffer `bytes` on the recorded calls `evs`: the
/// nine header bytes are read exactly; a header announcing too large a
/// payload fails without another read; an empty payload is done; otherwise
/// exactly the payload is read.
pub open spec fn blocking_run(bytes: Seq<u8>, evs: Seq<IoEvent>) -> BlockingRun {
    if evs.len() == 0 {
        BlockingRun { header: None, bytes, used: 0, fits: false }
    } else {
        match evs[0] {
            IoEvent::ReadExact { result, after, .. } => {
                let fit0 = exact_fits(bytes, evs[0], 0, HEADER_SIZE as int);
                let h = decode_header_spec(after);
                if result is Err || h.payload_len > MAX_PAYLOAD_SIZE {
                    BlockingRun { header: None, bytes: after, used: 1, fits: fit0 }
                } else if h.payload_len == 0 {
                    BlockingRun { header: Some(h), bytes: after, used: 1, fits: fit0 }
                } else if evs.len() < 2 {
                    BlockingRun { header: None, bytes: after, used: 1, fits: false }
                } else {
                    match evs[1] {
                        IoEvent::ReadExact { result: result2, after: after2, .. } => BlockingRun {
                            header: if result2 is Ok {
                                Some(h)
                            } else {
                                None
                            },
                            bytes: after2,
                            used: 2,
                            fits: fit0 && exact_fits(
                                after,
                                evs[1],
                                HEADER_SIZE as int,
                                HEADER_SIZE + h.payload_len,
                            ),
                        },
                        _ => BlockingRun { header: None, bytes: after, used: 2, fits: false },
                    }
                }
            },
            _ => BlockingRun { header: None, bytes, used: 1, fits: false },
        }
    }
}

/// The frame `frame_bytes(h, b)` a buffer `b` sends for header `h`: the
/// header's nine bytes, then the first `h.payload_len` payload bytes.
pub open spec fn frame_bytes(h: FrameHeader, b: Seq<u8>) -> Seq<u8> {
    header_bytes(h) + b.subrange(HEADER_SIZE as int, HEADER_SIZE + h.payload_len)
}

/// One recorded read in the middle of a call: if the call so far is the
/// run over `reads` up to state `st` and buffer `before`, then after the
/// read `ev` it is the run over `reads` and `ev`.
proof fn lemma_read_step(
    s0: ReadState,
    b0: Seq<u8>,
    reads: Seq<IoEvent>,
    st: ReadState,
    before: Seq<u8>,
    ev: IoEvent,
)
    requires
        pending(st),
        read_fits(st, before, ev),
        forall|fs: Seq<IoEvent>|
            #[trigger] run_call(s0, b0, reads + fs) == after_reads(
                run_call(st, before, fs),
                reads.len(),
            ),
    ensures
        on_read(st, ev).1 is Some ==> run_call(s0, b0, reads.push(ev)) == (CallRun {
            state: on_read(st, ev).0,
            bytes: bytes_after(before, ev),
            result: on_read(st, ev).1->Some_0,
            used: reads.len() + 1,
            fits: true,
        }),
        on_read(st, ev).1 is None ==> forall|fs: Seq<IoEvent>|
            #[trigger] run_call(s0, b0, reads.push(ev) + fs) == after_reads(
                run_call(on_read(st, ev).0, bytes_after(before, ev), fs),
                reads.len() + 1,
            ),
{
    let one = seq![ev];
    if on_read(st, ev).1 is Some {
        assert(reads.push(ev) =~= reads + one);
        assert(run_call(s0, b0, reads + one) == after_reads(run_call(st, before, one), reads.len()));
        assert(one[0] == ev);
    } else {
        assert forall|fs: Seq<IoEvent>|
            #[trigger] run_call(s0, b0, reads.push(ev) + fs) == after_reads(
                run_call(on_read(st, ev).0, bytes_after(before, ev), fs),
                reads.len() + 1,
            ) by {
            assert(reads.push(ev) + fs =~= reads + (one + fs));
            assert(run_call(s0, b0, reads + (one + fs)) == after_reads(
                run_call(st, before, one + fs),
                reads.len(),
            ));
            assert((one + fs)[0] == ev);
            assert((one + fs).drop_first() =~= fs);
        }
    }
}

// ---------------------------------------------------------------------------
// Reading a frame off the wire
// ---------------------------------------------------------------------------

/// Payload bytes that follow header `h` on the wire: its payload length, or
/// none when that length is refused.
pub open spec fn wire_payload_len(h: FrameHeader) -> nat {
    if h.payload_len <= MAX_PAYLOAD_SIZE {
        h.payload_len as nat
    } else {
        0
    }
}

/// How reading a frame whose header is `h` ends: with the frame, or
/// refused when the header announces too large a payload.
pub open spec fn frame_end(h: FrameHeader) -> CallResult {
    if h.payload_len <= MAX_PAYLOAD_SIZE {
        CallResult::Frame(h)
    } else {
        CallResult::TooLarge
    }
}

/// State `s` is part way through a frame whose header is `h`: reading the
/// header, or reading `h`'s payload.
pub open spec fn on_wire(s: ReadState, h: FrameHeader) -> bool {
    match s {
        ReadState::Header { filled } => filled <= HEADER_SIZE,
        ReadState::Payload { header, filled } => header == h && 0 < h.payload_len
            <= MAX_PAYLOAD_SIZE && filled <= h.payload_len,
    }
}

/// A recorded read that takes the next bytes of the stream `w`: it got at
/// least one byte, and the bytes that landed at the read's start are those
/// at the same offset of `w`; or the reader would block.
pub open spec fn delivers(e: IoEvent, w: Seq<u8>) -> bool {
    match e {
        IoEvent::Read { start, outcome, after, .. } => match outcome {
            ReadEvent::Got(n) => 0 < n && 0 <= start && start + n <= w.len() && start + n
                <= after.len() && after.subrange(start, start + n) == w.subrange(start, start + n),
            ReadEvent::WouldBlock => true,
            ReadEvent::Failed(_) => false,
        },
        _ => false,
    }
}

/// A recorded read on which the reader would block.
pub open spec fn would_block(e: IoEvent) -> bool {
    e matches IoEvent::Read { outcome: ReadEvent::WouldBlock, .. }
}

/// One non-blocking read call on a stream carrying header `h` then payload
/// `p`, from any point of it already received: with reads that each take
/// the next bytes of the stream or would block, the call ends either with
/// `frame_end(h)`, the state reset and the whole frame in the buffer, or
/// pending further on with what was received kept. With no would-block
/// among its reads it ends with `frame_end(h)`.
pub proof fn lemma_call_on_wire(
    h: FrameHeader,
    p: Seq<u8>,
    s: ReadState,
    bytes: Seq<u8>,
    evs: Seq<IoEvent>,
)
    requires
        p.len() == wire_payload_len(h),
        bytes.len() == MAX_FRAME_SIZE,
        on_wire(s, h),
        bytes.subrange(0, received_len(s) as int) == (header_bytes(h) + p).subrange(
            0,
            received_len(s) as int,
        ),
        run_call(s, bytes, evs).fits,
        run_call(s, bytes, evs).used == evs.len(),
        forall|i: int| 0 <= i < evs.len() ==> delivers(#[trigger] evs[i], header_bytes(h) + p),
    ensures
        ({
            let run = run_call(s, bytes, evs);
            let w = header_bytes(h) + p;
            &&& run.bytes.len() == MAX_FRAME_SIZE
            &&& {
                ||| run.result == frame_end(h) && run.state == (ReadState::Header { filled: 0 })
                    && run.bytes.subrange(0, w.len() as int) == w
                ||| run.result == CallResult::Pending && on_wire(run.state, h) && received_len(s)
                    <= received_len(run.state) && run.bytes.subrange(
                    0,
                    received_len(run.state) as int,
                ) == w.subrange(0, received_len(run.state) as int)
            }
            &&& (forall|i: int| 0 <= i < evs.len() ==> !would_block(#[trigger] evs[i]))
                ==> run.result == frame_end(h)
        }),
    decreases evs.len(), (if s is Header {
        1nat
    } else {
        0nat
    }),
{
    let w = header_bytes(h) + p;
    let k = received_len(s) as int;
    lemma_header_roundtrip(h, p);
    assert(header_bytes(h).len() == HEADER_SIZE);
    if !pending(s) {
        match s {
            ReadState::Header { filled } => {
                assert(bytes.subrange(0, HEADER_SIZE as int) =~= w.subrange(0, HEADER_SIZE as int));
                lemma_decode_header_prefix(bytes, w);
                if h.payload_len > MAX_PAYLOAD_SIZE {
                    assert(w.len() == HEADER_SIZE);
                } else if h.payload_len == 0 {
                    assert(w.len() == HEADER_SIZE);
                } else {
                    let s2 = ReadState::Payload { header: h, filled: 0 };
                    assert(received_len(s2) == HEADER_SIZE);
                    lemma_call_on_wire(h, p, s2, bytes, evs);
                }
            },
            ReadState::Payload { header, filled } => {
                assert(w.len() == k);
            },
        }
    } else if evs.len() == 0 {
    } else {
        let e = evs[0];
        assert(delivers(e, w));
        assert(read_fits(s, bytes, e));
        match e {
            IoEvent::Read { start, end, outcome, after } => {
                assert(start == k);
                match outcome {
                    ReadEvent::Got(n) => {
                        let s2 = advance(s, n);
                        let rest = evs.drop_first();
                        assert(received_len(s2) == k + n);
                        assert(after.subrange(0, k + n) =~= w.subrange(0, k + n)) by {
                            assert forall|i: int| 0 <= i < k + n implies #[trigger] after.subrange(
                                0,
                                k + n,
                            )[i] == w.subrange(0, k + n)[i] by {
                                if i < k {
                                    assert(after[i] == bytes[i]);
                                    assert(bytes[i] == bytes.subrange(0, k)[i]);
                                    assert(w[i] == w.subrange(0, k)[i]);
                                } else {
                                    assert(after[i] == after.subrange(k, k + n)[i - k]);
                                    assert(w[i] == w.subrange(k, k + n)[i - k]);
                                }
                            }
                        }
                        assert forall|i: int| 0 <= i < rest.len() implies delivers(
                            #[trigger] rest[i],
                            w,
                        ) by {
                            assert(rest[i] == evs[i + 1]);
                        }
                        lemma_call_on_wire(h, p, s2, after, rest);
                        if forall|i: int| 0 <= i < evs.len() ==> !would_block(#[trigger] evs[i]) {
                            assert forall|i: int| 0 <= i < rest.len() implies !would_block(
                                #[trigger] rest[i],
                            ) by {
                                assert(rest[i] == evs[i + 1]);
                            }
                        }
                    },
                    ReadEvent::WouldBlock => {
                        assert(after.subrange(0, k) =~= w.subrange(0, k)) by {
                            assert forall|i: int| 0 <= i < k implies #[trigger] after.subrange(0, k)[i]
                                == w.subrange(0, k)[i] by {
                                assert(after[i] == bytes[i]);
                                assert(bytes[i] == bytes.subrange(0, k)[i]);
                            }
                        }
                        assert(would_block(evs[0]));
                    },
                    ReadEvent::Failed(_) => {},
                }
            },
            _ => {},
        }
    }
}

/// Where a recorded read starts (`-1` for another call).
pub open spec fn read_start(e: IoEvent) -> int {
    match e {
        IoEvent::Read { start, .. } => start,
        _ => -1,
    }
}

/// Where a recorded read ends (`-1` for another call).
pub open spec fn read_end(e: IoEvent) -> int {
    match e {
        IoEvent::Read { end, .. } => end,
        _ => -1,
    }
}

/// How many bytes a recorded read got (0 unless it got some).
pub open spec fn read_got(e: IoEvent) -> nat {
    match e {
        IoEvent::Read { outcome: ReadEvent::Got(n), .. } => n,
        _ => 0,
    }
}

/// Each read of a non-blocking call asks only for bytes still missing from
/// the part of the frame being read: its window is non-empty, starts where
/// the bytes received so far end, and stops at the end of the header or of
/// the payload; each read picks up where the one before stopped.
pub proof fn lemma_call_reads_missing_bytes(s: ReadState, bytes: Seq<u8>, evs: Seq<IoEvent>)
    requires
        valid_state(s),
        run_call(s, bytes, evs).fits,
        run_call(s, bytes, evs).used == evs.len(),
    ensures
        evs.len() > 0 ==> read_start(evs[0]) == received_len(s),
        forall|i: int|
            0 <= i < evs.len() ==> {
                &&& #[trigger] evs[i] is Read
                &&& 0 <= read_start(evs[i]) < read_end(evs[i])
                &&& (read_end(evs[i]) == HEADER_SIZE || (HEADER_SIZE <= read_start(evs[i])
                    && read_end(evs[i]) <= MAX_FRAME_SIZE))
            },
        forall|i: int|
            0 <= i < evs.len() - 1 ==> read_start(#[trigger] evs[i + 1]) == read_start(evs[i])
                + read_got(evs[i]),
    decreases evs.len(), (if s is Header {
        1nat
    } else {
        0nat
    }),
{
    if !pending(s) {
        let (s2, r) = settle(s, bytes);
        if r is None {
            lemma_call_reads_missing_bytes(s2, bytes, evs);
        }
    } else if evs.len() > 0 {
        let e = evs[0];
        assert(read_fits(s, bytes, e));
        let (s2, r) = on_read(s, e);
        if r is None {
            let rest = evs.drop_first();
            let b2 = bytes_after(bytes, e);
            lemma_call_reads_missing_bytes(s2, b2, rest);
            assert forall|i: int| 0 <= i < evs.len() implies {
                &&& #[trigger] evs[i] is Read
                &&& 0 <= read_start(evs[i]) < read_end(evs[i])
                &&& (read_end(evs[i]) == HEADER_SIZE || (HEADER_SIZE <= read_start(evs[i])
                    && read_end(evs[i]) <= MAX_FRAME_SIZE))
            } by {
                if i > 0 {
                    assert(evs[i] == rest[i - 1]);
                }
            }
            assert forall|i: int| 0 <= i < evs.len() - 1 implies read_start(#[trigger] evs[i + 1])
                == read_start(evs[i]) + read_got(evs[i]) by {
                assert(evs[i + 1] == rest[i]);
                if i > 0 {
                    assert(evs[i] == rest[i - 1]);
                }
            }
        }
    }
}

/// A blocking read asks for exactly one frame: first the nine header bytes,
/// then, for a header it accepts with a non-empty payload, exactly that
/// payload; nothing more.
pub proof fn lemma_blocking_read_windows(bytes: Seq<u8>, evs: Seq<IoEvent>)
    requires
        blocking_run(bytes, evs).fits,
        blocking_run(bytes, evs).used == evs.len(),
    ensures
        evs.len() == 1 || evs.len() == 2,
        evs[0] matches IoEvent::ReadExact { start, end, .. } && start == 0 && end == HEADER_SIZE,
        evs.len() == 2 ==> (evs[0] matches IoEvent::ReadExact { after, .. } && evs[1] matches IoEvent::ReadExact {
            start,
            end,
            ..
        } && start == HEADER_SIZE && end == HEADER_SIZE + decode_header_spec(after).payload_len
            && 0 < decode_header_spec(after).payload_len <= MAX_PAYLOAD_SIZE),
        blocking_run(bytes, evs).header matches Some(h) ==> (h.payload_len == 0) == (evs.len()
            == 1),
{
}

/// Successive non-blocking read calls, call `i` on the recorded reads
/// `calls[i]`: each starts where the one before stopped, and another call
/// follows only one that ended pending. `used` counts the calls made;
/// `fits` says that each used all its reads and each read fitted.
pub open spec fn run_calls(s: ReadState, bytes: Seq<u8>, calls: Seq<Seq<IoEvent>>) -> CallRun
    decreases calls.len(),
{
    if calls.len() == 0 {
        CallRun { state: s, bytes, result: CallResult::Pending, used: 0, fits: true }
    } else {
        let r = run_call(s, bytes, calls[0]);
        let ok = r.fits && r.used == calls[0].len();
        if calls.len() > 1 && r.result == CallResult::Pending {
            let rest = run_calls(r.state, r.bytes, calls.drop_first());
            CallRun { used: rest.used + 1, fits: ok && rest.fits, ..rest }
        } else {
            CallRun { used: 1, fits: ok, ..r }
        }
    }
}

/// Every read of every call takes the next bytes of `w` or would block.
pub open spec fn all_deliver(calls: Seq<Seq<IoEvent>>, w: Seq<u8>) -> bool {
    forall|i: int, j: int|
        0 <= i < calls.len() && 0 <= j < calls[i].len() ==> delivers(#[trigger] calls[i][j], w)
}

/// The last call meets no would-block.
pub open spec fn last_call_completes(calls: Seq<Seq<IoEvent>>) -> bool {
    calls.len() > 0 && forall|j: int|
        0 <= j < calls.last().len() ==> !would_block(#[trigger] calls.last()[j])
}

proof fn lemma_calls_on_wire(
    h: FrameHeader,
    p: Seq<u8>,
    s: ReadState,
    bytes: Seq<u8>,
    calls: Seq<Seq<IoEvent>>,
)
    requires
        p.len() == wire_payload_len(h),
        bytes.len() == MAX_FRAME_SIZE,
        on_wire(s, h),
        bytes.subrange(0, received_len(s) as int) == (header_bytes(h) + p).subrange(
            0,
            received_len(s) as int,
        ),
        run_calls(s, bytes, calls).fits,
        run_calls(s, bytes, calls).used == calls.len(),
        all_deliver(calls, header_bytes(h) + p),
    ensures
        ({
            let run = run_calls(s, bytes, calls);
            let w = header_bytes(h) + p;
            &&& run.result == frame_end(h) || run.result == CallResult::Pending
            &&& run.result == frame_end(h) ==> run.state == (ReadState::Header { filled: 0 })
                && run.bytes.subrange(0, w.len() as int) == w
            &&& last_call_completes(calls) ==> run.result == frame_end(h)
        }),
    decreases calls.len(),
{
    let w = header_bytes(h) + p;
    if calls.len() > 0 {
        let evs = calls[0];
        assert forall|j: int| 0 <= j < evs.len() implies delivers(#[trigger] evs[j], w) by {
            assert(calls[0][j] == evs[j]);
        }
        let r = run_call(s, bytes, evs);
        if calls.len() > 1 && r.result == CallResult::Pending {
            lemma_call_on_wire(h, p, s, bytes, evs);
            let rest = calls.drop_first();
            assert forall|i: int, j: int| 0 <= i < rest.len() && 0 <= j < rest[i].len() implies delivers(
                #[trigger] rest[i][j],
                w,
            ) by {
                assert(rest[i] == calls[i + 1]);
            }
            assert(frame_end(h) != CallResult::Pending);
            lemma_calls_on_wire(h, p, r.state, r.bytes, rest);
            if last_call_completes(calls) {
                assert(rest.last() == calls.last());
            }
        } else {
            lemma_call_on_wire(h, p, s, bytes, evs);
            if last_call_completes(calls) {
                assert(calls.len() == 1 || r.result != CallResult::Pending);
                if calls.len() == 1 {
                    assert(calls.last() == evs);
                }
            }
        }
    }
}

/// A frame delivered in chunks, with would-blocks in between, reads the
/// same as one delivered in a single piece. From a fresh or reset buffer
/// (state `Header { filled: 0 }`, whatever its bytes), successive
/// non-blocking calls whose reads each take the next bytes of the stream
/// `header_bytes(h) + p`, or would block, end pending until the frame is
/// complete; the call that completes it ends with `frame_end(h)` (the frame
/// `h`, or refused when `h` announces too large a payload), the state reset
/// and the whole frame in the buffer, whatever the chunks were. A last call
/// that meets no would-block completes the frame.
pub proof fn lemma_chunked_frame_read(
    h: FrameHeader,
    p: Seq<u8>,
    bytes: Seq<u8>,
    calls: Seq<Seq<IoEvent>>,
)
    requires
        p.len() == wire_payload_len(h),
        bytes.len() == MAX_FRAME_SIZE,
        run_calls(ReadState::Header { filled: 0 }, bytes, calls).fits,
        run_calls(ReadState::Header { filled: 0 }, bytes, calls).used == calls.len(),
        all_deliver(calls, header_bytes(h) + p),
    ensures
        ({
            let run = run_calls(ReadState::Header { filled: 0 }, bytes, calls);
            let w = header_bytes(h) + p;
            &&& run.result == frame_end(h) || run.result == CallResult::Pending
            &&& run.result == frame_end(h) ==> run.state == (ReadState::Header { filled: 0 })
                && run.bytes.subrange(0, w.len() as int) == w
            &&& last_call_completes(calls) ==> run.result == frame_end(h)
        }),
{
    let s = ReadState::Header { filled: 0 };
    assert(bytes.subrange(0, 0) =~= (header_bytes(h) + p).subrange(0, 0));
    lemma_calls_on_wire(h, p, s, bytes, calls);
}

/// After `reset_read_state` a buffer reads like a new one. Whatever bytes
/// it still holds from an abandoned frame (`kept`), a frame `h` then `p`
/// delivered afterwards, in any chunks, ends exactly as on a new,
/// zero-filled buffer: with `frame_end(h)`, the state reset and the frame's
/// own bytes at the front; nothing received before the reset is glued in
/// front of it.
pub proof fn lemma_reset_reads_like_new(
    h: FrameHeader,
    p: Seq<u8>,
    kept: Seq<u8>,
    calls_after_reset: Seq<Seq<IoEvent>>,
    calls_on_new: Seq<Seq<IoEvent>>,
)
    requires
        p.len() == wire_payload_len(h),
        kept.len() == MAX_FRAME_SIZE,
        run_calls(ReadState::Header { filled: 0 }, kept, calls_after_reset).fits,
        run_calls(ReadState::Header { filled: 0 }, kept, calls_after_reset).used
            == calls_after_reset.len(),
        run_calls(
            ReadState::Header { filled: 0 },
            Seq::new(MAX_FRAME_SIZE as nat, |i: int| 0u8),
            calls_on_new,
        ).fits,
        run_calls(
            ReadState::Header { filled: 0 },
            Seq::new(MAX_FRAME_SIZE as nat, |i: int| 0u8),
            calls_on_new,
        ).used == calls_on_new.len(),
        all_deliver(calls_after_reset, header_bytes(h) + p),
        all_deliver(calls_on_new, header_bytes(h) + p),
        last_call_completes(calls_after_reset),
        last_call_completes(calls_on_new),
    ensures
        ({
            let after_reset = run_calls(ReadState::Header { filled: 0 }, kept, calls_after_reset);
            let on_new = run_calls(
                ReadState::Header { filled: 0 },
                Seq::new(MAX_FRAME_SIZE as nat, |i: int| 0u8),
                calls_on_new,
            );
            let w = header_bytes(h) + p;
            &&& after_reset.result == on_new.result
            &&& after_reset.result == frame_end(h)
            &&& after_reset.state == on_new.state
            &&& after_reset.bytes.subrange(0, w.len() as int) == on_new.bytes.subrange(
                0,
                w.len() as int,
            )
            &&& after_reset.bytes.subrange(0, w.len() as int) == w
        }),
{
    lemma_chunked_frame_read(h, p, kept, calls_after_reset);
    lemma_chunked_frame_read(h, p, Seq::new(MAX_FRAME_SIZE as nat, |i: int| 0u8), calls_on_new);
}

/// A recorded `read_exact` that succeeded and filled its window with the
/// bytes at the same offsets of the stream `w`.
pub open spec fn delivers_exact(e: IoEvent, w: Seq<u8>) -> bool {
    match e {
        IoEvent::ReadExact { start, end, result, after } => result is Ok && 0 <= start <= end <= w.len() && end
            <= after.len() && after.subrange(start, end) == w.subrange(start, end),
        _ => false,
    }
}

/// What one buffer writes, another reads back. If each read of a blocking
/// read delivers its window of the frame `frame_bytes(h, src)` that
/// `write_frame` hands to the writer, the read gives `h`, and the payload
/// area then starts with the writer's `h.payload_len` payload bytes.
pub proof fn lemma_blocking_read_of_sent_frame(
    h: FrameHeader,
    src: Seq<u8>,
    bytes: Seq<u8>,
    evs: Seq<IoEvent>,
)
    requires
        h.payload_len <= MAX_PAYLOAD_SIZE,
        src.len() == MAX_FRAME_SIZE,
        bytes.len() == MAX_FRAME_SIZE,
        blocking_run(bytes, evs).fits,
        blocking_run(bytes, evs).used == evs.len(),
        forall|i: int| 0 <= i < evs.len() ==> delivers_exact(#[trigger] evs[i], frame_bytes(h, src)),
    ensures
        blocking_run(bytes, evs).header == Some(h),
        blocking_run(bytes, evs).bytes.subrange(HEADER_SIZE as int, HEADER_SIZE + h.payload_len)
            == src.subrange(HEADER_SIZE as int, HEADER_SIZE + h.payload_len),
{
    let w = frame_bytes(h, src);
    let p = src.subrange(HEADER_SIZE as int, HEADER_SIZE + h.payload_len);
    lemma_header_roundtrip(h, p);
    assert(header_bytes(h).len() == HEADER_SIZE);
    assert(evs.len() > 0);
    assert(delivers_exact(evs[0], w));
    match evs[0] {
        IoEvent::ReadExact { start, end, after, .. } => {
            assert(after.subrange(0, HEADER_SIZE as int) =~= w.subrange(0, HEADER_SIZE as int));
            lemma_decode_header_prefix(after, w);
            if h.payload_len > 0 {
                assert(evs.len() >= 2);
                assert(delivers_exact(evs[1], w));
                match evs[1] {
                    IoEvent::ReadExact { after: after2, .. } => {
                        assert(after2.subrange(HEADER_SIZE as int, HEADER_SIZE + h.payload_len)
                            =~= p);
                    },
                    _ => {},
                }
            }
        },
        _ => {},
    }
}

/// A blocking read refuses a header announcing too large a payload after
/// reading the header alone: no payload read is made.
pub proof fn lemma_blocking_read_refuses_large_header(
    h: FrameHeader,
    bytes: Seq<u8>,
    evs: Seq<IoEvent>,
)
    requires
        h.payload_len > MAX_PAYLOAD_SIZE,
        bytes.len() == MAX_FRAME_SIZE,
        blocking_run(bytes, evs).fits,
        blocking_run(bytes, evs).used == evs.len(),
        evs.len() > 0,
        delivers_exact(evs[0], header_bytes(h)),
    ensures
        blocking_run(bytes, evs).header is None,
        evs.len() == 1,
{
    lemma_header_roundtrip(h, Seq::empty());
    assert(header_bytes(h) + Seq::<u8>::empty() =~= header_bytes(h));
    match evs[0] {
        IoEvent::ReadExact { start, end, after, .. } => {
            assert(after.subrange(0, HEADER_SIZE as int) =~= header_bytes(h));
            lemma_decode_header_prefix(after, header_bytes(h));
        },
        _ => {},
    }
}

// ---------------------------------------------------------------------------
// FrameBuffer
// ---------------------------------------------------------------------------

/// Pre-allocated buffer for reading and writing IPC frames.
///
/// Handles partial reads on non-blocking sockets by keeping a read state
/// across calls to [`try_read_frame`](Self::try_read_frame). All
/// allocation happens at construction time. The buffer keeps, in ghost
/// state, the record of every call it made on a reader or writer; only the
/// calls themselves add to it.
pub struct FrameBuffer {
    buf: Vec<u8>,
    read_state: ReadState,
    io_log: Ghost<Seq<IoEvent>>,
}

/// `Read::read` into `fb`'s buffer at `[start, end)`, its result told apart
/// by kind. `Read` promises `n <= end - start` for `Ok(n)`; bytes outside
/// the window are left alone, and so is the read state. The call, its
/// window, its outcome and the buffer after it are added to `fb`'s record.
/// What lands inside the window, and which outcome comes, depends on the
/// reader.
#[verifier::external_body]
fn read_into<R: std::io::Read>(reader: &mut R, fb: &mut FrameBuffer, start: usize, end: usize) -> (r:
    ReadOutcome)
    requires
        start <= end <= old(fb).spec_bytes().len(),
    ensures
        same_outside(old(fb).spec_bytes(), final(fb).spec_bytes(), start as int, end as int),
        final(fb).spec_state() == old(fb).spec_state(),
        r matches ReadOutcome::Got(n) ==> n <= end - start,
        final(fb).spec_log() == old(fb).spec_log().push(
            IoEvent::Read {
                start: start as int,
                end: end as int,
                outcome: outcome_event(&r),
                after: final(fb).spec_bytes(),
            },
        ),
{
    match reader.read(&mut fb.buf[start..end]) {
        Ok(n) => ReadOutcome::Got(n),
        Err(e) if e.kind() == std::io::ErrorKind::WouldBlock => ReadOutcome::WouldBlock,
        Err(e) => ReadOutcome::Failed(e),
    }
}

/// `Read::read_exact` into `fb`'s buffer at `[start, end)`. Bytes outside
/// the window are left alone, and so is the read state. The call, its
/// window, what it returned and the buffer after it are added to `fb`'s
/// record. What lands inside the window, and whether the call succeeds,
/// depends on the reader.
#[verifier::external_body]
fn read_exact_into<R: std::io::Read>(
    reader: &mut R,
    fb: &mut FrameBuffer,
    start: usize,
    end: usize,
) -> (r: std::io::Result<()>)
    requires
        start <= end <= old(fb).spec_bytes().len(),
    ensures
        same_outside(old(fb).spec_bytes(), final(fb).spec_bytes(), start as int, end as int),
        final(fb).spec_state() == old(fb).spec_state(),
        final(fb).spec_log() == old(fb).spec_log().push(
            IoEvent::ReadExact {
                start: start as int,
                end: end as int,
                result: r,
                after: final(fb).spec_bytes(),
            },
        ),
{
    reader.read_exact(&mut fb.buf[start..end])
}

/// `Write::write_all` of the first `len` bytes of `fb`'s buffer. The
/// buffer and the read state are left alone; the bytes handed to the writer
/// and what the call returned are added to `fb`'s record. Success depends
/// on the writer.
#[verifier::external_body]
fn write_all_bytes<W: std::io::Write>(writer: &mut W, fb: &mut FrameBuffer, len: usize) -> (r:
    std::io::Result<()>)
    requires
        len <= old(fb).spec_bytes().len(),
    ensures
        final(fb).spec_bytes() == old(fb).spec_bytes(),
        final(fb).spec_state() == old(fb).spec_state(),
        final(fb).spec_log() == old(fb).spec_log().push(
            IoEvent::WriteAll { bytes: old(fb).spec_bytes().subrange(0, len as int), result: r },
        ),
{
    writer.write_all(&fb.buf[..len])
}

impl FrameBuffer {
    /// The buffer's bytes: header area followed by payload area.
    pub closed spec fn spec_bytes(&self) -> Seq<u8> {
        self.buf@
    }

    /// The non-blocking read progress.
    pub closed spec fn spec_state(&self) -> ReadState {
        self.read_state
    }

    /// Every call made on a reader or writer, oldest first.
    pub closed spec fn spec_log(&self) -> Seq<IoEvent> {
        self.io_log@
    }

    /// The buffer holds exactly [`MAX_FRAME_SIZE`] bytes and a valid state.
    pub open spec fn wf(&self) -> bool {
        &&& self.spec_bytes().len() == MAX_FRAME_SIZE
        &&& valid_state(self.spec_state())
    }

    /// Create a new zero-filled frame buffer waiting for a header.
    pub fn new() -> (fb: Self)
        ensures
            fb.wf(),
            fb.spec_bytes() == Seq::new(MAX_FRAME_SIZE as nat, |i: int| 0u8),
            fb.spec_state() == (ReadState::Header { filled: 0 }),
            fb.spec_log() == Seq::<IoEvent>::empty(),
    {
        let mut buf: Vec<u8> = Vec::new();
        while buf.len() < MAX_FRAME_SIZE
            invariant
                buf@.len() <= MAX_FRAME_SIZE,
                forall|i: int| 0 <= i < buf@.len() ==> buf@[i] == 0u8,
            decreases MAX_FRAME_SIZE - buf@.len(),
        {
            buf.push(0u8);
        }
        assert(buf@ =~= Seq::new(MAX_FRAME_SIZE as nat, |i: int| 0u8));
        FrameBuffer { buf, read_state: ReadState::Header { filled: 0 }, io_log: Ghost(Seq::empty()) }
    }

    /// The payload portion of the buffer (after the header).
    pub fn payload(&self) -> (p: &[u8])
        requires
            self.wf(),
        ensures
            p@ == self.spec_bytes().subrange(HEADER_SIZE as int, MAX_FRAME_SIZE as int),
    {
        vstd::slice::slice_subrange(self.buf.as_slice(), HEADER_SIZE, self.buf.len())
    }

    /// Mutable access to the payload portion, for encoding outgoing
    /// messages; the header area, the read state and the record stay as
    /// they are.
    pub fn payload_mut(&mut self) -> (p: &mut [u8])
        requires
            old(self).wf(),
        ensures
            p@ == old(self).spec_bytes().subrange(HEADER_SIZE as int, MAX_FRAME_SIZE as int),
            final(self).spec_bytes() == old(self).spec_bytes().subrange(0, HEADER_SIZE as int)
                + final(p)@,
            final(self).spec_state() == old(self).spec_state(),
            final(self).spec_log() == old(self).spec_log(),
    {
        let (_head, tail) = self.buf.as_mut_slice().split_at_mut(HEADER_SIZE);
        tail
    }

    /// Reset the read state machine, discarding any partial frame.
    pub fn reset_read_state(&mut self)
        requires
            old(self).wf(),
        ensures
            final(self).wf(),
            final(self).spec_bytes() == old(self).spec_bytes(),
            final(self).spec_state() == (ReadState::Header { filled: 0 }),
            final(self).spec_log() == old(self).spec_log(),
    {
        self.read_state = ReadState::Header { filled: 0 };
    }

    /// Encode the header `(msg_type, payload_len, seq)` into the header
    /// area and return the frame to send: the header followed by the first
    /// `payload_len` payload bytes.
    pub fn encode_frame(&mut self, msg_type: u8, seq: u32, payload_len: usize) -> (frame: &[u8])
        requires
            old(self).wf(),
            payload_len <= MAX_PAYLOAD_SIZE,
        ensures
            final(self).wf(),
            final(self).spec_bytes() == header_bytes(
                FrameHeader { msg_type, payload_len: payload_len as u32, seq },
            ) + old(self).spec_bytes().subrange(HEADER_SIZE as int, MAX_FRAME_SIZE as int),
            final(self).spec_state() == old(self).spec_state(),
            final(self).spec_log() == old(self).spec_log(),
            frame@ == frame_bytes(
                FrameHeader { msg_type, payload_len: payload_len as u32, seq },
                old(self).spec_bytes(),
            ),
    {
        let header = FrameHeader { msg_type, payload_len: payload_len as u32, seq };
        encode_header(&header, self.buf.as_mut_slice());
        let frame = vstd::slice::slice_subrange(self.buf.as_slice(), 0, HEADER_SIZE + payload_len);
        assert(frame@ =~= frame_bytes(header, old(self).spec_bytes()));
        frame
    }

    /// Write a complete frame to `writer` (blocking).
    ///
    /// The caller has already placed the payload in
    /// `payload_mut()[..payload_len]`. A `payload_len` that does not fit in a
    /// `u32` is refused with an `InvalidInput` error and nothing changes.
    /// Otherwise the frame from [`encode_frame`](Self::encode_frame) is
    /// handed to `writer.write_all`, whose outcome is returned.
    pub fn write_frame<W: std::io::Write>(
        &mut self,
        msg_type: u8,
        seq: u32,
        payload_len: usize,
        writer: &mut W,
    ) -> (r: std::io::Result<()>)
        requires
            old(self).wf(),
            payload_len <= MAX_PAYLOAD_SIZE || payload_len > u32::MAX,
        ensures
            final(self).wf(),
            final(self).spec_state() == old(self).spec_state(),
            payload_len > u32::MAX ==> r is Err && final(self).spec_bytes() == old(
                self,
            ).spec_bytes() && final(self).spec_log() == old(self).spec_log(),
            payload_len <= u32::MAX ==> {
                let h = FrameHeader { msg_type, payload_len: payload_len as u32, seq };
                &&& final(self).spec_bytes() == header_bytes(h) + old(
                    self,
                ).spec_bytes().subrange(HEADER_SIZE as int, MAX_FRAME_SIZE as int)
                &&& final(self).spec_log() == old(self).spec_log().push(
                    IoEvent::WriteAll { bytes: frame_bytes(h, old(self).spec_bytes()), result: r },
                )
            },
    {
        if payload_len > u32::MAX as usize {
            return Err(invalid_input_error("payload too large for u32"));
        }
        let ghost before = self.buf@;
        let _frame = self.encode_frame(msg_type, seq, payload_len);
        proof {
            let h = FrameHeader { msg_type, payload_len: payload_len as u32, seq };
            assert(self.buf@.subrange(0, HEADER_SIZE + payload_len) =~= frame_bytes(h, before));
        }
        write_all_bytes(writer, self, HEADER_SIZE + payload_len)
    }

    /// Read a complete frame from `reader` (blocking).
    ///
    /// Reads the nine header bytes into the header area, refuses a payload
    /// length above [`MAX_PAYLOAD_SIZE`] with an `InvalidData` error, then
    /// reads exactly the payload into the payload area. On success the read
    /// state is reset and the decoded header returned; the payload is
    /// `payload()[..payload_len]`. A failing read's error is returned as it
    /// is. The reads it makes, and what each gave, are recorded; the outcome
    /// is [`blocking_run`] on them.
    pub fn read_frame<R: std::io::Read>(&mut self, reader: &mut R) -> (r: std::io::Result<
        FrameHeader,
    >)
        requires
            old(self).wf(),
        ensures
            final(self).wf(),
            final(self).spec_log().len() >= old(self).spec_log().len(),
            final(self).spec_log().take(old(self).spec_log().len() as int) == old(
                self,
            ).spec_log(),
            ({
                let calls = final(self).spec_log().skip(old(self).spec_log().len() as int);
                let run = blocking_run(old(self).spec_bytes(), calls);
                &&& run.used == calls.len()
                &&& run.fits
                &&& run.bytes == final(self).spec_bytes()
                &&& match run.header {
                    Some(h) => r matches Ok(rh) && rh == h,
                    None => r is Err,
                }
                &&& calls.len() > 0 ==> match calls.last() {
                    IoEvent::ReadExact { result: Err(e), .. } => r matches Err(re) && re == e,
                    _ => true,
                }
            }),
            r matches Ok(h) ==> {
                &&& h == decode_header_spec(final(self).spec_bytes())
                &&& h.payload_len <= MAX_PAYLOAD_SIZE
                &&& final(self).spec_state() == (ReadState::Header { filled: 0 })
                &&& final(self).spec_bytes().subrange(
                    HEADER_SIZE + h.payload_len,
                    MAX_FRAME_SIZE as int,
                ) == old(self).spec_bytes().subrange(
                    HEADER_SIZE + h.payload_len,
                    MAX_FRAME_SIZE as int,
                )
            },
            r is Err ==> final(self).spec_state() == old(self).spec_state(),
    {
        let ghost b0 = self.buf@;
        let ghost log0 = self.io_log@;
        let got = read_exact_into(reader, self, 0, HEADER_SIZE);
        let ghost e0 = self.io_log@.last();
        proof {
            assert(self.io_log@ == log0.push(e0));
            assert(self.io_log@.take(log0.len() as int) =~= log0);
            assert(self.io_log@.skip(log0.len() as int) =~= seq![e0]);
        }
        if let Err(e) = got {
            return Err(e);
        }
        let header = decode_header(self.buf.as_slice());
        let payload_len = header.payload_len as usize;
        if payload_len > MAX_PAYLOAD_SIZE {
            let mut message = String::from_str("payload too large: ");
            crate::text::push_decimal(&mut message, payload_len as u64);
            message.append(" > ");
            crate::text::push_decimal(&mut message, MAX_PAYLOAD_SIZE as u64);
            return Err(invalid_data_error(message));
        }
        if payload_len > 0 {
            let ghost b1 = self.buf@;
            let ghost log1 = self.io_log@;
            let got = read_exact_into(reader, self, HEADER_SIZE, HEADER_SIZE + payload_len);
            let ghost e1 = self.io_log@.last();
            proof {
                assert(self.io_log@ == log1.push(e1));
                assert(self.io_log@.take(log0.len() as int) =~= log0);
                assert(self.io_log@.skip(log0.len() as int) =~= seq![e0, e1]);
                assert(self.buf@.subrange(0, HEADER_SIZE as int) =~= b1.subrange(
                    0,
                    HEADER_SIZE as int,
                ));
                lemma_decode_header_prefix(self.buf@, b1);
                assert(self.buf@.subrange(HEADER_SIZE + payload_len, MAX_FRAME_SIZE as int)
                    =~= b0.subrange(HEADER_SIZE + payload_len, MAX_FRAME_SIZE as int));
            }
            if let Err(e) = got {
                return Err(e);
            }
        } else {
            proof {
                assert(self.buf@.subrange(HEADER_SIZE as int, MAX_FRAME_SIZE as int)
                    =~= b0.subrange(HEADER_SIZE as int, MAX_FRAME_SIZE as int));
            }
        }
        self.read_state = ReadState::Header { filled: 0 };
        Ok(header)
    }

    /// Try to read a complete frame from a non-blocking reader.
    ///
    /// Returns `Ok(Some(header))` once a complete frame has been read (the
    /// payload is in `payload()`), and resets the read state. Returns
    /// `Ok(None)` when the reader would block: the partial progress is kept
    /// and the next call resumes where this one stopped. A header whose
    /// payload length exceeds [`MAX_PAYLOAD_SIZE`] resets the state and fails
    /// with `InvalidData`; end of input fails with `UnexpectedEof`; other
    /// reader errors are passed on. Each read asks for the rest of the
    /// current header or payload only, and bytes already received are never
    /// overwritten. Each step is decided by [`ReadState::settled`] or, after
    /// a read, by [`ReadState::after_read`] on its outcome. The reads it
    /// makes, and what each gave, are recorded; the outcome is [`run_call`]
    /// on them.
    pub fn try_read_frame<R: std::io::Read>(&mut self, reader: &mut R) -> (r: std::io::Result<
        Option<FrameHeader>,
    >)
        requires
            old(self).wf(),
        ensures
            final(self).wf(),
            final(self).spec_log().len() >= old(self).spec_log().len(),
            final(self).spec_log().take(old(self).spec_log().len() as int) == old(
                self,
            ).spec_log(),
            ({
                let reads = final(self).spec_log().skip(old(self).spec_log().len() as int);
                let run = run_call(old(self).spec_state(), old(self).spec_bytes(), reads);
                &&& run.used == reads.len()
                &&& run.fits
                &&& run.state == final(self).spec_state()
                &&& run.bytes == final(self).spec_bytes()
                &&& match run.result {
                    CallResult::Frame(h) => r matches Ok(Some(rh)) && rh == h,
                    CallResult::Pending => r matches Ok(None),
                    CallResult::ReaderFailed => reads.len() > 0 && (match reads.last() {
                        IoEvent::Read { outcome: ReadEvent::Failed(e), .. } => r matches Err(re)
                            && re == e,
                        _ => false,
                    }),
                    _ => r is Err,
                }
            }),
            final(self).spec_bytes().subrange(0, received_len(old(self).spec_state()) as int)
                == old(self).spec_bytes().subrange(0, received_len(old(self).spec_state()) as int),
            r matches Ok(Some(h)) ==> {
                &&& h.payload_len <= MAX_PAYLOAD_SIZE
                &&& final(self).spec_state() == (ReadState::Header { filled: 0 })
                &&& match old(self).spec_state() {
                    ReadState::Header { .. } => h == decode_header_spec(final(self).spec_bytes()),
                    ReadState::Payload { header, .. } => h == header,
                }
            },
            r matches Ok(None) ==> {
                &&& pending(final(self).spec_state())
                &&& received_len(final(self).spec_state()) >= received_len(old(self).spec_state())
            },
    {
        let ghost old_bytes = self.buf@;
        let ghost old_state = self.read_state;
        let ghost log0 = self.io_log@;
        let ghost mut reads: Seq<IoEvent> = Seq::empty();
        proof {
            assert forall|fs: Seq<IoEvent>|
                #[trigger] run_call(old_state, old_bytes, reads + fs) == after_reads(
                    run_call(self.read_state, self.buf@, fs),
                    reads.len(),
                ) by {
                assert(reads + fs =~= fs);
            }
            assert(self.io_log@ =~= log0 + reads);
        }
        loop
            invariant
                self.wf(),
                old(self).wf(),
                old_bytes == old(self).spec_bytes(),
                old_state == old(self).spec_state(),
                log0 == old(self).spec_log(),
                self.io_log@ == log0 + reads,
                forall|fs: Seq<IoEvent>|
                    #[trigger] run_call(old_state, old_bytes, reads + fs) == after_reads(
                        run_call(self.read_state, self.buf@, fs),
                        reads.len(),
                    ),
                received_len(self.read_state) >= received_len(old_state),
                self.buf@.subrange(0, received_len(old_state) as int) == old_bytes.subrange(
                    0,
                    received_len(old_state) as int,
                ),
                old_state is Payload ==> self.read_state is Payload
                    && self.read_state->header == old_state->header,
                (old_state is Header && self.read_state is Payload) ==> self.read_state->header
                    == decode_header_spec(self.buf@),
            decreases progress_measure(self.read_state),
        {
            proof {
                assert(self.io_log@.take(log0.len() as int) =~= log0);
                assert(self.io_log@.skip(log0.len() as int) =~= reads);
                assert(reads + Seq::<IoEvent>::empty() =~= reads);
            }
            let state = self.read_state;
            if !state.needs_bytes() {
                let (next, stop) = state.settled(self.buf.as_slice());
                self.read_state = next;
                match stop {
                    Some(CallResult::Frame(header)) => {
                        return Ok(Some(header));
                    },
                    Some(_) => {
                        let header = decode_header(self.buf.as_slice());
                        let mut message = String::from_str("payload too large: ");
                        crate::text::push_decimal(&mut message, header.payload_len as u64);
                        return Err(invalid_data_error(message));
                    },
                    None => {
                        proof {
                            assert forall|fs: Seq<IoEvent>|
                                #[trigger] run_call(old_state, old_bytes, reads + fs)
                                    == after_reads(
                                    run_call(self.read_state, self.buf@, fs),
                                    reads.len(),
                                ) by {
                                assert(run_call(state, self.buf@, fs) == run_call(
                                    self.read_state,
                                    self.buf@,
                                    fs,
                                ));
                            }
                        }
                    },
                }
            } else {
                let (start, end) = state.window();
                let ghost before = self.buf@;
                let ghost log1 = self.io_log@;
                let outcome = read_into(reader, self, start, end);
                let ghost ev = self.io_log@.last();
                proof {
                    assert(self.io_log@ == log1.push(ev));
                    lemma_read_step(old_state, old_bytes, reads, state, before, ev);
                    reads = reads.push(ev);
                    assert(self.io_log@.take(log0.len() as int) =~= log0);
                    assert(self.io_log@.skip(log0.len() as int) =~= reads);
                    assert(self.buf@.subrange(0, received_len(old_state) as int)
                        =~= before.subrange(0, received_len(old_state) as int));
                    if state is Payload {
                        assert(self.buf@.subrange(0, HEADER_SIZE as int) =~= before.subrange(
                            0,
                            HEADER_SIZE as int,
                        ));
                        lemma_decode_header_prefix(self.buf@, before);
                    }
                }
                let (next, stop) = state.after_read(&outcome);
                self.read_state = next;
                if let ReadOutcome::Failed(e) = outcome {
                    return Err(e);
                }
                match stop {
                    None => {},
                    Some(CallResult::Pending) => {
                        return Ok(None);
                    },
                    Some(_) => {
                        let message = match state {
                            ReadState::Header { .. } => "connection closed during header read",
                            ReadState::Payload { .. } => "connection closed during payload read",
                        };
                        return Err(unexpected_eof_error(message));
                    },
                }
            }
        }
    }
}

} // verus!

verus! {

// ---------------------------------------------------------------------------
// Audio payload header
// ---------------------------------------------------------------------------

/// Size of the audio payload header (`frame_count` field).
pub const AUDIO_PAYLOAD_HEADER: usize = 4;

/// Decode the frame count (little-endian `u32`) at the start of an audio
/// payload.
pub fn decode_audio_frame_count(buf: &[u8]) -> (n: u32)
    requires
        buf@.len() >= AUDIO_PAYLOAD_HEADER,
    ensures
        n == le_u32_at(buf@, 0),
{
    read_le_u32(buf, 0)
}

} // verus!
