//! Decisions of the hub's IPC server: which mixer strip a new instrument
//! gets, how an instrument's frames are dispatched, and how its audio ring
//! and decode window are sized. The sockets and threads stay with the
//! caller.
use vstd::prelude::*;

use crate::ipc::types::{MSG_AUDIO, MSG_NOTE_EVENT, MSG_SHUTDOWN, MSG_TRANSPORT_REQUEST};

verus! {

/// Maximum number of concurrent instrument connections.
pub const MAX_INSTRUMENTS: usize = 16;

/// Blocks of audio each instrument's ring holds.
pub const INSTRUMENT_RB_BLOCKS: usize = 8;

/// Largest audio callback frame count accepted from instruments.
pub const MAX_INSTRUMENT_FRAMES: usize = 4096;

/// Strip index `i` is taken by one of the live connections in `used`.
pub open spec fn strip_taken(used: Seq<u8>, i: int) -> bool {
    exists|k: int| 0 <= k < used.len() && used[k] == i
}

/// The lowest strip index below [`MAX_INSTRUMENTS`] that no live
/// connection uses (`used` lists their indices), or 0 when all are taken.
pub fn allocate_strip_index(used: &[u8]) -> (idx: u8)
    ensures
        idx < MAX_INSTRUMENTS,
        (exists|i: int| 0 <= i < MAX_INSTRUMENTS && !strip_taken(used@, i)) ==> {
            &&& !strip_taken(used@, idx as int)
            &&& forall|i: int| 0 <= i < idx ==> strip_taken(used@, i)
        },
        (forall|i: int| 0 <= i < MAX_INSTRUMENTS ==> strip_taken(used@, i)) ==> idx == 0,
{
    let mut taken = [false; 16];
    let mut k: usize = 0;
    while k < used.len()
        invariant
            k <= used@.len(),
            taken@.len() == 16,
            forall|i: int|
                0 <= i < 16 ==> (taken@[i] <==> exists|j: int|
                    0 <= j < k && used@[j] == i),
        decreases used@.len() - k,
    {
        let idx = used[k] as usize;
        if idx < MAX_INSTRUMENTS {
            taken[idx] = true;
        }
        k = k + 1;
        assert forall|i: int|
            0 <= i < 16 implies (taken@[i] <==> exists|j: int| 0 <= j < k && used@[j] == i) by {
            if taken@[i] && used@[k - 1] != i {
                let j = choose|j: int| 0 <= j < k - 1 && used@[j] == i;
                assert(0 <= j < k && used@[j] == i);
            }
            if used@[k - 1] == i {
                assert(taken@[i]);
            }
        }
    }
    let mut i: usize = 0;
    while i < MAX_INSTRUMENTS
        invariant
            i <= 16,
            taken@.len() == 16,
            forall|m: int| 0 <= m < 16 ==> (taken@[m] <==> strip_taken(used@, m)),
            forall|m: int| 0 <= m < i ==> strip_taken(used@, m),
        decreases 16 - i,
    {
        if !taken[i] {
            return i as u8;
        }
        i = i + 1;
    }
    0
}

/// What the hub does with a frame an instrument sent.
#[derive(Debug, Clone, Copy, PartialEq, Eq, Structural)]
pub enum FrameAction {
    /// Audio: decode the samples into the instrument's ring.
    Audio,
    /// Transport request: acknowledged, not forwarded.
    TransportRequest,
    /// Note event: acknowledged, not routed.
    NoteEvent,
    /// The instrument is leaving: mark it disconnected.
    Disconnect,
    /// Unknown message type: skipped.
    Skip,
}

/// The hub's reaction to a frame of type `msg_type`.
pub open spec fn frame_action_spec(msg_type: u8) -> FrameAction {
    if msg_type == MSG_AUDIO {
        FrameAction::Audio
    } else if msg_type == MSG_TRANSPORT_REQUEST {
        FrameAction::TransportRequest
    } else if msg_type == MSG_NOTE_EVENT {
        FrameAction::NoteEvent
    } else if msg_type == MSG_SHUTDOWN {
        FrameAction::Disconnect
    } else {
        FrameAction::Skip
    }
}

/// The hub's reaction to a frame of type `msg_type`.
pub fn frame_action(msg_type: u8) -> (a: FrameAction)
    ensures
        a == frame_action_spec(msg_type),
{
    if msg_type == MSG_AUDIO {
        FrameAction::Audio
    } else if msg_type == MSG_TRANSPORT_REQUEST {
        FrameAction::TransportRequest
    } else if msg_type == MSG_NOTE_EVENT {
        FrameAction::NoteEvent
    } else if msg_type == MSG_SHUTDOWN {
        FrameAction::Disconnect
    } else {
        FrameAction::Skip
    }
}

/// `channel_count`, with 0 read as 1.
pub open spec fn channels_or_one(channel_count: u8) -> nat {
    if channel_count == 0 {
        1
    } else {
        channel_count as nat
    }
}

/// Samples of an audio frame announcing `frame_count` frames that the hub
/// decodes into a scratch buffer of `scratch_len` samples: the announced
/// interleaved count, cut to the scratch length.
pub fn audio_sample_count(frame_count: u32, channel_count: u8, scratch_len: usize) -> (n: usize)
    requires
        frame_count as nat * channels_or_one(channel_count) <= usize::MAX,
    ensures
        n == if frame_count as nat * channels_or_one(channel_count) < scratch_len {
            frame_count as nat * channels_or_one(channel_count)
        } else {
            scratch_len as nat
        },
{
    let ch: usize = if channel_count == 0 { 1 } else { channel_count as usize };
    let samples = frame_count as usize * ch;
    if samples < scratch_len {
        samples
    } else {
        scratch_len
    }
}

/// Sizes the hub gives a newly registered instrument with the hub's
/// `buffer_size` and the instrument's `channel_count`.
#[derive(Debug, Clone, Copy, PartialEq, Eq, Structural)]
pub struct InstrumentSizing {
    /// Capacity of the instrument's audio ring, in samples.
    pub ring_capacity: usize,
    /// Size of the decode scratch buffer, in samples.
    pub scratch_len: usize,
    /// The hub buffer size as announced on the wire (saturating at
    /// `u32::MAX`).
    pub announced_buffer_size: u32,
}

/// Ring capacity for a hub buffer size and instrument channel count: a
/// block of at least [`MAX_INSTRUMENT_FRAMES`] frames, per channel, for
/// [`INSTRUMENT_RB_BLOCKS`] blocks.
pub open spec fn ring_capacity_spec(buffer_size: usize, channel_count: u8) -> nat {
    let block = if buffer_size > MAX_INSTRUMENT_FRAMES {
        buffer_size as nat
    } else {
        MAX_INSTRUMENT_FRAMES as nat
    };
    block * channels_or_one(channel_count) * INSTRUMENT_RB_BLOCKS as nat
}

/// The sizes for a newly registered instrument.
pub fn instrument_sizing(buffer_size: usize, channel_count: u8) -> (s: InstrumentSizing)
    requires
        ring_capacity_spec(buffer_size, channel_count) <= usize::MAX,
    ensures
        s.ring_capacity == ring_capacity_spec(buffer_size, channel_count),
        s.scratch_len == MAX_INSTRUMENT_FRAMES * channels_or_one(channel_count),
        s.announced_buffer_size == if buffer_size > u32::MAX {
            u32::MAX as nat
        } else {
            buffer_size as nat
        },
{
    let ch: usize = if channel_count == 0 { 1 } else { channel_count as usize };
    let block: usize = if buffer_size > MAX_INSTRUMENT_FRAMES {
        buffer_size
    } else {
        MAX_INSTRUMENT_FRAMES
    };
    assert(block * ch <= block * ch * 8) by (nonlinear_arith)
        requires
            block >= 1,
            ch >= 1,
    ;
    let ring_capacity = block * ch * INSTRUMENT_RB_BLOCKS;
    let scratch_len = MAX_INSTRUMENT_FRAMES * ch;
    let announced: u32 = if buffer_size > 0xffff_ffff {
        0xffff_ffff
    } else {
        buffer_size as u32
    };
    InstrumentSizing { ring_capacity, scratch_len, announced_buffer_size: announced }
}

/// A new connection is accepted only while fewer than
/// [`MAX_INSTRUMENTS`] instruments are connected.
pub fn accepts_connection(connected: usize) -> (ok: bool)
    ensures
        ok == (connected < MAX_INSTRUMENTS),
{
    connected < MAX_INSTRUMENTS
}

/// While a strip is free, the allocated strip differs from every strip in
/// use: no two live instruments share a strip.
pub proof fn lemma_allocated_strip_is_fresh(used: Seq<u8>, idx: u8)
    requires
        used.len() < MAX_INSTRUMENTS,
        idx < MAX_INSTRUMENTS,
        (exists|i: int| 0 <= i < MAX_INSTRUMENTS && !strip_taken(used, i)) ==> !strip_taken(
            used,
            idx as int,
        ),
    ensures
        forall|k: int| 0 <= k < used.len() ==> used[k] != idx,
{
    lemma_free_strip_exists(used);
}

/// Fewer live connections than strips leave some strip free.
pub proof fn lemma_free_strip_exists(used: Seq<u8>)
    requires
        used.len() < MAX_INSTRUMENTS,
    ensures
        exists|i: int| 0 <= i < MAX_INSTRUMENTS && !strip_taken(used, i),
{
    let taken = Set::new(|i: int| 0 <= i < MAX_INSTRUMENTS && strip_taken(used, i));
    let img = used.to_set().map(|b: u8| b as int);
    assert(taken.subset_of(img)) by {
        assert forall|i: int| taken.contains(i) implies img.contains(i) by {
            let k = choose|k: int| 0 <= k < used.len() && used[k] == i;
            assert(used.to_set().contains(used[k]));
            assert(img.contains(used[k] as int));
        }
    }
    used.lemma_cardinality_of_set();
    vstd::set_lib::lemma_map_size(used.to_set(), img, |b: u8| b as int);
    let full = Set::new(|i: int| 0 <= i < MAX_INSTRUMENTS);
    vstd::set_lib::lemma_int_range(0, MAX_INSTRUMENTS as int);
    assert(full =~= vstd::set_lib::set_int_range(0, MAX_INSTRUMENTS as int));
    if forall|i: int| 0 <= i < MAX_INSTRUMENTS ==> strip_taken(used, i) {
        assert(taken =~= full);
        vstd::set_lib::lemma_len_subset(taken, img);
    }
}

} // verus!
