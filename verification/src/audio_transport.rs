//! Frame-indexed audio block transport: ring configuration and the
//! bookkeeping rules of the producer and consumer halves.
//!
//! A block ring carries fixed-size, frame-indexed audio blocks. The producer
//! validates each block, refuses it whole when the ring lacks room, and
//! numbers blocks that arrive without a sequence number. The consumer
//! counts empty pops as underruns and sequence discontinuities as gaps, and
//! never consumes a block the caller cannot hold. The sample storage itself
//! lives with the caller; this module decides what happens to it.
use vstd::prelude::*;

use crate::protocol::{AudioBlockHeader, BlockFlags, BufferId};
use crate::DEFAULT_BUFFER_SIZE;

verus! {

/// Default number of blocks retained in an audio block ring.
pub const DEFAULT_AUDIO_RING_BLOCKS: usize = 8;

/// Configuration for a fixed-capacity audio block ring.
#[derive(Debug, Clone, Copy, PartialEq, Eq, Structural)]
pub struct AudioRingConfig {
    /// Identifier of the logical audio buffer.
    pub buffer_id: BufferId,
    /// Interleaved channel count.
    pub channels: u16,
    /// Frames per block.
    pub block_frames: u32,
    /// Number of whole blocks retained in the ring.
    pub capacity_blocks: u32,
}

/// Interleaved samples in one block of `config`.
pub open spec fn spec_samples_per_block(config: AudioRingConfig) -> nat {
    config.channels as nat * config.block_frames as nat
}

/// Ring capacity of `config` in interleaved samples.
pub open spec fn spec_sample_capacity(config: AudioRingConfig) -> nat {
    spec_samples_per_block(config) * config.capacity_blocks as nat
}

impl AudioRingConfig {
    /// Create a new audio ring configuration, replacing zero values with
    /// safe defaults (one channel, the default buffer size, the default
    /// ring length).
    pub fn new(buffer_id: BufferId, channels: u16, block_frames: u32, capacity_blocks: u32) -> (c:
        Self)
        ensures
            c.buffer_id == buffer_id,
            c.channels == (if channels == 0 { 1 } else { channels }),
            c.block_frames == (if block_frames == 0 { DEFAULT_BUFFER_SIZE as u32 } else { block_frames }),
            c.capacity_blocks == (if capacity_blocks == 0 { DEFAULT_AUDIO_RING_BLOCKS as u32 } else { capacity_blocks }),
    {
        Self {
            buffer_id,
            channels: if channels == 0 { 1 } else { channels },
            block_frames: if block_frames == 0 { 128 } else { block_frames },
            capacity_blocks: if capacity_blocks == 0 { 8 } else { capacity_blocks },
        }
    }

    /// Number of interleaved samples in one block.
    pub fn samples_per_block(self) -> (n: usize)
        requires
            spec_samples_per_block(self) <= usize::MAX,
        ensures
            n == spec_samples_per_block(self),
    {
        self.channels as usize * self.block_frames as usize
    }

    /// Ring capacity measured in interleaved samples.
    pub fn sample_capacity(self) -> (n: usize)
        requires
            spec_samples_per_block(self) <= usize::MAX,
            spec_sample_capacity(self) <= usize::MAX,
        ensures
            n == spec_sample_capacity(self),
    {
        proof {
            if self.capacity_blocks == 0 {
                assert(spec_samples_per_block(self) * 0 == 0);
            }
        }
        self.samples_per_block() * self.capacity_blocks as usize
    }
}

/// Owned metadata returned by an audio block consumer.
#[derive(Debug, Clone, Copy, PartialEq, Eq, Structural)]
pub struct PoppedAudioBlock {
    /// Block metadata.
    pub header: AudioBlockHeader,
    /// Number of samples copied into the destination buffer.
    pub samples_copied: usize,
}

/// Push failure from a full or invalid audio block ring.
#[derive(Debug, Clone, Copy, PartialEq, Eq, Structural)]
pub enum AudioRingPushError {
    /// The provided sample slice does not match the header frame/channel count.
    InvalidSampleCount {
        /// Expected interleaved sample count.
        expected: usize,
        /// Actual interleaved sample count.
        actual: usize,
    },
    /// The ring has insufficient free capacity for the complete block.
    Full,
}

/// Pop failure from an empty or undersized audio block ring.
#[derive(Debug, Clone, Copy, PartialEq, Eq, Structural)]
pub enum AudioRingPopError {
    /// No complete block is currently available.
    Empty,
    /// Caller-provided output buffer is too small for this block.
    OutputTooSmall {
        /// Required interleaved sample count.
        required: usize,
        /// Actual destination capacity.
        actual: usize,
    },
}

/// Metadata of one committed block: its header and its sample count.
#[derive(Debug, Clone, Copy, PartialEq, Eq, Structural)]
pub struct BlockMeta {
    /// Block header, with its sequence number assigned.
    pub header: AudioBlockHeader,
    /// Interleaved samples of the block.
    pub samples: usize,
}

/// The successor of a sequence number, wrapping at `u64::MAX`.
pub open spec fn next_seq(s: u64) -> u64 {
    if s == u64::MAX {
        0
    } else {
        (s + 1) as u64
    }
}

/// Interleaved samples a header announces.
pub open spec fn header_samples(h: AudioBlockHeader) -> nat {
    h.frames as nat * h.channels as nat
}

/// Producer-side bookkeeping: the sequence number given to the next block
/// that arrives unnumbered.
#[derive(Debug, Clone, Copy, PartialEq, Eq, Structural)]
pub struct BlockSequencer {
    next_sequence: u64,
}

impl BlockSequencer {
    /// A fresh producer; the first assigned sequence number is 1.
    pub fn new() -> (s: Self)
        ensures
            s.spec_next() == 1,
    {
        BlockSequencer { next_sequence: 1 }
    }

    /// The sequence number the next unnumbered block receives.
    pub closed spec fn spec_next(self) -> u64 {
        self.next_sequence
    }

    /// The sequence number the next unnumbered block receives.
    pub fn next_sequence(&self) -> (n: u64)
        ensures
            n == self.spec_next(),
    {
        self.next_sequence
    }

    /// Decide a push of a block announcing `header` with `actual` samples,
    /// into a ring with `vacant_samples` free sample slots whose metadata
    /// ring is full when `meta_full`.
    ///
    /// Refuses malformed blocks (sample count differing from
    /// `frames * channels`, or zero frames or channels) with
    /// `InvalidSampleCount`, then blocks that do not fit whole with `Full`;
    /// neither refusal changes the state. An accepted block keeps its
    /// sequence number if it has one, else receives the next one.
    pub fn plan_push(
        &mut self,
        header: AudioBlockHeader,
        actual: usize,
        vacant_samples: usize,
        meta_full: bool,
    ) -> (r: Result<BlockMeta, AudioRingPushError>)
        requires
            header_samples(header) <= usize::MAX,
        ensures
            (header_samples(header) != actual || header.frames == 0 || header.channels == 0) ==> (
            r == Err::<BlockMeta, AudioRingPushError>(
                AudioRingPushError::InvalidSampleCount {
                    expected: header_samples(header) as usize,
                    actual,
                },
            ) && *final(self) == *old(self)),
            (header_samples(header) == actual && header.frames != 0 && header.channels != 0 && (
            actual > vacant_samples || meta_full)) ==> (r == Err::<BlockMeta, AudioRingPushError>(
                AudioRingPushError::Full,
            ) && *final(self) == *old(self)),
            (header_samples(header) == actual && header.frames != 0 && header.channels != 0
                && actual <= vacant_samples && !meta_full) ==> ({
                &&& r is Ok
                &&& r->Ok_0.samples == actual
                &&& if header.sequence == 0 {
                    &&& r->Ok_0.header == AudioBlockHeader {
                        sequence: old(self).spec_next(),
                        ..header
                    }
                    &&& final(self).spec_next() == next_seq(old(self).spec_next())
                } else {
                    &&& r->Ok_0.header == header
                    &&& *final(self) == *old(self)
                }
            }),
    {
        let expected = header.frames as usize * header.channels as usize;
        if expected != actual || header.channels == 0 || header.frames == 0 {
            return Err(AudioRingPushError::InvalidSampleCount { expected, actual });
        }
        if expected > vacant_samples || meta_full {
            return Err(AudioRingPushError::Full);
        }
        let mut h = header;
        if h.sequence == 0 {
            h.sequence = self.next_sequence;
            self.next_sequence = self.next_sequence.wrapping_add(1);
        }
        Ok(BlockMeta { header: h, samples: expected })
    }

    /// Decide a push of `frames` frames of intentional silence starting at
    /// `start_frame` in a ring configured by `config`.
    ///
    /// Refuses with `Full` (state unchanged) when the block does not fit
    /// whole; otherwise the block is flagged silent and final, carries the
    /// ring's channel count and always receives the next sequence number.
    pub fn plan_silence(
        &mut self,
        config: AudioRingConfig,
        start_frame: u64,
        frames: u32,
        vacant_samples: usize,
        meta_full: bool,
    ) -> (r: Result<BlockMeta, AudioRingPushError>)
        requires
            frames as nat * config.channels as nat <= usize::MAX,
        ensures
            (frames as nat * config.channels as nat > vacant_samples || meta_full) ==> (r
                == Err::<BlockMeta, AudioRingPushError>(AudioRingPushError::Full) && *final(self)
                == *old(self)),
            !(frames as nat * config.channels as nat > vacant_samples || meta_full) ==> (r
                == Ok::<BlockMeta, AudioRingPushError>(
                BlockMeta {
                    header: AudioBlockHeader {
                        start_frame,
                        frames,
                        channels: config.channels,
                        sequence: old(self).spec_next(),
                        flags: BlockFlags { silent: true, loop_wrapped: false, final_segment: true },
                    },
                    samples: (frames as nat * config.channels as nat) as usize,
                },
            ) && final(self).spec_next() == next_seq(old(self).spec_next())),
    {
        let sample_count = frames as usize * config.channels as usize;
        if sample_count > vacant_samples || meta_full {
            return Err(AudioRingPushError::Full);
        }
        let header = AudioBlockHeader {
            start_frame,
            frames,
            channels: config.channels,
            sequence: self.next_sequence,
            flags: BlockFlags { silent: true, loop_wrapped: false, final_segment: true },
        };
        self.next_sequence = self.next_sequence.wrapping_add(1);
        Ok(BlockMeta { header, samples: sample_count })
    }
}

/// Consumer-side bookkeeping: the sequence number expected next and the
/// underrun and gap counters.
#[derive(Debug, Clone, Copy, PartialEq, Eq, Structural)]
pub struct SequenceTracker {
    expected_sequence: u64,
    underruns: u64,
    sequence_gaps: u64,
}

/// `after` is the tracker state once `before` has accepted a block numbered
/// `seq`: a number other than the expected one counts one gap and
/// resynchronises; either way the next expected number follows `seq`.
pub open spec fn accepted(before: SequenceTracker, seq: u64, after: SequenceTracker) -> bool {
    &&& after.spec_expected() == next_seq(seq)
    &&& after.spec_underruns() == before.spec_underruns()
    &&& after.spec_gaps() == if seq != before.spec_expected() {
        next_seq(before.spec_gaps())
    } else {
        before.spec_gaps()
    }
}

/// `after` is `before` with one more underrun counted.
pub open spec fn underrun_counted(before: SequenceTracker, after: SequenceTracker) -> bool {
    &&& after.spec_expected() == before.spec_expected()
    &&& after.spec_underruns() == next_seq(before.spec_underruns())
    &&& after.spec_gaps() == before.spec_gaps()
}

/// What a consumer does for a caller that expects the block starting at a
/// given frame.
#[derive(Debug, Clone, Copy, PartialEq, Eq, Structural)]
pub enum ExpectedPlan {
    /// The next block starts at the expected frame: consume and deliver it.
    Deliver(BlockMeta),
    /// The next block starts elsewhere: consume it, then fill the whole
    /// output with silence.
    Discard(BlockMeta),
    /// No block can be consumed: fill the whole output with silence.
    Silence,
}

impl SequenceTracker {
    /// A fresh consumer: expects sequence 1, no underruns, no gaps.
    pub fn new() -> (t: Self)
        ensures
            t.spec_expected() == 1,
            t.spec_underruns() == 0,
            t.spec_gaps() == 0,
    {
        SequenceTracker { expected_sequence: 1, underruns: 0, sequence_gaps: 0 }
    }

    /// Sequence number expected next.
    pub closed spec fn spec_expected(self) -> u64 {
        self.expected_sequence
    }

    /// Number of observed empty-pop underruns.
    pub closed spec fn spec_underruns(self) -> u64 {
        self.underruns
    }

    /// Number of observed sequence discontinuities.
    pub closed spec fn spec_gaps(self) -> u64 {
        self.sequence_gaps
    }

    /// Sequence number expected next.
    pub fn expected_sequence(&self) -> (n: u64)
        ensures
            n == self.spec_expected(),
    {
        self.expected_sequence
    }

    /// Number of observed empty-pop underruns.
    pub fn underruns(&self) -> (n: u64)
        ensures
            n == self.spec_underruns(),
    {
        self.underruns
    }

    /// Number of observed sequence discontinuities.
    pub fn sequence_gaps(&self) -> (n: u64)
        ensures
            n == self.spec_gaps(),
    {
        self.sequence_gaps
    }

    /// Decide a pop given the ring's front block `front` (`None` when the
    /// ring holds no complete block) and a destination of `output_len`
    /// samples.
    ///
    /// An empty ring counts one underrun and fails with `Empty`. A block
    /// larger than the destination fails with `OutputTooSmall` and is not
    /// consumed (state unchanged). Otherwise the block is consumed: its
    /// sequence number is checked against the expected one.
    pub fn plan_pop(&mut self, front: Option<BlockMeta>, output_len: usize) -> (r: Result<
        BlockMeta,
        AudioRingPopError,
    >)
        ensures
            front is None ==> (r == Err::<BlockMeta, AudioRingPopError>(AudioRingPopError::Empty)
                && underrun_counted(*old(self), *final(self))),
            (front is Some && output_len < front->Some_0.samples) ==> (r == Err::<
                BlockMeta,
                AudioRingPopError,
            >(
                AudioRingPopError::OutputTooSmall {
                    required: front->Some_0.samples,
                    actual: output_len,
                },
            ) && *final(self) == *old(self)),
            (front is Some && output_len >= front->Some_0.samples) ==> (r == Ok::<
                BlockMeta,
                AudioRingPopError,
            >(front->Some_0) && accepted(*old(self), front->Some_0.header.sequence, *final(self))),
    {
        match front {
            None => {
                self.underruns = self.underruns.wrapping_add(1);
                Err(AudioRingPopError::Empty)
            },
            Some(meta) => {
                if output_len < meta.samples {
                    return Err(
                        AudioRingPopError::OutputTooSmall { required: meta.samples, actual: output_len },
                    );
                }
                if meta.header.sequence != self.expected_sequence {
                    self.sequence_gaps = self.sequence_gaps.wrapping_add(1);
                    self.expected_sequence = meta.header.sequence;
                }
                self.expected_sequence = self.expected_sequence.wrapping_add(1);
                Ok(meta)
            },
        }
    }

    /// Decide a pop for a caller that expects the block starting at
    /// `start_frame`, writing into a destination of `output_len` samples.
    ///
    /// Follows [`plan_pop`](Self::plan_pop); a consumed block that starts
    /// elsewhere is discarded, counting one gap and one underrun (the caller
    /// gets silence where it expected audio). Whenever no block is
    /// delivered the whole destination is filled with silence. The consumer
    /// never waits.
    pub fn plan_expected(&mut self, front: Option<BlockMeta>, start_frame: u64, output_len: usize) -> (r:
        ExpectedPlan)
        ensures
            front is None ==> (r == ExpectedPlan::Silence && underrun_counted(
                *old(self),
                *final(self),
            )),
            (front is Some && output_len < front->Some_0.samples) ==> (r == ExpectedPlan::Silence
                && *final(self) == *old(self)),
            (front is Some && output_len >= front->Some_0.samples
                && front->Some_0.header.start_frame == start_frame) ==> (r == ExpectedPlan::Deliver(
                front->Some_0,
            ) && accepted(*old(self), front->Some_0.header.sequence, *final(self))),
            (front is Some && output_len >= front->Some_0.samples
                && front->Some_0.header.start_frame != start_frame) ==> (r == ExpectedPlan::Discard(
                front->Some_0,
            ) && final(self).spec_expected() == next_seq(front->Some_0.header.sequence)
                && final(self).spec_underruns() == next_seq(old(self).spec_underruns())
                && final(self).spec_gaps() == next_seq(
                if front->Some_0.header.sequence != old(self).spec_expected() {
                    next_seq(old(self).spec_gaps())
                } else {
                    old(self).spec_gaps()
                },
            )),
    {
        match self.plan_pop(front, output_len) {
            Ok(meta) => {
                if meta.header.start_frame == start_frame {
                    ExpectedPlan::Deliver(meta)
                } else {
                    self.sequence_gaps = self.sequence_gaps.wrapping_add(1);
                    self.underruns = self.underruns.wrapping_add(1);
                    ExpectedPlan::Discard(meta)
                }
            },
            Err(_) => ExpectedPlan::Silence,
        }
    }
}

/// Producer and consumer stay in step: when the consumer expects the number
/// the producer gives next, consuming the block so numbered counts no gap
/// and leaves the consumer expecting the producer's following number. Both
/// start at 1, so blocks that the producer numbers and the consumer takes
/// in push order never count as gaps.
pub proof fn lemma_numbered_blocks_stay_in_step(
    producer_before: BlockSequencer,
    producer_after: BlockSequencer,
    consumer_before: SequenceTracker,
    consumer_after: SequenceTracker,
)
    requires
        producer_before.spec_next() == consumer_before.spec_expected(),
        producer_after.spec_next() == next_seq(producer_before.spec_next()),
        accepted(consumer_before, producer_before.spec_next(), consumer_after),
    ensures
        consumer_after.spec_gaps() == consumer_before.spec_gaps(),
        consumer_after.spec_underruns() == consumer_before.spec_underruns(),
        consumer_after.spec_expected() == producer_after.spec_next(),
{
}

} // verus!
