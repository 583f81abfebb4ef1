use kazoo_core::audio_transport::{
    AudioRingConfig, AudioRingPopError, AudioRingPushError, BlockMeta, BlockSequencer,
    ExpectedPlan, SequenceTracker, DEFAULT_AUDIO_RING_BLOCKS,
};
use kazoo_core::protocol::{AudioBlockHeader, BlockFlags, BufferId};
use kazoo_core::DEFAULT_BUFFER_SIZE;

fn header(start_frame: u64, sequence: u64) -> AudioBlockHeader {
    AudioBlockHeader { start_frame, frames: 4, channels: 2, sequence, flags: BlockFlags::default() }
}

#[test]
fn config_clamps_zero_values() {
    let cfg = AudioRingConfig::new(BufferId(9), 0, 0, 0);

    assert_eq!(cfg.channels, 1);
    assert_eq!(cfg.block_frames, DEFAULT_BUFFER_SIZE as u32);
    assert_eq!(cfg.capacity_blocks, DEFAULT_AUDIO_RING_BLOCKS as u32);
}

#[test]
fn config_sizes() {
    let cfg = AudioRingConfig::new(BufferId(1), 2, 4, 3);
    assert_eq!(cfg.samples_per_block(), 8);
    assert_eq!(cfg.sample_capacity(), 24);
}

#[test]
fn push_numbers_unnumbered_blocks() {
    let mut seq = BlockSequencer::new();
    let first = seq.plan_push(header(128, 0), 8, 16, false).unwrap();
    assert_eq!(first.header.sequence, 1);
    assert_eq!(first.samples, 8);
    let kept = seq.plan_push(header(132, 77), 8, 16, false).unwrap();
    assert_eq!(kept.header.sequence, 77);
    let second = seq.plan_push(header(136, 0), 8, 16, false).unwrap();
    assert_eq!(second.header.sequence, 2);
    assert_eq!(seq.next_sequence(), 3);
}

#[test]
fn push_rejects_invalid_sample_count() {
    let mut seq = BlockSequencer::new();
    assert_eq!(
        seq.plan_push(header(0, 0), 7, 16, false),
        Err(AudioRingPushError::InvalidSampleCount { expected: 8, actual: 7 })
    );
    assert_eq!(seq.next_sequence(), 1);
}

#[test]
fn push_rejects_when_full() {
    let mut seq = BlockSequencer::new();
    assert_eq!(seq.plan_push(header(0, 0), 8, 7, false), Err(AudioRingPushError::Full));
    assert_eq!(seq.plan_push(header(0, 0), 8, 8, true), Err(AudioRingPushError::Full));
    assert_eq!(seq.next_sequence(), 1);
}

#[test]
fn silence_is_flagged_and_numbered() {
    let cfg = AudioRingConfig::new(BufferId(1), 2, 4, 2);
    let mut seq = BlockSequencer::new();
    let meta = seq.plan_silence(cfg, 64, 4, 16, false).unwrap();
    assert!(meta.header.flags.silent && meta.header.flags.final_segment);
    assert_eq!((meta.header.sequence, meta.samples, meta.header.channels), (1, 8, 2));
    assert_eq!(seq.plan_silence(cfg, 64, 4, 4, false), Err(AudioRingPushError::Full));
}

#[test]
fn output_too_small_does_not_consume_block() {
    let mut tracker = SequenceTracker::new();
    let meta = BlockMeta { header: header(256, 1), samples: 8 };
    assert_eq!(
        tracker.plan_pop(Some(meta), 4),
        Err(AudioRingPopError::OutputTooSmall { required: 8, actual: 4 })
    );
    assert_eq!(tracker.expected_sequence(), 1);
    assert_eq!(tracker.plan_pop(Some(meta), 8), Ok(meta));
    assert_eq!(tracker.expected_sequence(), 2);
    assert_eq!(tracker.sequence_gaps(), 0);
}

#[test]
fn pop_counts_gaps_and_underruns() {
    let mut tracker = SequenceTracker::new();
    assert_eq!(tracker.plan_pop(None, 8), Err(AudioRingPopError::Empty));
    assert_eq!(tracker.underruns(), 1);
    let meta = BlockMeta { header: header(0, 5), samples: 8 };
    tracker.plan_pop(Some(meta), 8).unwrap();
    assert_eq!(tracker.sequence_gaps(), 1);
    assert_eq!(tracker.expected_sequence(), 6);
}

#[test]
fn empty_pop_counts_underrun_and_silences_output() {
    let cfg = AudioRingConfig::new(BufferId(1), 2, 4, 2);
    let mut tracker = SequenceTracker::new();
    assert_eq!(tracker.plan_expected(None, 0, 8), ExpectedPlan::Silence);
    assert_eq!(tracker.underruns(), 1);
    assert_eq!(tracker.plan_expected(None, 0, 5), ExpectedPlan::Silence);
    // An output too small for the next block is silenced too, counting nothing.
    let big = BlockMeta { header: header(0, 1), samples: 8 };
    assert_eq!(tracker.plan_expected(Some(big), 0, 4), ExpectedPlan::Silence);
    assert_eq!(tracker.underruns(), 2);
}

#[test]
fn expected_frame_decides_delivery() {
    let cfg = AudioRingConfig::new(BufferId(1), 2, 4, 2);
    let mut tracker = SequenceTracker::new();
    let meta = BlockMeta { header: header(128, 1), samples: 8 };
    assert_eq!(tracker.plan_expected(Some(meta), 128, 8), ExpectedPlan::Deliver(meta));
    let late = BlockMeta { header: header(64, 2), samples: 8 };
    assert_eq!(tracker.plan_expected(Some(late), 132, 8), ExpectedPlan::Discard(late));
    assert_eq!(tracker.sequence_gaps(), 1);
    assert_eq!(tracker.underruns(), 1);
}

#[test]
fn producer_and_consumer_stay_in_step() {
    let mut seq = BlockSequencer::new();
    let mut tracker = SequenceTracker::new();
    for i in 0..5u64 {
        let meta = seq.plan_push(header(i * 4, 0), 8, 64, false).unwrap();
        tracker.plan_pop(Some(meta), 8).unwrap();
    }
    assert_eq!(tracker.sequence_gaps(), 0);
    assert_eq!(tracker.expected_sequence(), seq.next_sequence());
}
