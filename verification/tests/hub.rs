use kazoo_core::ipc::hub::{
    accepts_connection, allocate_strip_index, audio_sample_count, frame_action,
    instrument_sizing, FrameAction, MAX_INSTRUMENTS,
};
use kazoo_core::ipc::types::{MSG_AUDIO, MSG_NOTE_EVENT, MSG_SHUTDOWN, MSG_TRANSPORT_REQUEST};

#[test]
fn strip_allocation_takes_lowest_free_index() {
    assert_eq!(allocate_strip_index(&[]), 0);
    assert_eq!(allocate_strip_index(&[0, 1, 3]), 2);
    assert_eq!(allocate_strip_index(&[1, 2, 200]), 0);
    let all: Vec<u8> = (0..16).collect();
    assert_eq!(allocate_strip_index(&all), 0);
    let most: Vec<u8> = (0..15).collect();
    assert_eq!(allocate_strip_index(&most), 15);
}

#[test]
fn connection_limit() {
    assert!(accepts_connection(MAX_INSTRUMENTS - 1));
    assert!(!accepts_connection(MAX_INSTRUMENTS));
}

#[test]
fn frame_dispatch() {
    assert_eq!(frame_action(MSG_AUDIO), FrameAction::Audio);
    assert_eq!(frame_action(MSG_TRANSPORT_REQUEST), FrameAction::TransportRequest);
    assert_eq!(frame_action(MSG_NOTE_EVENT), FrameAction::NoteEvent);
    assert_eq!(frame_action(MSG_SHUTDOWN), FrameAction::Disconnect);
    assert_eq!(frame_action(0x7E), FrameAction::Skip);
}

#[test]
fn audio_counts_are_cut_to_scratch() {
    assert_eq!(audio_sample_count(128, 2, 8192), 256);
    assert_eq!(audio_sample_count(128, 0, 8192), 128);
    assert_eq!(audio_sample_count(5000, 2, 8192), 8192);
}

#[test]
fn instrument_sizes() {
    let s = instrument_sizing(128, 2);
    assert_eq!(s.ring_capacity, 4096 * 2 * 8);
    assert_eq!(s.scratch_len, 4096 * 2);
    assert_eq!(s.announced_buffer_size, 128);
    let big = instrument_sizing(8192, 0);
    assert_eq!(big.ring_capacity, 8192 * 8);
    assert_eq!(big.scratch_len, 4096);
}
