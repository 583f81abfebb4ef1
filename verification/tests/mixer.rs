use kazoo_core::mixer::{
    audible_tracks, track_routing, ClipId, ClipPlacement, ReadSpan, SynthSource, TrackId,
    TrackRouting,
};

#[test]
fn clip_id_display() {
    let id = ClipId(42);
    assert_eq!(id.to_string(), "Clip(42)");
}

#[test]
fn clip_id_equality() {
    assert_eq!(ClipId(1), ClipId(1));
    assert_ne!(ClipId(1), ClipId(2));
}

#[test]
fn clip_id_hash() {
    let mut set = std::collections::HashSet::new();
    set.insert(ClipId(1));
    set.insert(ClipId(2));
    set.insert(ClipId(1));
    assert_eq!(set.len(), 2);
}

#[test]
fn track_id_display() {
    assert_eq!(TrackId(0).to_string(), "Track(0)");
    assert_eq!(TrackId(17).to_string(), "Track(17)");
}

#[test]
fn trim_start_reduces_effective_length() {
    let mut clip = ClipPlacement::new(ClipId(1), 0, 100);
    clip.trim_start(20);
    assert_eq!(clip.source_start(), 20);
    assert_eq!(clip.source_end(), 100);
    assert_eq!(clip.effective_length(), 80);
}

#[test]
fn trim_end_reduces_effective_length() {
    let mut clip = ClipPlacement::new(ClipId(1), 0, 100);
    clip.trim_end(30);
    assert_eq!(clip.source_start(), 0);
    assert_eq!(clip.source_end(), 70);
    assert_eq!(clip.effective_length(), 70);
}

#[test]
fn trim_start_clamped_to_source_end() {
    let mut clip = ClipPlacement::new(ClipId(1), 0, 100);
    clip.trim_start(200);
    assert_eq!(clip.source_start(), 100);
    assert_eq!(clip.effective_length(), 0);
}

#[test]
fn trim_end_clamped_to_source_start() {
    let mut clip = ClipPlacement::new(ClipId(1), 0, 100);
    clip.trim_start(50);
    clip.trim_end(200);
    assert_eq!(clip.source_end(), 50);
    assert_eq!(clip.effective_length(), 0);
}

#[test]
fn split_at_mid() {
    let mut left = ClipPlacement::new(ClipId(1), 1000, 100);
    let right = left.split_at(1040, ClipId(2));
    assert!(right.is_some());
    let right = right.unwrap();

    // Left half: [1000, 1040), source [0, 40).
    assert_eq!(left.position(), 1000);
    assert_eq!(left.source_start(), 0);
    assert_eq!(left.source_end(), 40);
    assert_eq!(left.effective_length(), 40);
    assert_eq!(left.end_position(), 1040);

    // Right half: [1040, 1100), source [40, 100).
    assert_eq!(right.position(), 1040);
    assert_eq!(right.source_start(), 40);
    assert_eq!(right.source_end(), 100);
    assert_eq!(right.effective_length(), 60);
    assert_eq!(right.end_position(), 1100);
    assert_eq!(right.id(), ClipId(2));
}

#[test]
fn split_at_clip_start_returns_none() {
    let mut clip = ClipPlacement::new(ClipId(1), 1000, 100);
    assert!(clip.split_at(1000, ClipId(2)).is_none());
}

#[test]
fn split_at_clip_end_returns_none() {
    let mut clip = ClipPlacement::new(ClipId(1), 1000, 100);
    assert!(clip.split_at(1100, ClipId(2)).is_none());
}

#[test]
fn split_at_before_clip_returns_none() {
    let mut clip = ClipPlacement::new(ClipId(1), 1000, 100);
    assert!(clip.split_at(500, ClipId(2)).is_none());
}

#[test]
fn split_at_after_clip_returns_none() {
    let mut clip = ClipPlacement::new(ClipId(1), 1000, 100);
    assert!(clip.split_at(2000, ClipId(2)).is_none());
}

#[test]
fn split_preserves_mute() {
    let mut clip = ClipPlacement::new(ClipId(1), 0, 100);
    clip.set_muted(true);
    let right = clip.split_at(50, ClipId(2)).unwrap();
    assert!(right.is_muted());
}

#[test]
fn read_span_before_and_after_clip() {
    let clip = ClipPlacement::new(ClipId(1), 1000, 100);
    assert_eq!(clip.read_span(0, 512), None);
    assert_eq!(clip.read_span(1100, 512), None);
}

#[test]
fn read_span_muted_or_empty() {
    let mut clip = ClipPlacement::new(ClipId(1), 0, 100);
    assert_eq!(clip.read_span(0, 0), None);
    clip.set_muted(true);
    assert_eq!(clip.read_span(0, 64), None);
    let empty = ClipPlacement::new(ClipId(2), 0, 0);
    assert_eq!(empty.read_span(0, 64), None);
}

#[test]
fn read_span_block_larger_than_clip() {
    let clip = ClipPlacement::new(ClipId(1), 10, 50);
    // Block [0, 100) overlaps clip [10, 60).
    assert_eq!(
        clip.read_span(0, 100),
        Some(ReadSpan { output_offset: 10, source_offset: 0, count: 50 })
    );
}

#[test]
fn read_span_partial_overlaps() {
    let clip = ClipPlacement::new(ClipId(1), 50, 100);
    // Block [0, 80) against clip [50, 150): overlap [50, 80).
    assert_eq!(
        clip.read_span(0, 80),
        Some(ReadSpan { output_offset: 50, source_offset: 0, count: 30 })
    );
    // Block [120, 200): overlap [120, 150).
    assert_eq!(
        clip.read_span(120, 80),
        Some(ReadSpan { output_offset: 0, source_offset: 70, count: 30 })
    );
}

#[test]
fn read_span_trimmed_clip_at_offset() {
    let mut clip = ClipPlacement::new(ClipId(1), 100, 10);
    clip.trim_start(3);
    clip.trim_end(2);
    // Plays source [3, 8) at timeline [100, 105).
    assert_eq!(
        clip.read_span(98, 10),
        Some(ReadSpan { output_offset: 2, source_offset: 3, count: 5 })
    );
}

#[test]
fn split_halves_cover_the_same_samples() {
    let whole = ClipPlacement::new(ClipId(1), 1000, 100);
    let mut left = whole;
    let right = left.split_at(1040, ClipId(2)).unwrap();
    let w = whole.read_span(1030, 20).unwrap();
    let l = left.read_span(1030, 20).unwrap();
    let r = right.read_span(1030, 20).unwrap();
    assert_eq!(l.count + r.count, w.count);
    assert_eq!(r.output_offset, w.output_offset + l.count);
    assert_eq!(r.source_offset, w.source_offset + l.count);
}

#[test]
fn end_position_saturates() {
    let clip = ClipPlacement::new(ClipId(1), u64::MAX - 5, 100);
    assert_eq!(clip.end_position(), u64::MAX);
}

#[test]
fn solo_and_mute_rules() {
    assert_eq!(audible_tracks(&[(false, false), (true, false)]), vec![true, false]);
    assert_eq!(
        audible_tracks(&[(false, true), (false, false), (true, true)]),
        vec![true, false, false]
    );
    assert!(audible_tracks(&[]).is_empty());
}

#[test]
fn roster_add_and_remove() {
    let mut roster = kazoo_core::mixer::TrackRoster::new();
    assert_eq!(roster.track_count(), 0);

    let id1 = roster.add_track();
    let id2 = roster.add_track();
    assert_eq!(roster.track_count(), 2);

    // IDs are unique.
    assert_ne!(id1, id2);

    // Lookup works.
    assert_eq!(roster.position(id1), Some(0));
    assert_eq!(roster.position(id2), Some(1));

    // Remove first track.
    assert!(roster.remove_track(id1));
    assert_eq!(roster.track_count(), 1);
    assert!(roster.position(id1).is_none());
    assert_eq!(roster.position(id2), Some(0));

    // Removing nonexistent track returns false.
    assert!(!roster.remove_track(id1));

    // Remove second track.
    assert!(roster.remove_track(id2));
    assert_eq!(roster.track_count(), 0);
}

#[test]
fn track_ids_are_stable() {
    let mut roster = kazoo_core::mixer::TrackRoster::new();
    let id1 = roster.add_track();
    let id2 = roster.add_track();
    roster.remove_track(id1);
    let id3 = roster.add_track();

    // id3 should not reuse id1's value.
    assert_ne!(id3, id1);
    assert_ne!(id3, id2);
}

#[test]
fn roster_respects_track_limit() {
    let mut roster = kazoo_core::mixer::TrackRoster::new();
    for _ in 0..kazoo_core::MAX_TRACKS {
        assert!(roster.has_room());
        roster.add_track();
    }
    assert!(!roster.has_room());
}

#[test]
fn track_clips_limit_and_lookup() {
    let mut clips = kazoo_core::mixer::TrackClips::new();
    for i in 0..256u64 {
        assert!(clips.add_clip(ClipPlacement::new(ClipId(i), i * 10, 5)));
    }
    assert!(!clips.add_clip(ClipPlacement::new(ClipId(999), 0, 5)));
    assert_eq!(clips.len(), 256);
    assert_eq!(clips.find_clip(ClipId(7)).unwrap().position(), 70);
    assert!(clips.remove_clip(ClipId(7)));
    assert!(!clips.remove_clip(ClipId(7)));
    assert!(clips.find_clip(ClipId(7)).is_none());
    assert_eq!(clips.len(), 255);
    assert_eq!(clips.get(7).unwrap().id(), ClipId(8));
}

#[test]
fn track_routing_modes() {
    // Playback: clips feed the synth layers.
    assert_eq!(
        track_routing(true, false, true, true),
        TrackRouting { read_clips: true, synth_source: SynthSource::Clips, clip_backing: false }
    );
    // Recording over clips on an armed track: live input, clips as backing.
    assert_eq!(
        track_routing(true, true, true, true),
        TrackRouting { read_clips: true, synth_source: SynthSource::Input, clip_backing: true }
    );
    // Monitoring while stopped: live input.
    assert_eq!(
        track_routing(false, false, true, true),
        TrackRouting { read_clips: false, synth_source: SynthSource::Input, clip_backing: false }
    );
    // Playing with no clips and not armed: silent.
    assert_eq!(
        track_routing(true, false, false, false),
        TrackRouting { read_clips: false, synth_source: SynthSource::Silent, clip_backing: false }
    );
    // Recording, not armed, with clips: clips read but the layers stay silent.
    assert_eq!(
        track_routing(true, true, false, true),
        TrackRouting { read_clips: true, synth_source: SynthSource::Silent, clip_backing: false }
    );
}
