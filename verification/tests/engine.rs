use std::path::PathBuf;

use kazoo_core::io::StreamConfig;
use kazoo_core::mixer::{TrackId, TrackRoster};
use kazoo_core::Error;

use kazoo_core::engine::{
    command_action, CommandAction, CommandKind, disk_step, engine_stream_settings, parse_midi_message, recording_after, DiskAction, DiskCommand, DiskEvent,
    MidiMessage, RingBufferCapacities,
};

#[test]
fn ring_buffer_capacities_default_buffer_size() {
    let caps = RingBufferCapacities::from_buffer_size(128);
    assert_eq!(caps.mic, 128 * 4);
    assert_eq!(caps.display, 4);
    assert_eq!(caps.analysis_input, 128 * 4);
    assert_eq!(caps.analysis_results, 32);
    assert_eq!(caps.disk, 128 * 32);
}

#[test]
fn ring_buffer_capacities_large_buffer_size() {
    let caps = RingBufferCapacities::from_buffer_size(1024);
    assert_eq!(caps.mic, 1024 * 4);
    assert_eq!(caps.analysis_input, 1024 * 4);
    assert_eq!(caps.disk, 1024 * 32);
}

#[test]
fn ring_buffer_capacities_zero_buffer_size_uses_one() {
    let caps = RingBufferCapacities::from_buffer_size(0);
    assert_eq!(caps.mic, 4);
    assert_eq!(caps.analysis_input, 4);
    assert_eq!(caps.disk, 32);
}

#[test]
fn ring_buffer_capacities_saturate() {
    let caps = RingBufferCapacities::from_buffer_size(usize::MAX / 8);
    assert_eq!(caps.mic, (usize::MAX / 8) * 4);
    assert_eq!(caps.disk, usize::MAX);
}

#[test]
fn disk_command_start_debug() {
    let cmd = DiskCommand::Start(PathBuf::from("/tmp/test.wav"));
    let dbg = format!("{cmd:?}");
    assert!(dbg.contains("Start"));
    assert!(dbg.contains("test.wav"));
}

#[test]
fn disk_command_stop_debug() {
    let cmd = DiskCommand::Stop;
    let dbg = format!("{cmd:?}");
    assert!(dbg.contains("Stop"));
}

#[test]
fn disk_command_shutdown_debug() {
    let cmd = DiskCommand::Shutdown;
    let dbg = format!("{cmd:?}");
    assert!(dbg.contains("Shutdown"));
}

#[test]
fn disk_thread_rules() {
    assert_eq!(disk_step(false, DiskEvent::StartCommand), DiskAction::Open);
    assert_eq!(disk_step(true, DiskEvent::StartCommand), DiskAction::Restart);
    assert_eq!(disk_step(true, DiskEvent::StopCommand), DiskAction::Finish);
    assert_eq!(disk_step(false, DiskEvent::StopCommand), DiskAction::Ignore);
    assert_eq!(disk_step(true, DiskEvent::Disconnected), DiskAction::FinishAndExit);
    assert_eq!(disk_step(false, DiskEvent::ShutdownCommand), DiskAction::Exit);
    assert_eq!(disk_step(true, DiskEvent::NoCommand), DiskAction::DrainAudio);
    assert!(!recording_after(false, DiskAction::Open, false));
    assert!(recording_after(true, DiskAction::Restart, true));
    assert!(!recording_after(true, DiskAction::Finish, true));
    assert!(recording_after(true, DiskAction::DrainAudio, false));
}

#[test]
fn parse_note_on() {
    let msg = [0x90, 60, 100]; // Note On, C4, velocity 100
    let cmd = parse_midi_message(&msg).unwrap();
    assert!(matches!(cmd, MidiMessage::NoteOn { note: 60, velocity: 100, channel: 0 }));
}

#[test]
fn parse_note_on_velocity_zero_is_note_off() {
    let msg = [0x90, 60, 0]; // Note On with velocity 0 = Note Off
    let cmd = parse_midi_message(&msg).unwrap();
    assert!(matches!(cmd, MidiMessage::NoteOff { note: 60, channel: 0 }));
}

#[test]
fn parse_note_off() {
    let msg = [0x80, 60, 64]; // Note Off, C4
    let cmd = parse_midi_message(&msg).unwrap();
    assert!(matches!(cmd, MidiMessage::NoteOff { note: 60, channel: 0 }));
}

#[test]
fn parse_note_on_channel_5() {
    let msg = [0x95, 72, 127]; // Note On, channel 5, C5, velocity 127
    let cmd = parse_midi_message(&msg).unwrap();
    assert!(matches!(cmd, MidiMessage::NoteOn { note: 72, velocity: 127, channel: 5 }));
}

#[test]
fn parse_control_change() {
    let msg = [0xB0, 1, 64]; // CC1 (mod wheel), value 64
    let cmd = parse_midi_message(&msg).unwrap();
    assert!(matches!(cmd, MidiMessage::ControlChange { cc: 1, value: 64, channel: 0 }));
}

#[test]
fn parse_pitch_bend_center() {
    let msg = [0xE0, 0x00, 0x40]; // Pitch bend center (8192)
    let cmd = parse_midi_message(&msg).unwrap();
    assert!(matches!(cmd, MidiMessage::PitchBend { value: 8192, channel: 0 }));
}

#[test]
fn parse_pitch_bend_max() {
    let msg = [0xE0, 0x7F, 0x7F]; // Pitch bend max (16383)
    let cmd = parse_midi_message(&msg).unwrap();
    assert!(matches!(cmd, MidiMessage::PitchBend { value: 16383, channel: 0 }));
}

#[test]
fn parse_pitch_bend_min() {
    let msg = [0xE0, 0x00, 0x00]; // Pitch bend min (0)
    let cmd = parse_midi_message(&msg).unwrap();
    assert!(matches!(cmd, MidiMessage::PitchBend { value: 0, channel: 0 }));
}

#[test]
fn parse_empty_returns_none() {
    assert!(parse_midi_message(&[]).is_none());
}

#[test]
fn parse_short_message_returns_none() {
    assert!(parse_midi_message(&[0x90]).is_none());
    assert!(parse_midi_message(&[0x90, 60]).is_none());
}

#[test]
fn parse_sysex_returns_none() {
    assert!(parse_midi_message(&[0xF0, 0x7E, 0x7F, 0xF7]).is_none());
}

#[test]
fn parse_clock_returns_none() {
    assert!(parse_midi_message(&[0xF8]).is_none());
}

#[test]
fn high_bits_masked_to_7bit() {
    // Data bytes should be masked to 7 bits (0-127).
    let msg = [0x90, 0xFF, 0xFF];
    let cmd = parse_midi_message(&msg).unwrap();
    assert!(matches!(cmd, MidiMessage::NoteOn { note: 127, velocity: 127, channel: 0 }));
}

#[test]
fn pitch_bend_combines_seven_bit_halves() {
    let cmd = parse_midi_message(&[0xE3, 0x01, 0x02]).unwrap();
    assert_eq!(cmd, MidiMessage::PitchBend { value: 2 * 128 + 1, channel: 3 });
}

#[test]
fn disk_write_failure_finishes_recording() {
    assert_eq!(disk_step(true, DiskEvent::WriteFailed), DiskAction::Finish);
    assert!(!recording_after(true, DiskAction::Finish, false));
    assert_eq!(disk_step(false, DiskEvent::WriteFailed), DiskAction::Ignore);
}

#[test]
fn engine_stream_settings_defaults_and_zero_values() {
    let mut config = StreamConfig::default();
    config.sample_rate = None;
    config.buffer_size = None;
    assert_eq!(engine_stream_settings(&config).unwrap(), (44_100, 128));
    config.sample_rate = Some(48_000);
    config.buffer_size = Some(256);
    assert_eq!(engine_stream_settings(&config).unwrap(), (48_000, 256));
    config.sample_rate = Some(0);
    assert!(matches!(engine_stream_settings(&config), Err(Error::Config(_))));
    config.sample_rate = Some(48_000);
    config.buffer_size = Some(0);
    assert!(matches!(engine_stream_settings(&config), Err(Error::Config(_))));
}

#[test]
fn command_actions_follow_tracks_and_slots() {
    let mut roster = TrackRoster::new();
    let a = roster.add_track();
    let missing = TrackId(99);
    assert_eq!(command_action(&roster, CommandKind::SetTrackVolume(a), 0), CommandAction::Apply);
    assert_eq!(command_action(&roster, CommandKind::SetTrackMute(missing), 0), CommandAction::Ignore);
    assert_eq!(command_action(&roster, CommandKind::RemoveTrack(missing), 0), CommandAction::Ignore);
    assert_eq!(command_action(&roster, CommandKind::SetMasterVolume, 0), CommandAction::Apply);
    // Effects: at most eight per track, slots must exist.
    assert_eq!(command_action(&roster, CommandKind::AddEffect(a), 7), CommandAction::Apply);
    assert_eq!(command_action(&roster, CommandKind::AddEffect(a), 8), CommandAction::Ignore);
    assert_eq!(command_action(&roster, CommandKind::AddEffect(missing), 0), CommandAction::Ignore);
    let remove = CommandKind::RemoveEffect { track_id: a, effect_index: 2 };
    assert_eq!(command_action(&roster, remove, 3), CommandAction::Apply);
    assert_eq!(command_action(&roster, remove, 2), CommandAction::Ignore);
    let param = CommandKind::SetEffectParameter { track_id: a, effect_index: 0 };
    assert_eq!(command_action(&roster, param, 0), CommandAction::Ignore);
    let bypass = CommandKind::SetEffectBypass { track_id: a, effect_index: 0 };
    assert_eq!(command_action(&roster, bypass, 1), CommandAction::Apply);
    // Tracks: at most sixteen.
    for _ in 1..16 {
        roster.add_track();
    }
    assert_eq!(command_action(&roster, CommandKind::AddTrack, 0), CommandAction::Ignore);
    roster.remove_track(a);
    assert_eq!(command_action(&roster, CommandKind::AddTrack, 0), CommandAction::Apply);
    assert_eq!(command_action(&roster, CommandKind::SetTrackArm(a), 0), CommandAction::Ignore);
}
