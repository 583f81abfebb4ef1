//! Engine bookkeeping: ring-buffer sizing, stream settings, the decisions on
//! engine commands, the disk recorder's commands and
//! control rules, and the decoding of raw MIDI input.
use vstd::prelude::*;

use vstd::string::StringExecFns;

use crate::io::StreamConfig;
use crate::mixer::{TrackId, TrackRoster};
use crate::{DEFAULT_BUFFER_SIZE, DEFAULT_SAMPLE_RATE, Error};

verus! {

// ---------------------------------------------------------------------------
// Ring buffer capacities
// ---------------------------------------------------------------------------

/// `a * b`, or `usize::MAX` when the product does not fit.
pub open spec fn saturating_product(a: int, b: int) -> int {
    if a * b > usize::MAX {
        usize::MAX as int
    } else {
        a * b
    }
}

/// `a * b`, saturating at `usize::MAX`.
fn saturating_mul_usize(a: usize, b: usize) -> (r: usize)
    ensures
        r == saturating_product(a as int, b as int),
{
    match a.checked_mul(b) {
        Some(p) => p,
        None => usize::MAX,
    }
}

/// Capacities for all inter-thread ring buffers.
#[derive(Debug, Clone, Copy)]
pub struct RingBufferCapacities {
    /// Mic input: `buffer_size` * 4.
    pub mic: usize,
    /// Display state: 4 slots.
    pub display: usize,
    /// Analysis input: `buffer_size` * 4.
    pub analysis_input: usize,
    /// Analysis results (pitch, spectrum, formant): 32 slots each.
    pub analysis_results: usize,
    /// Disk recording: `buffer_size` * 32.
    pub disk: usize,
}

impl RingBufferCapacities {
    /// Capacities for a given audio buffer size (a size of 0 counts as 1).
    /// Products that do not fit in `usize` saturate.
    pub fn from_buffer_size(buffer_size: usize) -> (caps: Self)
        ensures
            ({
                let bs: int = if buffer_size == 0 { 1 } else { buffer_size as int };
                &&& caps.mic == saturating_product(bs, 4)
                &&& caps.display == 4
                &&& caps.analysis_input == saturating_product(bs, 4)
                &&& caps.analysis_results == 32
                &&& caps.disk == saturating_product(bs, 32)
            }),
    {
        let bs: usize = if buffer_size == 0 { 1 } else { buffer_size };
        Self {
            mic: saturating_mul_usize(bs, 4),
            display: 4,
            analysis_input: saturating_mul_usize(bs, 4),
            analysis_results: 32,
            disk: saturating_mul_usize(bs, 32),
        }
    }
}

// ---------------------------------------------------------------------------
// Stream settings
// ---------------------------------------------------------------------------

/// The sample rate and buffer size the engine runs with: those requested in
/// `config`, or the library defaults where none is given. A zero sample
/// rate or a zero buffer size is a configuration error.
pub fn engine_stream_settings(config: &StreamConfig) -> (r: Result<(u32, usize), Error>)
    ensures
        ({
            let rate = match config.sample_rate {
                Some(v) => v,
                None => DEFAULT_SAMPLE_RATE,
            };
            let size = match config.buffer_size {
                Some(v) => v,
                None => DEFAULT_BUFFER_SIZE,
            };
            &&& (rate != 0 && size != 0) <==> r is Ok
            &&& r matches Ok(v) ==> v == (rate, size)
            &&& r matches Err(e) ==> e is Config
        }),
{
    let sample_rate = match config.sample_rate {
        Some(v) => v,
        None => DEFAULT_SAMPLE_RATE,
    };
    let buffer_size = match config.buffer_size {
        Some(v) => v,
        None => DEFAULT_BUFFER_SIZE,
    };
    if sample_rate == 0 {
        return Err(Error::Config(String::from_str("sample rate must be > 0")));
    }
    if buffer_size == 0 {
        return Err(Error::Config(String::from_str("buffer size must be > 0")));
    }
    Ok((sample_rate, buffer_size))
}

// ---------------------------------------------------------------------------
// Engine commands
// ---------------------------------------------------------------------------

/// An engine command as the processing thread decides on it: which command
/// and which track and effect slot it names, without the values it carries.
#[derive(Debug, Clone, Copy, PartialEq, Eq, Structural)]
pub enum CommandKind {
    /// Stop the engine.
    Shutdown,
    /// A transport command.
    Transport,
    /// Add a track.
    AddTrack,
    /// Remove a track.
    RemoveTrack(TrackId),
    /// Set a track's volume.
    SetTrackVolume(TrackId),
    /// Set a track's pan.
    SetTrackPan(TrackId),
    /// Mute or unmute a track.
    SetTrackMute(TrackId),
    /// Solo or unsolo a track.
    SetTrackSolo(TrackId),
    /// Arm or disarm a track.
    SetTrackArm(TrackId),
    /// Replace a track's synthesis mode.
    SetTrackSynthesisMode(TrackId),
    /// Append an effect to a track's chain.
    AddEffect(TrackId),
    /// Remove the effect at `effect_index` of a track's chain.
    RemoveEffect { track_id: TrackId, effect_index: usize },
    /// Set the bypass flag of the effect at `effect_index`.
    SetEffectBypass { track_id: TrackId, effect_index: usize },
    /// Set a parameter of the effect at `effect_index`.
    SetEffectParameter { track_id: TrackId, effect_index: usize },
    /// Set a parameter of a track's synth.
    SetSynthParameter(TrackId),
    /// Set the master volume.
    SetMasterVolume,
    /// Start recording.
    StartRecording,
    /// Stop recording.
    StopRecording,
}

/// Whether the processing thread carries a command out.
#[derive(Debug, Clone, Copy, PartialEq, Eq, Structural)]
pub enum CommandAction {
    /// Carry the command out.
    Apply,
    /// Drop the command: its track does not exist, there is no room, or its
    /// effect slot is out of range.
    Ignore,
}

/// `Apply` when `ok`, else `Ignore`.
pub open spec fn apply_if(ok: bool) -> CommandAction {
    if ok {
        CommandAction::Apply
    } else {
        CommandAction::Ignore
    }
}

/// The decision on `cmd` for a mixer whose tracks are `ids`, where the
/// command's track (if it names one that exists) has `effect_count`
/// effects: a command on a missing track is dropped; a track is added only
/// while fewer than [`crate::MAX_TRACKS`] exist; an effect is added only
/// while the chain has fewer than [`crate::MAX_EFFECTS_PER_TRACK`]; an
/// effect slot is removed, bypassed or changed only when it exists.
pub open spec fn command_action_spec(ids: Seq<usize>, cmd: CommandKind, effect_count: usize) -> CommandAction {
    match cmd {
        CommandKind::AddTrack => apply_if(ids.len() < crate::MAX_TRACKS),
        CommandKind::RemoveTrack(t) | CommandKind::SetTrackVolume(t) | CommandKind::SetTrackPan(t)
        | CommandKind::SetTrackMute(t) | CommandKind::SetTrackSolo(t) | CommandKind::SetTrackArm(t)
        | CommandKind::SetTrackSynthesisMode(t) | CommandKind::SetSynthParameter(t) => apply_if(
            ids.contains(t.0),
        ),
        CommandKind::AddEffect(t) => apply_if(
            ids.contains(t.0) && effect_count < crate::MAX_EFFECTS_PER_TRACK,
        ),
        CommandKind::RemoveEffect { track_id, effect_index }
        | CommandKind::SetEffectBypass { track_id, effect_index }
        | CommandKind::SetEffectParameter { track_id, effect_index } => apply_if(
            ids.contains(track_id.0) && effect_index < effect_count,
        ),
        _ => CommandAction::Apply,
    }
}

/// The processing thread's decision on one command; `effect_count` is the
/// number of effects on the command's track, read only for effect
/// commands on a track that exists.
pub fn command_action(roster: &TrackRoster, cmd: CommandKind, effect_count: usize) -> (a:
    CommandAction)
    requires
        roster.wf(),
    ensures
        a == command_action_spec(roster.spec_ids(), cmd, effect_count),
{
    match cmd {
        CommandKind::AddTrack => if roster.has_room() {
            CommandAction::Apply
        } else {
            CommandAction::Ignore
        },
        CommandKind::RemoveTrack(t) | CommandKind::SetTrackVolume(t) | CommandKind::SetTrackPan(t)
        | CommandKind::SetTrackMute(t) | CommandKind::SetTrackSolo(t) | CommandKind::SetTrackArm(t)
        | CommandKind::SetTrackSynthesisMode(t) | CommandKind::SetSynthParameter(t) => {
            if roster.position(t).is_some() {
                CommandAction::Apply
            } else {
                CommandAction::Ignore
            }
        },
        CommandKind::AddEffect(t) => {
            if roster.position(t).is_some() && effect_count < crate::MAX_EFFECTS_PER_TRACK {
                CommandAction::Apply
            } else {
                CommandAction::Ignore
            }
        },
        CommandKind::RemoveEffect { track_id, effect_index }
        | CommandKind::SetEffectBypass { track_id, effect_index }
        | CommandKind::SetEffectParameter { track_id, effect_index } => {
            if roster.position(track_id).is_some() && effect_index < effect_count {
                CommandAction::Apply
            } else {
                CommandAction::Ignore
            }
        },
        _ => CommandAction::Apply,
    }
}

/// A chain that grows only by commands the thread applies never holds more
/// than [`crate::MAX_EFFECTS_PER_TRACK`] effects: an applied `AddEffect`
/// finds room for one more.
pub proof fn lemma_applied_effect_fits(ids: Seq<usize>, track_id: TrackId, effect_count: usize)
    requires
        command_action_spec(ids, CommandKind::AddEffect(track_id), effect_count)
            == CommandAction::Apply,
    ensures
        effect_count + 1 <= crate::MAX_EFFECTS_PER_TRACK,
{
}

// ---------------------------------------------------------------------------
// Disk recorder
// ---------------------------------------------------------------------------

/// `std::path::PathBuf`, carried as an opaque value.
#[verifier::external_type_specification]
#[verifier::external_body]
pub struct ExPathBuf(std::path::PathBuf);

/// Commands for controlling the disk recorder.
#[derive(Debug)]
pub enum DiskCommand {
    /// Start recording to the given path.
    Start(std::path::PathBuf),
    /// Stop recording and finalize the WAV file.
    Stop,
    /// Shut down the disk I/O thread.
    Shutdown,
}

/// What the disk I/O thread learns on each step of its loop.
#[derive(Debug, Clone, Copy, PartialEq, Eq)]
pub enum DiskEvent {
    /// A `Start` command arrived.
    StartCommand,
    /// A `Stop` command arrived.
    StopCommand,
    /// A `Shutdown` command arrived.
    ShutdownCommand,
    /// The command channel was disconnected.
    Disconnected,
    /// No command is pending.
    NoCommand,
    /// Writing samples to the active recording failed.
    WriteFailed,
}

/// What the disk I/O thread does next.
#[derive(Debug, Clone, Copy, PartialEq, Eq)]
pub enum DiskAction {
    /// Finalize the active recording (if any), then open a new file.
    Restart,
    /// Open a new file; no recording is active.
    Open,
    /// Finalize the active recording and keep no recorder.
    Finish,
    /// Nothing to do for this command.
    Ignore,
    /// Finalize the active recording (if any) and leave the thread.
    FinishAndExit,
    /// Leave the thread; no recording is active.
    Exit,
    /// Stop draining commands and move audio to the recorder.
    DrainAudio,
}

/// The thread's reply to a command-channel event, given whether a recording
/// is active: a `Start` always opens a new file (finalizing an active one
/// first), a `Stop` finalizes the active one, a `Shutdown` or a
/// disconnected channel finalizes and exits, an empty channel moves on to
/// the audio, and a failed write finalizes the recording and drops it.
pub open spec fn disk_step_spec(recording: bool, event: DiskEvent) -> DiskAction {
    match event {
        DiskEvent::StartCommand => if recording {
            DiskAction::Restart
        } else {
            DiskAction::Open
        },
        DiskEvent::StopCommand => if recording {
            DiskAction::Finish
        } else {
            DiskAction::Ignore
        },
        DiskEvent::ShutdownCommand | DiskEvent::Disconnected => if recording {
            DiskAction::FinishAndExit
        } else {
            DiskAction::Exit
        },
        DiskEvent::NoCommand => DiskAction::DrainAudio,
        DiskEvent::WriteFailed => if recording {
            DiskAction::Finish
        } else {
            DiskAction::Ignore
        },
    }
}

/// The disk thread's decision for one command-channel event.
pub fn disk_step(recording: bool, event: DiskEvent) -> (action: DiskAction)
    ensures
        action == disk_step_spec(recording, event),
{
    match event {
        DiskEvent::StartCommand => if recording {
            DiskAction::Restart
        } else {
            DiskAction::Open
        },
        DiskEvent::StopCommand => if recording {
            DiskAction::Finish
        } else {
            DiskAction::Ignore
        },
        DiskEvent::ShutdownCommand | DiskEvent::Disconnected => if recording {
            DiskAction::FinishAndExit
        } else {
            DiskAction::Exit
        },
        DiskEvent::NoCommand => DiskAction::DrainAudio,
        DiskEvent::WriteFailed => if recording {
            DiskAction::Finish
        } else {
            DiskAction::Ignore
        },
    }
}

/// Whether a recording is active after `action`, given whether opening a
/// new file succeeded (`opened`; only read for `Restart` and `Open`).
pub open spec fn recording_after_spec(recording: bool, action: DiskAction, opened: bool) -> bool {
    match action {
        DiskAction::Restart | DiskAction::Open => opened,
        DiskAction::Finish | DiskAction::FinishAndExit | DiskAction::Exit => false,
        DiskAction::Ignore | DiskAction::DrainAudio => recording,
    }
}

/// Whether a recording is active after `action` was carried out.
pub fn recording_after(recording: bool, action: DiskAction, opened: bool) -> (r: bool)
    ensures
        r == recording_after_spec(recording, action, opened),
{
    match action {
        DiskAction::Restart | DiskAction::Open => opened,
        DiskAction::Finish | DiskAction::FinishAndExit | DiskAction::Exit => false,
        DiskAction::Ignore | DiskAction::DrainAudio => recording,
    }
}

/// The action leaves the thread's loop.
pub open spec fn action_leaves(a: DiskAction) -> bool {
    a == DiskAction::Exit || a == DiskAction::FinishAndExit
}

/// The action finalizes the active recording.
pub open spec fn action_finalizes(a: DiskAction) -> bool {
    a == DiskAction::Finish || a == DiskAction::FinishAndExit || a == DiskAction::Restart
}

/// The action opens a new recording.
pub open spec fn action_opens(a: DiskAction) -> bool {
    a == DiskAction::Open || a == DiskAction::Restart
}

/// What the disk thread does on each event, whatever the recording state:
/// it leaves its loop exactly on a `Shutdown` command or a disconnected
/// command channel; it opens a new recording exactly on a `Start`; it
/// finalizes a recording exactly when one is active and the event is a
/// `Start`, a `Stop`, a `Shutdown`, a disconnection or a failed write; and
/// it moves on to the audio exactly when no command is pending.
pub proof fn lemma_disk_thread_events(recording: bool, event: DiskEvent)
    ensures
        ({
            let a = disk_step_spec(recording, event);
            &&& action_leaves(a) <==> (event == DiskEvent::ShutdownCommand || event
                == DiskEvent::Disconnected)
            &&& action_opens(a) <==> event == DiskEvent::StartCommand
            &&& action_finalizes(a) <==> (recording && event != DiskEvent::NoCommand)
            &&& (a == DiskAction::DrainAudio) <==> event == DiskEvent::NoCommand
        }),
{
}

/// Whether a recording is active after an action: after opening, exactly
/// when the new file opened; otherwise it stays as it was unless the action
/// finalized it or left the thread.
pub proof fn lemma_recording_after_action(recording: bool, action: DiskAction, opened: bool)
    ensures
        recording_after_spec(recording, action, opened) == if action_opens(action) {
            opened
        } else {
            recording && !action_finalizes(action) && !action_leaves(action)
        },
{
}

/// Every recording that is active when the thread decides to leave gets
/// finalized, and a `Start` never leaves an older recording open: the
/// thread finalizes whenever it drops an active recorder.
pub proof fn lemma_disk_never_drops_open_recording(recording: bool, event: DiskEvent, opened: bool)
    ensures
        ({
            let action = disk_step_spec(recording, event);
            &&& (action == DiskAction::Exit ==> !recording)
            &&& (action == DiskAction::Open ==> !recording)
            &&& (action == DiskAction::Ignore ==> !recording)
            &&& (recording && !recording_after_spec(recording, action, opened)) ==> (action
                == DiskAction::Finish || action == DiskAction::FinishAndExit || action
                == DiskAction::Restart)
        }),
{
}

// ---------------------------------------------------------------------------
// MIDI input
// ---------------------------------------------------------------------------

/// A channel message decoded from raw MIDI bytes.
#[derive(Debug, Clone, Copy, PartialEq, Eq)]
pub enum MidiMessage {
    /// Note On with a non-zero velocity.
    NoteOn { note: u8, velocity: u8, channel: u8 },
    /// Note Off (or Note On with velocity 0).
    NoteOff { note: u8, channel: u8 },
    /// Control Change.
    ControlChange { cc: u8, value: u8, channel: u8 },
    /// Pitch Bend, 14 bits (8192 = center).
    PitchBend { value: u16, channel: u8 },
}

/// The MIDI message that the raw bytes `data` carry: Note Off (`0x8n`),
/// Note On (`0x9n`, velocity 0 read as Note Off), Control Change (`0xBn`)
/// and Pitch Bend (`0xEn`), each with two data bytes masked to 7 bits;
/// anything else, or a message cut short, is `None`.
pub open spec fn midi_message_spec(data: Seq<u8>) -> Option<MidiMessage> {
    if data.len() < 3 {
        None
    } else {
        let status = data[0];
        let kind = status / 16;
        let channel = (status % 16) as u8;
        let d1 = (data[1] % 128) as u8;
        let d2 = (data[2] % 128) as u8;
        if kind == 8 {
            Some(MidiMessage::NoteOff { note: d1, channel })
        } else if kind == 9 {
            if d2 == 0 {
                Some(MidiMessage::NoteOff { note: d1, channel })
            } else {
                Some(MidiMessage::NoteOn { note: d1, velocity: d2, channel })
            }
        } else if kind == 11 {
            Some(MidiMessage::ControlChange { cc: d1, value: d2, channel })
        } else if kind == 14 {
            Some(MidiMessage::PitchBend { value: (d2 * 128 + d1) as u16, channel })
        } else {
            None
        }
    }
}

/// Parse a raw MIDI message (1-3 bytes). Handles Note On, Note Off,
/// Control Change and Pitch Bend; other messages (SysEx, clock, ...) give
/// `None`.
pub fn parse_midi_message(data: &[u8]) -> (m: Option<MidiMessage>)
    ensures
        m == midi_message_spec(data@),
{
    if data.len() < 3 {
        return None;
    }
    let status = data[0];
    let b1 = data[1];
    let b2 = data[2];
    let msg_type = status & 0xF0;
    let channel = status & 0x0F;
    let d1 = b1 & 0x7F;
    let d2 = b2 & 0x7F;
    assert(msg_type == (status / 16) * 16 && channel == status % 16) by (bit_vector)
        requires
            msg_type == status & 0xF0,
            channel == status & 0x0F,
    ;
    assert(d1 == b1 % 128 && d2 == b2 % 128) by (bit_vector)
        requires
            d1 == b1 & 0x7F,
            d2 == b2 & 0x7F,
    ;
    if msg_type == 0x80 {
        Some(MidiMessage::NoteOff { note: d1, channel })
    } else if msg_type == 0x90 {
        if d2 == 0 {
            Some(MidiMessage::NoteOff { note: d1, channel })
        } else {
            Some(MidiMessage::NoteOn { note: d1, velocity: d2, channel })
        }
    } else if msg_type == 0xB0 {
        Some(MidiMessage::ControlChange { cc: d1, value: d2, channel })
    } else if msg_type == 0xE0 {
        let lsb = d1 as u16;
        let msb = d2 as u16;
        let value = (msb << 7u16) | lsb;
        assert(value == msb * 128 + lsb) by (bit_vector)
            requires
                value == (msb << 7u16) | lsb,
                msb < 128,
                lsb < 128,
        ;
        Some(MidiMessage::PitchBend { value, channel })
    } else {
        None
    }
}

} // verus!
