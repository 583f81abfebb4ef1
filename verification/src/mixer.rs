//! Timeline bookkeeping of the mixer: track and clip identifiers, where a
//! clip sits on the timeline and which part of its source it plays, and
//! the solo/mute rule that decides which tracks are heard.
use vstd::prelude::*;

use crate::text::{decimal_digits, push_decimal, string_push};

verus! {

// ---------------------------------------------------------------------------
// Identifiers
// ---------------------------------------------------------------------------

/// Opaque identifier for a mixer track. Unique within a mixer.
#[derive(Debug, Clone, Copy, PartialEq, Eq, Structural, Hash)]
pub struct TrackId(pub usize);

/// Unique identifier for a clip on the timeline.
#[derive(Debug, Clone, Copy, PartialEq, Eq, Structural, Hash)]
pub struct ClipId(pub u64);

/// `name(n)`: the name, an opening parenthesis, `n` in decimal, and a
/// closing parenthesis.
pub open spec fn tagged_number(name: Seq<char>, n: nat) -> Seq<char> {
    name + seq!['('] + decimal_digits(n) + seq![')']
}

/// Writes `name(n)`.
fn tagged(name: &[char], n: u64) -> (s: String)
    ensures
        s@ == tagged_number(name@, n as nat),
{
    let s0 = crate::text::string_from_chars(name);
    let mut s = s0;
    string_push(&mut s, '(');
    push_decimal(&mut s, n);
    string_push(&mut s, ')');
    s
}

impl TrackId {
    /// The display form, `Track(n)`.
    pub fn to_string(&self) -> (s: String)
        ensures
            s@ == tagged_number(seq!['T', 'r', 'a', 'c', 'k'], self.0 as nat),
    {
        let name = ['T', 'r', 'a', 'c', 'k'];
        proof {
            assert(name@ =~= seq!['T', 'r', 'a', 'c', 'k']);
        }
        tagged(name.as_slice(), self.0 as u64)
    }
}

impl ClipId {
    /// The display form, `Clip(n)`.
    pub fn to_string(&self) -> (s: String)
        ensures
            s@ == tagged_number(seq!['C', 'l', 'i', 'p'], self.0 as nat),
    {
        let name = ['C', 'l', 'i', 'p'];
        proof {
            assert(name@ =~= seq!['C', 'l', 'i', 'p']);
        }
        tagged(name.as_slice(), self.0)
    }
}

// ---------------------------------------------------------------------------
// Solo and mute
// ---------------------------------------------------------------------------

/// A track is heard unless it is muted, or some track is soloed and it is
/// not.
pub open spec fn track_audible_spec(muted: bool, soloed: bool, any_soloed: bool) -> bool {
    !muted && (!any_soloed || soloed)
}

/// Some track in `tracks` (pairs of muted, soloed) is soloed.
pub open spec fn any_soloed_spec(tracks: Seq<(bool, bool)>) -> bool {
    exists|i: int| 0 <= i < tracks.len() && (#[trigger] tracks[i]).1
}

/// Which of the tracks, given as (muted, soloed) pairs, produce output.
pub fn audible_tracks(tracks: &[(bool, bool)]) -> (heard: Vec<bool>)
    ensures
        heard@.len() == tracks@.len(),
        forall|i: int|
            0 <= i < tracks@.len() ==> heard@[i] == track_audible_spec(
                tracks@[i].0,
                tracks@[i].1,
                any_soloed_spec(tracks@),
            ),
{
    let mut any_soloed = false;
    let mut k: usize = 0;
    while k < tracks.len()
        invariant
            k <= tracks@.len(),
            any_soloed <==> exists|i: int| 0 <= i < k && (#[trigger] tracks@[i]).1,
        decreases tracks@.len() - k,
    {
        if tracks[k].1 {
            any_soloed = true;
        }
        k = k + 1;
    }
    let mut heard: Vec<bool> = Vec::new();
    let mut i: usize = 0;
    while i < tracks.len()
        invariant
            i <= tracks@.len(),
            any_soloed == any_soloed_spec(tracks@),
            heard@.len() == i,
            forall|j: int|
                0 <= j < i ==> heard@[j] == track_audible_spec(
                    tracks@[j].0,
                    tracks@[j].1,
                    any_soloed,
                ),
        decreases tracks@.len() - i,
    {
        let (muted, soloed) = tracks[i];
        heard.push(!muted && (!any_soloed || soloed));
        i = i + 1;
    }
    heard
}

/// Solo and mute over all tracks, the last included: a track is heard
/// exactly when it is not muted and either it is soloed or no track at all
/// is soloed. So a solo anywhere silences every track that is not soloed.
pub proof fn lemma_solo_and_mute(tracks: Seq<(bool, bool)>, i: int)
    requires
        0 <= i < tracks.len(),
    ensures
        track_audible_spec(tracks[i].0, tracks[i].1, any_soloed_spec(tracks)) <==> (!tracks[i].0
            && (tracks[i].1 || forall|j: int| 0 <= j < tracks.len() ==> !(#[trigger] tracks[j]).1)),
        forall|j: int|
            0 <= j < tracks.len() && (#[trigger] tracks[j]).1 && !tracks[i].1
                ==> !track_audible_spec(tracks[i].0, tracks[i].1, any_soloed_spec(tracks)),
{
    if !(forall|j: int| 0 <= j < tracks.len() ==> !(#[trigger] tracks[j]).1) {
        let j = choose|j: int| 0 <= j < tracks.len() && (#[trigger] tracks[j]).1;
        assert(any_soloed_spec(tracks));
    }
    assert forall|j: int|
        0 <= j < tracks.len() && (#[trigger] tracks[j]).1 && !tracks[i].1
            implies !track_audible_spec(tracks[i].0, tracks[i].1, any_soloed_spec(tracks)) by {
        assert(any_soloed_spec(tracks));
    }
}

// ---------------------------------------------------------------------------
// Signal routing
// ---------------------------------------------------------------------------

/// What a track's synth layers process in one block.
#[derive(Debug, Clone, Copy, PartialEq, Eq, Structural)]
pub enum SynthSource {
    /// The audio of the track's clips (playback).
    Clips,
    /// The live input (recording, or monitoring while stopped).
    Input,
    /// Nothing: the layers are not run.
    Silent,
}

/// How one track is routed in one block.
#[derive(Debug, Clone, Copy, PartialEq, Eq, Structural)]
pub struct TrackRouting {
    /// The track's clips are read into its clip buffer.
    pub read_clips: bool,
    /// What the synth layers process.
    pub synth_source: SynthSource,
    /// The raw clip audio is added to the synth output, so that existing
    /// clips are heard while recording.
    pub clip_backing: bool,
}

/// The routing of a track: its clips play while the transport plays and
/// the track has clips; playing clips feed the synth layers unless the
/// transport records; an armed track feeds the live input to its layers
/// while recording or while stopped; an armed track that records over
/// playing clips also hears them raw.
pub open spec fn track_routing_spec(playing: bool, recording: bool, armed: bool, has_clips: bool) -> TrackRouting {
    let clips = playing && has_clips;
    TrackRouting {
        read_clips: clips,
        synth_source: if clips && !recording {
            SynthSource::Clips
        } else if armed && (recording || !playing) {
            SynthSource::Input
        } else {
            SynthSource::Silent
        },
        clip_backing: clips && armed && recording,
    }
}

/// The routing of a track in one block, given whether the transport plays
/// and records, whether the track is armed, and whether it has clips.
pub fn track_routing(playing: bool, recording: bool, armed: bool, has_clips: bool) -> (r: TrackRouting)
    ensures
        r == track_routing_spec(playing, recording, armed, has_clips),
{
    let clips = playing && has_clips;
    let synth_source = if clips && !recording {
        SynthSource::Clips
    } else if armed && (recording || !playing) {
        SynthSource::Input
    } else {
        SynthSource::Silent
    };
    TrackRouting { read_clips: clips, synth_source, clip_backing: clips && armed && recording }
}

/// How a track is routed, for every combination of transport and track
/// state: clips are read exactly while the transport plays a track that
/// has clips; those clips feed the synth layers exactly when not
/// recording; the live input feeds them exactly when the track is armed
/// and either recording or stopped, and no clips are playing into the
/// layers; the raw clips back the output exactly when an armed track
/// records over playing clips.
pub proof fn lemma_track_routing(playing: bool, recording: bool, armed: bool, has_clips: bool)
    ensures
        ({
            let r = track_routing_spec(playing, recording, armed, has_clips);
            &&& r.read_clips == (playing && has_clips)
            &&& (r.synth_source == SynthSource::Clips) == (playing && has_clips && !recording)
            &&& (r.synth_source == SynthSource::Input) == (armed && (recording || !playing) && !(
            playing && has_clips && !recording))
            &&& (r.synth_source == SynthSource::Silent) == (!(playing && has_clips && !recording)
                && !(armed && (recording || !playing)))
            &&& r.clip_backing == (playing && has_clips && armed && recording)
        }),
{
}

// ---------------------------------------------------------------------------
// Clip placement
// ---------------------------------------------------------------------------

/// Maximum number of clips per track.
pub const MAX_CLIPS_PER_TRACK: usize = 256;

/// `a + b`, or `u64::MAX` when the sum does not fit.
pub open spec fn saturating_sum(a: int, b: int) -> int {
    if a + b > u64::MAX {
        u64::MAX as int
    } else {
        a + b
    }
}

/// Abstract state of a clip placement.
pub struct PlacementModel {
    pub id: u64,
    pub position: u64,
    pub source_start: nat,
    pub source_end: nat,
    pub source_len: nat,
    pub muted: bool,
}

impl PlacementModel {
    /// Number of source samples the clip plays.
    pub open spec fn effective_length(self) -> nat {
        (self.source_end - self.source_start) as nat
    }

    /// Timeline position just past the clip's last sample (saturating).
    pub open spec fn end_position(self) -> int {
        saturating_sum(self.position as int, self.effective_length() as int)
    }

    /// The played window lies inside the source.
    pub open spec fn wf(self) -> bool {
        self.source_start <= self.source_end <= self.source_len
    }
}

/// Where a clip sits on the timeline and which window of its source
/// (`source_start..source_end`, within `0..source_len`) it plays.
#[derive(Debug, Clone, Copy)]
pub struct ClipPlacement {
    id: ClipId,
    position: u64,
    source_start: usize,
    source_end: usize,
    source_len: usize,
    muted: bool,
}

impl View for ClipPlacement {
    type V = PlacementModel;

    closed spec fn view(&self) -> PlacementModel {
        PlacementModel {
            id: self.id.0,
            position: self.position,
            source_start: self.source_start as nat,
            source_end: self.source_end as nat,
            source_len: self.source_len as nat,
            muted: self.muted,
        }
    }
}

/// The part of a processing block that a clip fills: `count` samples,
/// written from `output_offset` in the block, read from `source_offset` in
/// the clip's source.
#[derive(Debug, Clone, Copy, PartialEq, Eq)]
pub struct ReadSpan {
    pub output_offset: usize,
    pub source_offset: usize,
    pub count: usize,
}

/// The span a clip fills in the block `[start, start + len)` (the block end
/// saturating at `u64::MAX`): `None` when the clip is muted or empty, the
/// block is empty, or they do not overlap; otherwise the overlap
/// `[max(start, position), min(block end, clip end))`.
pub open spec fn read_span_spec(p: PlacementModel, start: u64, len: nat) -> Option<ReadSpan> {
    let clip_end = p.end_position();
    let block_end = saturating_sum(start as int, len as int);
    if p.muted || len == 0 || p.effective_length() == 0 || start >= clip_end || block_end
        <= p.position {
        None
    } else {
        let read_start: int = if start >= p.position {
            start as int
        } else {
            p.position as int
        };
        let read_end: int = if block_end <= clip_end {
            block_end
        } else {
            clip_end
        };
        Some(
            ReadSpan {
                output_offset: (read_start - start) as usize,
                source_offset: (p.source_start + (read_start - p.position)) as usize,
                count: (read_end - read_start) as usize,
            },
        )
    }
}

impl ClipPlacement {
    /// A clip with identifier `id` at timeline `position`, playing all
    /// `source_len` samples of its source, unmuted.
    pub fn new(id: ClipId, position: u64, source_len: usize) -> (c: Self)
        ensures
            c@ == (PlacementModel {
                id: id.0,
                position,
                source_start: 0,
                source_end: source_len as nat,
                source_len: source_len as nat,
                muted: false,
            }),
            c@.wf(),
    {
        Self { id, position, source_start: 0, source_end: source_len, source_len, muted: false }
    }

    /// The clip's identifier.
    pub fn id(&self) -> (id: ClipId)
        ensures
            id.0 == self@.id,
    {
        self.id
    }

    /// Timeline position (in samples) of the clip's first sample.
    pub fn position(&self) -> (p: u64)
        ensures
            p == self@.position,
    {
        self.position
    }

    /// Moves the clip on the timeline.
    pub fn set_position(&mut self, pos: u64)
        ensures
            final(self)@ == (PlacementModel { position: pos, ..old(self)@ }),
    {
        self.position = pos;
    }

    /// First source sample played.
    pub fn source_start(&self) -> (s: usize)
        ensures
            s == self@.source_start,
    {
        self.source_start
    }

    /// One past the last source sample played.
    pub fn source_end(&self) -> (e: usize)
        ensures
            e == self@.source_end,
    {
        self.source_end
    }

    /// Whether the clip is muted.
    pub fn is_muted(&self) -> (m: bool)
        ensures
            m == self@.muted,
    {
        self.muted
    }

    /// Mutes or unmutes the clip.
    pub fn set_muted(&mut self, muted: bool)
        ensures
            final(self)@ == (PlacementModel { muted, ..old(self)@ }),
    {
        self.muted = muted;
    }

    /// Number of source samples the clip plays.
    pub fn effective_length(&self) -> (n: usize)
        requires
            self@.wf(),
        ensures
            n == self@.effective_length(),
    {
        self.source_end - self.source_start
    }

    /// Timeline position just past the clip's last sample, saturating at
    /// `u64::MAX`.
    pub fn end_position(&self) -> (e: u64)
        requires
            self@.wf(),
        ensures
            e == self@.end_position(),
    {
        let len = self.effective_length() as u64;
        match self.position.checked_add(len) {
            Some(e) => e,
            None => u64::MAX,
        }
    }

    /// Drops up to `samples` samples from the start of the played window
    /// (never past its end).
    pub fn trim_start(&mut self, samples: usize)
        requires
            old(self)@.wf(),
        ensures
            final(self)@.wf(),
            final(self)@ == (PlacementModel {
                source_start: if old(self)@.source_start + samples < old(self)@.source_end {
                    (old(self)@.source_start + samples) as nat
                } else {
                    old(self)@.source_end
                },
                ..old(self)@
            }),
    {
        let start = match self.source_start.checked_add(samples) {
            Some(s) => s,
            None => usize::MAX,
        };
        self.source_start = if start < self.source_end { start } else { self.source_end };
    }

    /// Drops up to `samples` samples from the end of the played window
    /// (never before its start).
    pub fn trim_end(&mut self, samples: usize)
        requires
            old(self)@.wf(),
        ensures
            final(self)@.wf(),
            final(self)@ == (PlacementModel {
                source_end: if old(self)@.source_end - samples > old(self)@.source_start {
                    (old(self)@.source_end - samples) as nat
                } else {
                    old(self)@.source_start
                },
                ..old(self)@
            }),
    {
        let end = if self.source_end >= samples { self.source_end - samples } else { 0 };
        self.source_end = if end > self.source_start { end } else { self.source_start };
    }

    /// Splits the clip at timeline position `split_pos`, strictly inside
    /// it: this clip keeps the part before `split_pos`, and the part from
    /// `split_pos` on is returned as a new clip `new_id` with the same
    /// mute state. A position at or outside the clip's bounds gives `None`
    /// and leaves the clip unchanged.
    pub fn split_at(&mut self, split_pos: u64, new_id: ClipId) -> (right: Option<Self>)
        requires
            old(self)@.wf(),
        ensures
            final(self)@.wf(),
            (split_pos <= old(self)@.position || split_pos >= old(self)@.end_position())
                <==> right is None,
            right is None ==> final(self)@ == old(self)@,
            right matches Some(r) ==> {
                let cut = old(self)@.source_start + (split_pos - old(self)@.position);
                &&& r@.wf()
                &&& final(self)@ == (PlacementModel { source_end: cut as nat, ..old(self)@ })
                &&& r@ == (PlacementModel {
                    id: new_id.0,
                    position: split_pos,
                    source_start: cut as nat,
                    ..old(self)@
                })
            },
    {
        let end = self.end_position();
        if split_pos <= self.position || split_pos >= end {
            return None;
        }
        let offset = (split_pos - self.position) as usize;
        let cut = self.source_start + offset;
        let right = Self {
            id: new_id,
            position: split_pos,
            source_start: cut,
            source_end: self.source_end,
            source_len: self.source_len,
            muted: self.muted,
        };
        self.source_end = cut;
        Some(right)
    }

    /// The part of the block `[timeline_start, timeline_start + block_len)`
    /// that this clip fills.
    pub fn read_span(&self, timeline_start: u64, block_len: usize) -> (r: Option<ReadSpan>)
        requires
            self@.wf(),
        ensures
            r == read_span_spec(self@, timeline_start, block_len as nat),
            r matches Some(s) ==> s.count > 0 && s.output_offset + s.count <= block_len
                && self@.source_start <= s.source_offset && s.source_offset + s.count
                <= self@.source_end,
    {
        if self.muted || block_len == 0 || self.source_end == self.source_start {
            return None;
        }
        let clip_end = self.end_position();
        let block_end = match timeline_start.checked_add(block_len as u64) {
            Some(e) => e,
            None => u64::MAX,
        };
        if timeline_start >= clip_end || block_end <= self.position {
            return None;
        }
        let read_start = if timeline_start >= self.position {
            timeline_start
        } else {
            self.position
        };
        let read_end = if block_end <= clip_end {
            block_end
        } else {
            clip_end
        };
        let count = (read_end - read_start) as usize;
        let output_offset = (read_start - timeline_start) as usize;
        let source_offset = self.source_start + (read_start - self.position) as usize;
        Some(ReadSpan { output_offset, source_offset, count })
    }
}

/// Splitting a clip cuts it in two at the split position: the halves meet
/// there, play adjacent windows of the source, and together play exactly
/// what the clip played.
pub proof fn lemma_split_partitions(old_clip: PlacementModel, left: PlacementModel, right: PlacementModel, split_pos: u64)
    requires
        old_clip.wf(),
        old_clip.position < split_pos,
        split_pos < old_clip.end_position(),
        left == (PlacementModel {
            source_end: (old_clip.source_start + (split_pos - old_clip.position)) as nat,
            ..old_clip
        }),
        right.position == split_pos,
        right.source_start == left.source_end,
        right.source_end == old_clip.source_end,
        right.source_len == old_clip.source_len,
    ensures
        left.wf(),
        right.wf(),
        left.end_position() == split_pos,
        left.effective_length() + right.effective_length() == old_clip.effective_length(),
        right.end_position() == old_clip.end_position(),
{
}

/// Number of samples a span covers (0 for none).
pub open spec fn span_count(r: Option<ReadSpan>) -> int {
    match r {
        Some(s) => s.count as int,
        None => 0,
    }
}

/// Splitting is transparent to playback: for any block, the two halves
/// together fill as many samples as the whole clip did, the left half
/// first and the right half right after it, from the same source samples.
pub proof fn lemma_split_preserves_playback(old_clip: PlacementModel, left: PlacementModel, right: PlacementModel, split_pos: u64, start: u64, len: nat)
    requires
        old_clip.wf(),
        old_clip.position < split_pos,
        split_pos < old_clip.end_position(),
        left == (PlacementModel {
            source_end: (old_clip.source_start + (split_pos - old_clip.position)) as nat,
            ..old_clip
        }),
        right.position == split_pos,
        right.source_start == left.source_end,
        right.source_end == old_clip.source_end,
        right.source_len == old_clip.source_len,
        right.muted == old_clip.muted,
        old_clip.source_len <= usize::MAX,
        len <= usize::MAX,
    ensures
        span_count(read_span_spec(old_clip, start, len)) == span_count(
            read_span_spec(left, start, len),
        ) + span_count(read_span_spec(right, start, len)),
        read_span_spec(left, start, len) matches Some(l) ==> read_span_spec(old_clip, start, len)
            matches Some(o) && o.output_offset == l.output_offset && o.source_offset
            == l.source_offset,
        read_span_spec(right, start, len) matches Some(r) ==> read_span_spec(old_clip, start, len)
            matches Some(o) && r.output_offset == o.output_offset + span_count(
            read_span_spec(left, start, len),
        ) && r.source_offset == o.source_offset + span_count(read_span_spec(left, start, len)),
{
}

// ---------------------------------------------------------------------------
// Track roster
// ---------------------------------------------------------------------------

/// Identifiers of a mixer's tracks, in insertion order, with the next
/// identifier to hand out. Identifiers are never reused.
#[derive(Debug, Clone)]
pub struct TrackRoster {
    ids: Vec<usize>,
    next_id: usize,
}

/// The identifiers are strictly increasing and all below `next`.
pub open spec fn roster_wf(ids: Seq<usize>, next: usize) -> bool {
    &&& forall|i: int, j: int| 0 <= i < j < ids.len() ==> ids[i] < ids[j]
    &&& forall|i: int| 0 <= i < ids.len() ==> ids[i] < next
}

impl TrackRoster {
    /// The identifiers of the live tracks, in insertion order.
    pub closed spec fn spec_ids(&self) -> Seq<usize> {
        self.ids@
    }

    /// The identifier the next added track gets.
    pub closed spec fn spec_next(&self) -> usize {
        self.next_id
    }

    /// The roster's invariant.
    pub open spec fn wf(&self) -> bool {
        roster_wf(self.spec_ids(), self.spec_next())
    }

    /// An empty roster; the first track gets identifier 0.
    pub fn new() -> (r: Self)
        ensures
            r.wf(),
            r.spec_ids() == Seq::<usize>::empty(),
            r.spec_next() == 0,
    {
        TrackRoster { ids: Vec::new(), next_id: 0 }
    }

    /// Number of tracks.
    pub fn track_count(&self) -> (n: usize)
        ensures
            n == self.spec_ids().len(),
    {
        self.ids.len()
    }

    /// Whether another track may be added: fewer than [`crate::MAX_TRACKS`]
    /// tracks exist.
    pub fn has_room(&self) -> (ok: bool)
        ensures
            ok == (self.spec_ids().len() < crate::MAX_TRACKS),
    {
        self.ids.len() < crate::MAX_TRACKS
    }

    /// Adds a track and returns its identifier: the next one, which differs
    /// from every identifier handed out before.
    pub fn add_track(&mut self) -> (id: TrackId)
        requires
            old(self).wf(),
            old(self).spec_next() < usize::MAX,
        ensures
            final(self).wf(),
            id.0 == old(self).spec_next(),
            final(self).spec_ids() == old(self).spec_ids().push(id.0),
            final(self).spec_next() == old(self).spec_next() + 1,
    {
        let id = self.next_id;
        self.next_id = self.next_id + 1;
        self.ids.push(id);
        TrackId(id)
    }

    /// Position of the track `id`, if it exists.
    pub fn position(&self, id: TrackId) -> (p: Option<usize>)
        requires
            self.wf(),
        ensures
            match p {
                Some(i) => i < self.spec_ids().len() && self.spec_ids()[i as int] == id.0,
                None => !self.spec_ids().contains(id.0),
            },
    {
        let mut i: usize = 0;
        while i < self.ids.len()
            invariant
                i <= self.ids@.len(),
                forall|j: int| 0 <= j < i ==> self.ids@[j] != id.0,
            decreases self.ids@.len() - i,
        {
            if self.ids[i] == id.0 {
                return Some(i);
            }
            i = i + 1;
        }
        None
    }

    /// Removes the track `id`; `false` when there is none. The other tracks
    /// keep their identifiers and order.
    pub fn remove_track(&mut self, id: TrackId) -> (removed: bool)
        requires
            old(self).wf(),
        ensures
            final(self).wf(),
            removed == old(self).spec_ids().contains(id.0),
            final(self).spec_next() == old(self).spec_next(),
            final(self).spec_ids() == old(self).spec_ids().filter(|x: usize| x != id.0),
    {
        match self.position(id) {
            Some(i) => {
                let ghost before = self.ids@;
                self.ids.remove(i);
                proof {
                    lemma_remove_unique(before, i as int, id.0);
                }
                true
            },
            None => {
                proof {
                    lemma_filter_absent(self.ids@, id.0);
                }
                false
            },
        }
    }
}

/// Filtering out a value that does not occur keeps the sequence.
proof fn lemma_filter_absent(s: Seq<usize>, v: usize)
    requires
        !s.contains(v),
    ensures
        s.filter(|x: usize| x != v) == s,
    decreases s.len(),
{
    if s.len() > 0 {
        lemma_filter_absent(s.drop_last(), v);
        assert(s.drop_last().push(s.last()) =~= s);
        s.drop_last().lemma_filter_push(s.last(), |x: usize| x != v);
    }
}

/// Removing the one position that holds `v` from a strictly increasing
/// sequence is filtering `v` out, and keeps it strictly increasing.
proof fn lemma_remove_unique(s: Seq<usize>, i: int, v: usize)
    requires
        0 <= i < s.len(),
        s[i] == v,
        forall|a: int, b: int| 0 <= a < b < s.len() ==> s[a] < s[b],
    ensures
        s.remove(i) == s.filter(|x: usize| x != v),
    decreases s.len(),
{
    assert(s.drop_last().push(s.last()) =~= s);
    if i == s.len() - 1 {
        assert(s.remove(i) =~= s.drop_last());
        assert(!s.drop_last().contains(v)) by {
            if s.drop_last().contains(v) {
                let k = choose|k: int| 0 <= k < s.drop_last().len() && s.drop_last()[k] == v;
                assert(s[k] < s[i]);
            }
        }
        lemma_filter_absent(s.drop_last(), v);
        s.drop_last().lemma_filter_push(s.last(), |x: usize| x != v);
    } else {
        lemma_remove_unique(s.drop_last(), i, v);
        s.drop_last().lemma_filter_push(s.last(), |x: usize| x != v);
        assert(s.last() != v) by {
            assert(s[i] < s[s.len() - 1]);
        }
        assert(s.remove(i) =~= s.drop_last().remove(i).push(s.last()));
    }
}

/// Identifiers are never reused: a track added after any sequence of adds
/// and removes gets an identifier that no earlier track had, because every
/// identifier handed out is below the roster's next one.
pub proof fn lemma_new_track_id_is_fresh(r: TrackRoster, id: usize)
    requires
        r.wf(),
        r.spec_ids().contains(id),
    ensures
        id != r.spec_next(),
{
}

// ---------------------------------------------------------------------------
// Clips on a track
// ---------------------------------------------------------------------------

/// The clips of one track, in insertion order, at most
/// [`MAX_CLIPS_PER_TRACK`].
#[derive(Debug, Clone)]
pub struct TrackClips {
    clips: Vec<ClipPlacement>,
}

/// Index of the first clip in `clips` whose identifier is `id`, or -1.
pub open spec fn first_clip_index(clips: Seq<ClipPlacement>, id: u64) -> int
    decreases clips.len(),
{
    if clips.len() == 0 {
        -1
    } else {
        let rest = first_clip_index(clips.drop_last(), id);
        if rest >= 0 {
            rest
        } else if clips.last()@.id == id {
            clips.len() - 1
        } else {
            -1
        }
    }
}

impl TrackClips {
    /// The clips, in insertion order.
    pub closed spec fn spec_clips(&self) -> Seq<ClipPlacement> {
        self.clips@
    }

    /// No clips.
    pub fn new() -> (t: Self)
        ensures
            t.spec_clips() == Seq::<ClipPlacement>::empty(),
    {
        TrackClips { clips: Vec::new() }
    }

    /// Number of clips.
    pub fn len(&self) -> (n: usize)
        ensures
            n == self.spec_clips().len(),
    {
        self.clips.len()
    }

    /// The clip at `index`.
    pub fn get(&self, index: usize) -> (c: Option<&ClipPlacement>)
        ensures
            index < self.spec_clips().len() ==> c == Some(&self.spec_clips()[index as int]),
            index >= self.spec_clips().len() ==> c is None,
    {
        if index < self.clips.len() {
            Some(&self.clips[index])
        } else {
            None
        }
    }

    /// Adds a clip at the end; `false` (and nothing added) when the track
    /// already holds [`MAX_CLIPS_PER_TRACK`] clips.
    pub fn add_clip(&mut self, clip: ClipPlacement) -> (added: bool)
        ensures
            added == (old(self).spec_clips().len() < MAX_CLIPS_PER_TRACK),
            added ==> final(self).spec_clips() == old(self).spec_clips().push(clip),
            !added ==> final(self).spec_clips() == old(self).spec_clips(),
    {
        if self.clips.len() >= MAX_CLIPS_PER_TRACK {
            return false;
        }
        self.clips.push(clip);
        true
    }

    /// Position of the first clip with identifier `id`.
    pub fn position(&self, id: ClipId) -> (p: Option<usize>)
        ensures
            match p {
                Some(i) => i < self.spec_clips().len() && i as int == first_clip_index(
                    self.spec_clips(),
                    id.0,
                ),
                None => first_clip_index(self.spec_clips(), id.0) == -1,
            },
    {
        let mut i: usize = 0;
        while i < self.clips.len()
            invariant
                i <= self.clips@.len(),
                first_clip_index(self.clips@.take(i as int), id.0) == -1,
            decreases self.clips@.len() - i,
        {
            assert(self.clips@.take(i + 1).drop_last() =~= self.clips@.take(i as int));
            if self.clips[i].id().0 == id.0 {
                proof {
                    lemma_first_clip_index_prefix(self.clips@, i as int + 1, id.0);
                }
                return Some(i);
            }
            i = i + 1;
        }
        assert(self.clips@.take(i as int) =~= self.clips@);
        None
    }

    /// Removes the first clip with identifier `id`; `false` when there is
    /// none.
    pub fn remove_clip(&mut self, id: ClipId) -> (removed: bool)
        ensures
            removed == (first_clip_index(old(self).spec_clips(), id.0) >= 0),
            removed ==> final(self).spec_clips() == old(self).spec_clips().remove(
                first_clip_index(old(self).spec_clips(), id.0),
            ),
            !removed ==> final(self).spec_clips() == old(self).spec_clips(),
    {
        match self.position(id) {
            Some(i) => {
                self.clips.remove(i);
                true
            },
            None => false,
        }
    }

    /// The first clip with identifier `id`.
    pub fn find_clip(&self, id: ClipId) -> (c: Option<&ClipPlacement>)
        ensures
            first_clip_index(self.spec_clips(), id.0) >= 0 ==> c == Some(
                &self.spec_clips()[first_clip_index(self.spec_clips(), id.0)],
            ),
            first_clip_index(self.spec_clips(), id.0) < 0 ==> c is None,
    {
        match self.position(id) {
            Some(i) => Some(&self.clips[i]),
            None => None,
        }
    }
}

/// A prefix that ends at the first match has the same first match as the
/// whole sequence.
proof fn lemma_first_clip_index_prefix(clips: Seq<ClipPlacement>, k: int, id: u64)
    requires
        0 <= k <= clips.len(),
        first_clip_index(clips.take(k), id) >= 0,
    ensures
        first_clip_index(clips, id) == first_clip_index(clips.take(k), id),
    decreases clips.len() - k,
{
    if k < clips.len() {
        assert(clips.take(k + 1).drop_last() =~= clips.take(k));
        lemma_first_clip_index_prefix(clips, k + 1, id);
    } else {
        assert(clips.take(k) =~= clips);
    }
}

} // verus!
