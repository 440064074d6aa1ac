//! Playback state, the commands the interface sends to the player, and the decisions
//! the player takes on each of them.

use vstd::prelude::*;
use crate::text::{owned, push_str, push_char, push_decimal, spec_decimal};

verus! {

/// Whether something is playing.
#[derive(Debug, Clone, Copy, PartialEq, Eq, Structural)]
pub enum PlaybackStatus {
    Stopped,
    Playing,
    Paused,
}

/// One audio or subtitle track of the playing file.
#[derive(Debug, Clone)]
pub struct TrackInfo {
    pub index: u32,
    pub label: String,
    pub language: Option<String>,
}

/// What the player shows of the file being played.
#[derive(Debug, Clone)]
pub struct PlaybackState {
    pub path: Option<String>,
    pub title: String,
    pub status: PlaybackStatus,
    pub position_ms: u64,
    pub duration_ms: Option<u64>,
    pub audio_tracks: Vec<TrackInfo>,
    pub subtitle_tracks: Vec<TrackInfo>,
    pub selected_audio: u32,
    pub selected_subtitle: Option<u32>,
}

/// The state of a player with nothing loaded.
pub open spec fn is_idle(s: PlaybackState) -> bool {
    &&& s.path is None
    &&& s.title@.len() == 0
    &&& s.status == PlaybackStatus::Stopped
    &&& s.position_ms == 0
    &&& s.duration_ms is None
    &&& s.audio_tracks@.len() == 0
    &&& s.subtitle_tracks@.len() == 0
    &&& s.selected_audio == 0
    &&& s.selected_subtitle is None
}

impl Default for PlaybackState {
    fn default() -> (r: Self)
        ensures
            is_idle(r),
    {
        PlaybackState {
            path: None,
            title: String::new(),
            status: PlaybackStatus::Stopped,
            position_ms: 0,
            duration_ms: None,
            audio_tracks: Vec::new(),
            subtitle_tracks: Vec::new(),
            selected_audio: 0,
            selected_subtitle: None,
        }
    }
}

/// `t` clamped to `[0, hi]`.
pub open spec fn clamp_int(t: int, hi: int) -> int {
    if t < 0 {
        0
    } else if t > hi {
        hi
    } else {
        t
    }
}

/// Where a relative seek lands: the position, read as an `i64`, moved by `delta_ms` and
/// clamped to `[0, duration]`, the duration being the position itself when unknown.
pub open spec fn seek_delta_target(position_ms: u64, duration_ms: Option<u64>, delta_ms: i64) -> u64 {
    let duration = match duration_ms {
        Some(d) => d,
        None => position_ms,
    };
    clamp_int((position_ms as i64) + delta_ms, duration as i64 as int) as u64
}

/// The inputs on which a relative seek is computed without overflow.
pub open spec fn seek_delta_defined(position_ms: u64, duration_ms: Option<u64>, delta_ms: i64) -> bool {
    let duration = match duration_ms {
        Some(d) => d,
        None => position_ms,
    };
    &&& i64::MIN <= (position_ms as i64) + delta_ms <= i64::MAX
    &&& (duration as i64) >= 0
}

/// Where an absolute seek lands: the requested position, but no further than the
/// duration when it is known.
pub open spec fn seek_to_target(position_ms: u64, duration_ms: Option<u64>) -> u64 {
    match duration_ms {
        Some(d) => if position_ms <= d {
            position_ms
        } else {
            d
        },
        None => position_ms,
    }
}

/// Seeking never leaves the file: with a known duration, both kinds of seek land
/// between the start and the duration.
pub proof fn law_seek_stays_within_duration(position_ms: u64, d: u64, delta_ms: i64, target_ms: u64)
    requires
        seek_delta_defined(position_ms, Some(d), delta_ms),
    ensures
        seek_delta_target(position_ms, Some(d), delta_ms) <= d,
        seek_to_target(target_ms, Some(d)) <= d,
        seek_to_target(target_ms, Some(d)) == target_ms || seek_to_target(target_ms, Some(d)) == d,
{
    assert((d as i64) as int == d as int) by (bit_vector)
        requires
            (d as i64) >= 0,
    ;
}

/// `b` is `a` with only its position changed, to `pos`.
pub open spec fn moved_to(a: PlaybackState, b: PlaybackState, pos: u64) -> bool {
    b == PlaybackState { position_ms: pos, ..a }
}

impl PlaybackState {
    /// Moves the position by `delta_ms`, clamped to the start and to the duration.
    pub fn apply_seek_delta(&mut self, delta_ms: i64)
        requires
            seek_delta_defined(old(self).position_ms, old(self).duration_ms, delta_ms),
        ensures
            moved_to(
                *old(self),
                *final(self),
                seek_delta_target(old(self).position_ms, old(self).duration_ms, delta_ms),
            ),
    {
        let duration = match self.duration_ms {
            Some(d) => d,
            None => self.position_ms,
        };
        let t: i64 = self.position_ms as i64 + delta_ms;
        let hi: i64 = duration as i64;
        let target: i64 = if t < 0 {
            0
        } else if t > hi {
            hi
        } else {
            t
        };
        self.position_ms = target as u64;
    }

    /// Moves the position to `position_ms`, no further than the duration when known.
    pub fn apply_seek_to(&mut self, position_ms: u64)
        ensures
            moved_to(*old(self), *final(self), seek_to_target(position_ms, old(self).duration_ms)),
    {
        let max = match self.duration_ms {
            Some(d) => d,
            None => position_ms,
        };
        self.position_ms = if position_ms <= max {
            position_ms
        } else {
            max
        };
    }
}

// ---------------------------------------------------------------- tracks

/// What the player reports of one entry of its track list: each property is `None`
/// where the player has none, an empty value or the value `no`.
#[derive(Debug, Clone)]
pub struct TrackEntry {
    pub kind: Option<String>,
    pub id: Option<i64>,
    pub title: Option<String>,
    pub lang: Option<String>,
}

/// A string property as the track list keeps it: absent when empty or `no`.
pub open spec fn spec_prop_string(value: Option<Seq<char>>) -> Option<Seq<char>> {
    match value {
        Some(v) => if v.len() == 0 || v == seq!['n', 'o'] {
            None
        } else {
            Some(v)
        },
        None => None,
    }
}

/// Reads a string property of the player: no value, an empty one and `no` all mean none.
pub fn prop_string(value: Option<String>) -> (r: Option<String>)
    ensures
        match r {
            Some(s) => spec_prop_string(
                match value {
                    Some(v) => Some(v@),
                    None => None,
                },
            ) == Some(s@),
            None => spec_prop_string(
                match value {
                    Some(v) => Some(v@),
                    None => None,
                },
            ) is None,
        },
{
    match value {
        Some(v) => {
            let is_no = crate::text::str_eq(v.as_str(), "no");
            proof {
                reveal_strlit("no");
        assert("no"@ =~= seq!['n', 'o']);
            }
            if crate::text::char_len(v.as_str()) == 0 || is_no {
                None
            } else {
                Some(v)
            }
        },
        None => None,
    }
}

pub open spec fn opt_view(s: Option<String>) -> Option<Seq<char>> {
    match s {
        Some(v) => Some(v@),
        None => None,
    }
}

/// The label of a track: its title, else the fallback with the language, else the
/// fallback alone. Empty values count as missing.
pub open spec fn spec_track_label(title: Option<Seq<char>>, language: Option<Seq<char>>, fallback: Seq<char>) -> Seq<char> {
    if title is Some && title->0.len() > 0 {
        title->0
    } else if language is Some && language->0.len() > 0 {
        fallback + seq![' ', '('] + language->0 + seq![')']
    } else {
        fallback
    }
}

/// The label shown for a track.
pub fn format_track_label(title: Option<&str>, language: Option<&str>, fallback: &str) -> (r: String)
    ensures
        r@ == spec_track_label(
            match title {
                Some(t) => Some(t@),
                None => None,
            },
            match language {
                Some(l) => Some(l@),
                None => None,
            },
            fallback@,
        ),
{
    if let Some(t) = title {
        if crate::text::char_len(t) > 0 {
            return owned(t);
        }
    }
    if let Some(l) = language {
        if crate::text::char_len(l) > 0 {
            let mut s = owned(fallback);
            push_char(&mut s, ' ');
            push_char(&mut s, '(');
            push_str(&mut s, l);
            push_char(&mut s, ')');
            assert(s@ == fallback@ + seq![' ', '('] + l@ + seq![')']);
            return s;
        }
    }
    owned(fallback)
}

/// Whether an entry has the given kind.
pub open spec fn entry_is(e: TrackEntry, kind: Seq<char>) -> bool {
    e.kind is Some && e.kind->0@ == kind
}

/// How many of the first `n` entries have the given kind.
pub open spec fn count_of(entries: Seq<TrackEntry>, n: int, kind: Seq<char>) -> nat
    decreases n,
{
    if n <= 0 || n > entries.len() {
        0
    } else {
        count_of(entries, n - 1, kind) + if entry_is(entries[n - 1], kind) {
            1nat
        } else {
            0nat
        }
    }
}

fn kind_is(e: &TrackEntry, kind: &str) -> (r: bool)
    ensures
        r == entry_is(*e, kind@),
{
    match &e.kind {
        Some(k) => crate::text::str_eq(k.as_str(), kind),
        None => false,
    }
}

proof fn lemma_count_of_le(entries: Seq<TrackEntry>, n: int, kind: Seq<char>)
    requires
        0 <= n <= entries.len(),
    ensures
        count_of(entries, n, kind) <= n,
    decreases n,
{
    if n > 0 {
        lemma_count_of_le(entries, n - 1, kind);
    }
}

/// Number of tracks of a kind (`audio`, `sub`) in the track list.
pub fn count_tracks(entries: &Vec<TrackEntry>, kind: &str) -> (r: u32)
    requires
        entries@.len() <= u32::MAX,
    ensures
        r == count_of(entries@, entries@.len() as int, kind@),
{
    let mut n: u32 = 0;
    let mut i: usize = 0;
    while i < entries.len()
        invariant
            0 <= i <= entries@.len(),
            entries@.len() <= u32::MAX,
            n == count_of(entries@, i as int, kind@),
        decreases entries@.len() - i,
    {
        proof {
            lemma_count_of_le(entries@, i as int, kind@);
        }
        if kind_is(&entries[i], kind) {
            n = n + 1;
        }
        i = i + 1;
    }
    n
}

/// Number of audio tracks.
pub fn audio_track_count(entries: &Vec<TrackEntry>) -> (r: u32)
    requires
        entries@.len() <= u32::MAX,
    ensures
        r == count_of(entries@, entries@.len() as int, seq!['a', 'u', 'd', 'i', 'o']),
{
    proof {
        reveal_strlit("audio");
        assert("audio"@ =~= seq!['a', 'u', 'd', 'i', 'o']);
    }
    count_tracks(entries, "audio")
}

/// Number of subtitle tracks.
pub fn subtitle_track_count(entries: &Vec<TrackEntry>) -> (r: u32)
    requires
        entries@.len() <= u32::MAX,
    ensures
        r == count_of(entries@, entries@.len() as int, seq!['s', 'u', 'b']),
{
    proof {
        reveal_strlit("sub");
        assert("sub"@ =~= seq!['s', 'u', 'b']);
    }
    count_tracks(entries, "sub")
}

/// The track described by an entry, when it has an id: its number is the id truncated
/// to `u32`, its label built from title and language with the fallback `Track`.
pub open spec fn entry_info_ok(e: TrackEntry, t: TrackInfo) -> bool {
    &&& e.id is Some
    &&& t.index == e.id->0 as u32
    &&& t.label@ == spec_track_label(opt_view(e.title), opt_view(e.lang), seq!['T', 'r', 'a', 'c', 'k'])
    &&& opt_view(t.language) == opt_view(e.lang)
}

fn track_info_at(e: &TrackEntry) -> (r: Option<TrackInfo>)
    ensures
        match r {
            Some(t) => entry_info_ok(*e, t),
            None => e.id is None,
        },
{
    let id = match e.id {
        Some(id) => id,
        None => {
            return None;
        },
    };
    let title: Option<&str> = match &e.title {
        Some(t) => Some(t.as_str()),
        None => None,
    };
    let lang: Option<&str> = match &e.lang {
        Some(l) => Some(l.as_str()),
        None => None,
    };
    let label = format_track_label(title, lang, "Track");
    proof {
        reveal_strlit("Track");
        assert("Track"@ =~= seq!['T', 'r', 'a', 'c', 'k']);
    }
    let language = match &e.lang {
        Some(l) => Some(owned(l.as_str())),
        None => None,
    };
    Some(TrackInfo { index: id as u32, label, language })
}

/// The tracks of one kind among the first `n` entries, in order: `out` holds one track
/// for each such entry that has an id.
pub open spec fn tracks_of(entries: Seq<TrackEntry>, n: int, kind: Seq<char>, out: Seq<TrackInfo>) -> bool
    decreases n,
{
    if n <= 0 || n > entries.len() {
        out.len() == 0
    } else if entry_is(entries[n - 1], kind) && entries[n - 1].id is Some {
        &&& out.len() > 0
        &&& entry_info_ok(entries[n - 1], out.last())
        &&& tracks_of(entries, n - 1, kind, out.drop_last())
    } else {
        tracks_of(entries, n - 1, kind, out)
    }
}

/// Replaces the audio and subtitle lists with the tracks of the track list.
pub fn refresh_playback_tracks(entries: &Vec<TrackEntry>, audio_tracks: &mut Vec<TrackInfo>, subtitle_tracks: &mut Vec<TrackInfo>)
    ensures
        tracks_of(entries@, entries@.len() as int, seq!['a', 'u', 'd', 'i', 'o'], final(audio_tracks)@),
        tracks_of(entries@, entries@.len() as int, seq!['s', 'u', 'b'], final(subtitle_tracks)@),
{
    audio_tracks.clear();
    subtitle_tracks.clear();
    proof {
        reveal_strlit("audio");
        assert("audio"@ =~= seq!['a', 'u', 'd', 'i', 'o']);
        reveal_strlit("sub");
        assert("sub"@ =~= seq!['s', 'u', 'b']);
    }
    let mut i: usize = 0;
    while i < entries.len()
        invariant
            0 <= i <= entries@.len(),
            tracks_of(entries@, i as int, seq!['a', 'u', 'd', 'i', 'o'], audio_tracks@),
            tracks_of(entries@, i as int, seq!['s', 'u', 'b'], subtitle_tracks@),
            "audio"@ == seq!['a', 'u', 'd', 'i', 'o'],
            "sub"@ == seq!['s', 'u', 'b'],
        decreases entries@.len() - i,
    {
        let e = &entries[i];
        let is_audio = kind_is(e, "audio");
        let is_sub = kind_is(e, "sub");
        assert(!(is_audio && is_sub));
        let ghost a0 = audio_tracks@;
        let ghost s0 = subtitle_tracks@;
        match track_info_at(e) {
            Some(info) => {
                if is_audio {
                    audio_tracks.push(info);
                    assert(audio_tracks@.drop_last() == a0);
                } else if is_sub {
                    subtitle_tracks.push(info);
                    assert(subtitle_tracks@.drop_last() == s0);
                }
            },
            None => {},
        }
        i = i + 1;
    }
}

/// The index of the first entry of the given kind whose id is `id`, if any.
pub open spec fn find_track(entries: Seq<TrackEntry>, id: i64, kind: Seq<char>) -> Option<int> {
    if exists|i: int| 0 <= i < entries.len() && entry_is(entries[i], kind) && entries[i].id == Some(id) {
        Some(
            choose|i: int|
                0 <= i < entries.len() && entry_is(entries[i], kind) && entries[i].id == Some(id)
                    && forall|j: int|
                    0 <= j < i ==> !(entry_is(#[trigger] entries[j], kind) && entries[j].id == Some(id)),
        )
    } else {
        None
    }
}

/// Decimal rendering of a signed integer, as `i64::to_string` writes it.
pub open spec fn spec_signed_decimal(n: int) -> Seq<char> {
    if n < 0 {
        seq!['-'] + spec_decimal((-n) as nat)
    } else {
        spec_decimal(n as nat)
    }
}

fn push_signed_decimal(s: &mut String, n: i64)
    ensures
        final(s)@ == old(s)@ + spec_signed_decimal(n as int),
{
    if n < 0 {
        push_char(s, '-');
        let m: u64 = if n == i64::MIN {
            0x8000_0000_0000_0000u64
        } else {
            (-n) as u64
        };
        push_decimal(s, m);
    } else {
        push_decimal(s, n as u64);
    }
}

/// The label of the track of a kind whose id is `id`: built from the title and language
/// of the first such entry, or `fallback #id` when there is none.
pub open spec fn spec_label_for_track_id(entries: Seq<TrackEntry>, id: i64, kind: Seq<char>, fallback: Seq<char>) -> Seq<char> {
    match find_track(entries, id, kind) {
        Some(i) => spec_track_label(opt_view(entries[i].title), opt_view(entries[i].lang), fallback),
        None => fallback + seq![' ', '#'] + spec_signed_decimal(id as int),
    }
}

/// The label of the track with id `id` among the tracks of a kind.
pub fn label_for_track_id(entries: &Vec<TrackEntry>, id: i64, kind: &str, fallback: &str) -> (r: String)
    ensures
        r@ == spec_label_for_track_id(entries@, id, kind@, fallback@),
{
    let mut i: usize = 0;
    while i < entries.len()
        invariant
            0 <= i <= entries@.len(),
            forall|j: int|
                0 <= j < i ==> !(entry_is(#[trigger] entries@[j], kind@) && entries@[j].id == Some(id)),
        decreases entries@.len() - i,
    {
        let e = &entries[i];
        if kind_is(e, kind) && e.id == Some(id) {
            proof {
                let k = choose|k: int|
                    0 <= k < entries@.len() && entry_is(entries@[k], kind@) && entries@[k].id == Some(id)
                        && forall|j: int|
                        0 <= j < k ==> !(entry_is(#[trigger] entries@[j], kind@) && entries@[j].id == Some(id));
                assert(k == i) by {
                    if k < i {
                        assert(!(entry_is(entries@[k], kind@) && entries@[k].id == Some(id)));
                    }
                    if k > i {
                        assert(!(entry_is(entries@[i as int], kind@) && entries@[i as int].id == Some(id)));
                    }
                }
            }
            let title: Option<&str> = match &e.title {
                Some(t) => Some(t.as_str()),
                None => None,
            };
            let lang: Option<&str> = match &e.lang {
                Some(l) => Some(l.as_str()),
                None => None,
            };
            return format_track_label(title, lang, fallback);
        }
        i = i + 1;
    }
    let mut s = owned(fallback);
    push_char(&mut s, ' ');
    push_char(&mut s, '#');
    push_signed_decimal(&mut s, id);
    assert(s@ == fallback@ + seq![' ', '#'] + spec_signed_decimal(id as int));
    s
}

/// The toast text for the current audio track.
pub fn current_audio_label(entries: &Vec<TrackEntry>, aid: Option<i64>) -> (r: String)
    ensures
        r@ == match aid {
            Some(id) => spec_label_for_track_id(entries@, id, seq!['a', 'u', 'd', 'i', 'o'], seq!['A', 'u', 'd', 'i', 'o']),
            None => seq!['A', 'u', 'd', 'i', 'o'],
        },
{
    proof {
        reveal_strlit("audio");
        assert("audio"@ =~= seq!['a', 'u', 'd', 'i', 'o']);
        reveal_strlit("Audio");
        assert("Audio"@ =~= seq!['A', 'u', 'd', 'i', 'o']);
    }
    match aid {
        Some(id) => label_for_track_id(entries, id, "audio", "Audio"),
        None => owned("Audio"),
    }
}

/// The toast text for the current subtitle track.
pub fn current_subtitle_label(entries: &Vec<TrackEntry>, sid: Option<i64>) -> (r: String)
    ensures
        r@ == match sid {
            Some(id) => spec_label_for_track_id(
                entries@,
                id,
                seq!['s', 'u', 'b'],
                seq!['S', 'u', 'b', 't', 'i', 't', 'l', 'e'],
            ),
            None => seq!['S', 'u', 'b', 't', 'i', 't', 'l', 'e', 's', ' ', 'o', 'f', 'f'],
        },
{
    proof {
        reveal_strlit("sub");
        assert("sub"@ =~= seq!['s', 'u', 'b']);
        reveal_strlit("Subtitle");
        assert("Subtitle"@ =~= seq!['S', 'u', 'b', 't', 'i', 't', 'l', 'e']);
        reveal_strlit("Subtitles off");
        assert("Subtitles off"@ =~= seq!['S', 'u', 'b', 't', 'i', 't', 'l', 'e', 's', ' ', 'o', 'f', 'f']);
    }
    match sid {
        Some(id) => label_for_track_id(entries, id, "sub", "Subtitle"),
        None => owned("Subtitles off"),
    }
}

// ---------------------------------------------------------------- commands

/// What the interface asks of the player.
pub enum PlayerCommand {
    Open { path: String, title: String, resume_ms: Option<u64>, duration_ms: Option<u64> },
    Play,
    Pause,
    TogglePause,
    Stop,
    SeekTo(u64),
    SeekDelta(i64),
    CycleAudioTrack,
    CycleSubtitleTrack,
    Shutdown,
}

/// What the player tells the interface.
pub enum PlayerEvent {
    State(PlaybackState),
    Stopped,
    TrackToast(String),
}

/// The two kinds of track that can be cycled.
#[derive(Debug, Clone, Copy, PartialEq, Eq, Structural)]
pub enum TrackKind {
    Audio,
    Subtitle,
}

/// One operation on the video player engine.
#[derive(Debug, Clone)]
pub enum PlayerOp {
    /// Start position of the next loaded file, in milliseconds.
    SetStartMs(u64),
    /// Load a file in place of the current one.
    LoadFile(String),
    SetPause(bool),
    StopPlayback,
    SeekAbsoluteMs(u64),
    SeekRelativeMs(i64),
    Cycle(TrackKind),
}

/// What handling a command asks of the player engine and of the interface.
pub struct CommandOutcome {
    /// Operations on the engine, in order.
    pub ops: Vec<PlayerOp>,
    /// Reread the track lists from the engine afterwards.
    pub refresh_tracks: bool,
    /// Show a toast with the label of the now current track of this kind.
    pub toast: Option<TrackKind>,
    /// Draw a new frame.
    pub redraw: bool,
    /// The command stopped playback.
    pub stopped: bool,
}

/// `b` is `a` with the given status when a file is loaded, and `a` itself otherwise.
pub open spec fn with_status_if_loaded(a: PlaybackState, b: PlaybackState, status: PlaybackStatus) -> bool {
    if a.path is Some {
        b == PlaybackState { status, ..a }
    } else {
        b == a
    }
}

/// The outcome with only the given operations.
pub open spec fn only_ops(out: CommandOutcome, ops: Seq<PlayerOp>, redraw: bool) -> bool {
    &&& out.ops@ == ops
    &&& !out.refresh_tracks
    &&& out.toast is None
    &&& out.redraw == redraw
    &&& !out.stopped
}

/// What a command does to the playback state `a`, giving `b`, and asks of the engine,
/// given whether the engine is paused and how many audio and subtitle tracks it has.
pub open spec fn command_applied(
    a: PlaybackState,
    b: PlaybackState,
    cmd: PlayerCommand,
    engine_paused: bool,
    audio_count: u32,
    subtitle_count: u32,
    out: CommandOutcome,
) -> bool {
    match cmd {
        PlayerCommand::Open { path, title, resume_ms, duration_ms } => {
            &&& b.path == Some(path)
            &&& b.title == title
            &&& b.status == PlaybackStatus::Playing
            &&& b.position_ms == match resume_ms {
                Some(r) => r,
                None => 0,
            }
            &&& b.duration_ms == duration_ms
            &&& b.audio_tracks@.len() == 0
            &&& b.subtitle_tracks@.len() == 0
            &&& b.selected_audio == 0
            &&& b.selected_subtitle is None
            &&& only_ops(
                out,
                match resume_ms {
                    Some(r) => seq![
                        PlayerOp::SetStartMs(0),
                        PlayerOp::SetStartMs(r),
                        PlayerOp::LoadFile(path),
                        PlayerOp::SetPause(false),
                    ],
                    None => seq![PlayerOp::SetStartMs(0), PlayerOp::LoadFile(path), PlayerOp::SetPause(false)],
                },
                true,
            )
        },
        PlayerCommand::Play => with_status_if_loaded(a, b, PlaybackStatus::Playing) && only_ops(
            out,
            seq![PlayerOp::SetPause(false)],
            false,
        ),
        PlayerCommand::Pause => with_status_if_loaded(a, b, PlaybackStatus::Paused) && only_ops(
            out,
            seq![PlayerOp::SetPause(true)],
            false,
        ),
        PlayerCommand::TogglePause => with_status_if_loaded(
            a,
            b,
            if engine_paused {
                PlaybackStatus::Playing
            } else {
                PlaybackStatus::Paused
            },
        ) && only_ops(out, seq![PlayerOp::SetPause(!engine_paused)], false),
        PlayerCommand::Stop => {
            &&& is_idle(b)
            &&& out.ops@ == seq![PlayerOp::StopPlayback]
            &&& !out.refresh_tracks
            &&& out.toast is None
            &&& out.redraw
            &&& out.stopped
        },
        PlayerCommand::SeekTo(p) => moved_to(a, b, seek_to_target(p, a.duration_ms)) && only_ops(
            out,
            seq![PlayerOp::SeekAbsoluteMs(p)],
            true,
        ),
        PlayerCommand::SeekDelta(d) => moved_to(a, b, seek_delta_target(a.position_ms, a.duration_ms, d))
            && only_ops(out, seq![PlayerOp::SeekRelativeMs(d)], true),
        PlayerCommand::CycleAudioTrack => {
            &&& b == a
            &&& if audio_count <= 1 {
                only_ops(out, seq![], false)
            } else {
                &&& out.ops@ == seq![PlayerOp::Cycle(TrackKind::Audio)]
                &&& out.refresh_tracks
                &&& out.toast == Some(TrackKind::Audio)
                &&& !out.redraw
                &&& !out.stopped
            }
        },
        PlayerCommand::CycleSubtitleTrack => {
            &&& b == a
            &&& if subtitle_count == 0 {
                only_ops(out, seq![], false)
            } else {
                &&& out.ops@ == seq![PlayerOp::Cycle(TrackKind::Subtitle)]
                &&& out.refresh_tracks
                &&& out.toast == Some(TrackKind::Subtitle)
                &&& !out.redraw
                &&& !out.stopped
            }
        },
        PlayerCommand::Shutdown => b == a && only_ops(out, seq![], false),
    }
}

/// The inputs on which a command is handled without overflow: a relative seek must
/// land within `i64`.
pub open spec fn command_defined(a: PlaybackState, cmd: PlayerCommand) -> bool {
    match cmd {
        PlayerCommand::SeekDelta(d) => seek_delta_defined(a.position_ms, a.duration_ms, d),
        _ => true,
    }
}

fn one_op(op: PlayerOp) -> (r: Vec<PlayerOp>)
    ensures
        r@ == seq![op],
{
    let mut v: Vec<PlayerOp> = Vec::new();
    v.push(op);
    assert(v@ =~= seq![op]);
    v
}

fn outcome(ops: Vec<PlayerOp>, redraw: bool) -> (r: CommandOutcome)
    ensures
        only_ops(r, ops@, redraw),
{
    CommandOutcome { ops, refresh_tracks: false, toast: None, redraw, stopped: false }
}

/// Handles one command: updates the playback state and says what the engine must do.
pub fn apply_command(
    playback: &mut PlaybackState,
    command: PlayerCommand,
    engine_paused: bool,
    audio_count: u32,
    subtitle_count: u32,
) -> (r: CommandOutcome)
    requires
        command_defined(*old(playback), command),
    ensures
        command_applied(*old(playback), *final(playback), command, engine_paused, audio_count, subtitle_count, r),
{
    match &command {
        PlayerCommand::Open { path, title, resume_ms, duration_ms } => {
            let resume_ms = *resume_ms;
            let mut ops: Vec<PlayerOp> = Vec::new();
            ops.push(PlayerOp::SetStartMs(0));
            if let Some(r) = resume_ms {
                ops.push(PlayerOp::SetStartMs(r));
            }
            ops.push(PlayerOp::LoadFile(path.clone()));
            ops.push(PlayerOp::SetPause(false));
            *playback = PlaybackState {
                path: Some(path.clone()),
                title: title.clone(),
                status: PlaybackStatus::Playing,
                position_ms: match resume_ms {
                    Some(r) => r,
                    None => 0,
                },
                duration_ms: *duration_ms,
                audio_tracks: Vec::new(),
                subtitle_tracks: Vec::new(),
                selected_audio: 0,
                selected_subtitle: None,
            };
            proof {
                match resume_ms {
                    Some(r) => {
                        assert(ops@ =~= seq![
                            PlayerOp::SetStartMs(0),
                            PlayerOp::SetStartMs(r),
                            PlayerOp::LoadFile(*path),
                            PlayerOp::SetPause(false),
                        ]);
                    },
                    None => {
                        assert(ops@ =~= seq![PlayerOp::SetStartMs(0), PlayerOp::LoadFile(*path), PlayerOp::SetPause(false)]);
                    },
                }
            }
            outcome(ops, true)
        },
        PlayerCommand::Play => {
            if playback.path.is_some() {
                playback.status = PlaybackStatus::Playing;
            }
            outcome(one_op(PlayerOp::SetPause(false)), false)
        },
        PlayerCommand::Pause => {
            if playback.path.is_some() {
                playback.status = PlaybackStatus::Paused;
            }
            outcome(one_op(PlayerOp::SetPause(true)), false)
        },
        PlayerCommand::TogglePause => {
            if playback.path.is_some() {
                playback.status = if engine_paused {
                    PlaybackStatus::Playing
                } else {
                    PlaybackStatus::Paused
                };
            }
            outcome(one_op(PlayerOp::SetPause(!engine_paused)), false)
        },
        PlayerCommand::Stop => {
            *playback = PlaybackState::default();
            CommandOutcome {
                ops: one_op(PlayerOp::StopPlayback),
                refresh_tracks: false,
                toast: None,
                redraw: true,
                stopped: true,
            }
        },
        PlayerCommand::SeekTo(p) => {
            let p = *p;
            playback.apply_seek_to(p);
            outcome(one_op(PlayerOp::SeekAbsoluteMs(p)), true)
        },
        PlayerCommand::SeekDelta(d) => {
            let d = *d;
            playback.apply_seek_delta(d);
            outcome(one_op(PlayerOp::SeekRelativeMs(d)), true)
        },
        PlayerCommand::CycleAudioTrack => {
            if audio_count <= 1 {
                return outcome(Vec::new(), false);
            }
            CommandOutcome {
                ops: one_op(PlayerOp::Cycle(TrackKind::Audio)),
                refresh_tracks: true,
                toast: Some(TrackKind::Audio),
                redraw: false,
                stopped: false,
            }
        },
        PlayerCommand::CycleSubtitleTrack => {
            if subtitle_count == 0 {
                return outcome(Vec::new(), false);
            }
            CommandOutcome {
                ops: one_op(PlayerOp::Cycle(TrackKind::Subtitle)),
                refresh_tracks: true,
                toast: Some(TrackKind::Subtitle),
                redraw: false,
                stopped: false,
            }
        },
        PlayerCommand::Shutdown => outcome(Vec::new(), false),
    }
}

/// The engine reached the end of the file: playback is reset, and `true` says that the
/// interface must be told, which happens only when a file was loaded.
pub fn end_of_file(playback: &mut PlaybackState) -> (stopped: bool)
    ensures
        stopped == old(playback).path is Some,
        stopped ==> is_idle(*final(playback)),
        !stopped ==> *final(playback) == *old(playback),
{
    if playback.path.is_some() {
        *playback = PlaybackState::default();
        true
    } else {
        false
    }
}

/// Takes over what the engine reports while a file is loaded: pause flag, position and,
/// when the engine knows it, the duration. Nothing changes when no file is loaded.
pub fn sync_state_from_player(playback: &mut PlaybackState, engine_paused: bool, position_ms: u64, duration_ms: Option<u64>)
    ensures
        old(playback).path is None ==> *final(playback) == *old(playback),
        old(playback).path is Some ==> *final(playback) == (PlaybackState {
            status: if engine_paused {
                PlaybackStatus::Paused
            } else {
                PlaybackStatus::Playing
            },
            position_ms,
            duration_ms: match duration_ms {
                Some(d) => Some(d),
                None => old(playback).duration_ms,
            },
            ..*old(playback)
        }),
{
    if playback.path.is_none() {
        return;
    }
    playback.status = if engine_paused {
        PlaybackStatus::Paused
    } else {
        PlaybackStatus::Playing
    };
    playback.position_ms = position_ms;
    if let Some(d) = duration_ms {
        playback.duration_ms = Some(d);
    }
}

/// Rereads the track lists and the current track ids: the audio selection is the current
/// audio id truncated to `u32`, 0 when there is none; the subtitle selection likewise,
/// `None` when subtitles are off.
pub fn refresh_tracks(playback: &mut PlaybackState, entries: &Vec<TrackEntry>, aid: Option<i64>, sid: Option<i64>)
    ensures
        tracks_of(entries@, entries@.len() as int, seq!['a', 'u', 'd', 'i', 'o'], final(playback).audio_tracks@),
        tracks_of(entries@, entries@.len() as int, seq!['s', 'u', 'b'], final(playback).subtitle_tracks@),
        final(playback).selected_audio == match aid {
            Some(id) => id as u32,
            None => 0,
        },
        final(playback).selected_subtitle == match sid {
            Some(id) => Some(id as u32),
            None => None::<u32>,
        },
        final(playback).path == old(playback).path,
        final(playback).title == old(playback).title,
        final(playback).status == old(playback).status,
        final(playback).position_ms == old(playback).position_ms,
        final(playback).duration_ms == old(playback).duration_ms,
{
    refresh_playback_tracks(entries, &mut playback.audio_tracks, &mut playback.subtitle_tracks);
    playback.selected_audio = match aid {
        Some(id) => id as u32,
        None => 0,
    };
    playback.selected_subtitle = match sid {
        Some(id) => Some(id as u32),
        None => None,
    };
}

} // verus!
