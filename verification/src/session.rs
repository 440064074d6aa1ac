//! The decisions taken around playback, resume positions and library refreshes: each
//! is a step from a state and an event to the next state and the actions to perform.

use vstd::prelude::*;
use crate::browsing::{map_get, keys_unique, ActivateResult, BrowsingState};
use crate::paths::{same_path, paths_equal};
use crate::structs::tree_depth;
use crate::tree_view::paths_view;
use crate::player::{PlaybackState, PlaybackStatus, is_idle};
use crate::tree_view::{resume_position_to_store, spec_resume_position_to_store};

verus! {

// ---------------------------------------------------------------- resume cache

/// `s` without its entries whose key is the same path as `k`, in order.
pub open spec fn without_key(s: Seq<(String, u64)>, k: Seq<char>) -> Seq<(String, u64)>
    decreases s.len(),
{
    if s.len() == 0 {
        s
    } else {
        let rest = without_key(s.drop_last(), k);
        if same_path(s.last().0@, k) {
            rest
        } else {
            rest.push(s.last())
        }
    }
}

proof fn lemma_map_get_push(s: Seq<(String, u64)>, e: (String, u64), k: Seq<char>)
    ensures
        map_get(s.push(e), k) == match map_get(s, k) {
            Some(v) => Some(v),
            None => if same_path(e.0@, k) {
                Some(e.1)
            } else {
                None
            },
        },
    decreases s.len(),
{
    if s.len() > 0 {
        assert(s.push(e).subrange(1, s.len() as int + 1) == s.subrange(1, s.len() as int).push(e));
        lemma_map_get_push(s.subrange(1, s.len() as int), e, k);
        assert(s.push(e)[0] == s[0]);
    } else {
        assert(s.push(e)[0] == e);
        assert(map_get(s.push(e).subrange(1, 1), k) is None);
    }
}

proof fn lemma_map_get_drop_last(s: Seq<(String, u64)>, k: Seq<char>)
    requires
        s.len() > 0,
    ensures
        map_get(s, k) == match map_get(s.drop_last(), k) {
            Some(v) => Some(v),
            None => if same_path(s.last().0@, k) {
                Some(s.last().1)
            } else {
                None
            },
        },
{
    lemma_map_get_push(s.drop_last(), s.last(), k);
    assert(s.drop_last().push(s.last()) == s);
}

/// Removing a key leaves the other keys' values as they were and the key absent.
pub proof fn lemma_without_key(s: Seq<(String, u64)>, k: Seq<char>, q: Seq<char>)
    ensures
        map_get(without_key(s, k), q) == if same_path(q, k) {
            None
        } else {
            map_get(s, q)
        },
    decreases s.len(),
{
    if s.len() > 0 {
        lemma_without_key(s.drop_last(), k, q);
        lemma_map_get_drop_last(s, q);
        if !same_path(s.last().0@, k) {
            lemma_map_get_push(without_key(s.drop_last(), k), s.last(), q);
        }
    }
}

/// Removing a key from entries whose keys are distinct paths leaves distinct paths, none
/// of them the removed one, each an entry of the original.
proof fn lemma_without_key_unique(s: Seq<(String, u64)>, k: Seq<char>)
    requires
        keys_unique(s),
    ensures
        keys_unique(without_key(s, k)),
        forall|j: int| 0 <= j < without_key(s, k).len() ==> !same_path(#[trigger] without_key(s, k)[j].0@, k),
        forall|j: int|
            0 <= j < without_key(s, k).len() ==> exists|i: int| 0 <= i < s.len() && #[trigger] without_key(s, k)[j] == s[i],
    decreases s.len(),
{
    if s.len() > 0 {
        let d = s.drop_last();
        assert forall|i: int, j: int| 0 <= i < j < d.len() implies !same_path(#[trigger] d[i].0@, #[trigger] d[j].0@) by {
            assert(d[i] == s[i] && d[j] == s[j]);
        }
        lemma_without_key_unique(d, k);
        let rest = without_key(d, k);
        let w = without_key(s, k);
        if !same_path(s.last().0@, k) {
            assert(w == rest.push(s.last()));
            assert forall|j: int| 0 <= j < w.len() implies exists|i: int| 0 <= i < s.len() && #[trigger] w[j] == s[i] by {
                if j < rest.len() {
                    let i = choose|i: int| 0 <= i < d.len() && rest[j] == d[i];
                    assert(w[j] == s[i]);
                } else {
                    assert(w[j] == s[s.len() - 1]);
                }
            }
            assert forall|a: int, b: int| 0 <= a < b < w.len() implies !same_path(#[trigger] w[a].0@, #[trigger] w[b].0@) by {
                if b < rest.len() {
                    assert(w[a] == rest[a] && w[b] == rest[b]);
                } else {
                    let i = choose|i: int| 0 <= i < d.len() && rest[a] == d[i];
                    assert(w[a] == s[i]);
                    assert(w[b] == s[s.len() - 1]);
                    assert(!same_path(s[i].0@, s[s.len() - 1].0@));
                }
            }
            assert forall|j: int| 0 <= j < w.len() implies !same_path(#[trigger] w[j].0@, k) by {
                if j < rest.len() {
                    assert(w[j] == rest[j]);
                }
            }
        } else {
            assert forall|j: int| 0 <= j < w.len() implies exists|i: int| 0 <= i < s.len() && #[trigger] w[j] == s[i] by {
                let i = choose|i: int| 0 <= i < d.len() && rest[j] == d[i];
                assert(w[j] == s[i]);
            }
        }
    }
}

/// Records in the cache the resume position of `key` worth keeping for a playback that
/// stopped at `position_ms`: the entry is replaced, or removed when nothing is worth
/// keeping.
pub fn update_resume_cache_entry(cache: &mut Vec<(String, u64)>, key: String, position_ms: u64, duration_ms: Option<u64>)
    ensures
        final(cache)@ == without_key(old(cache)@, key@) + match spec_resume_position_to_store(position_ms, duration_ms) {
            Some(v) => seq![(key, v)],
            None => Seq::<(String, u64)>::empty(),
        },
        map_get(final(cache)@, key@) == spec_resume_position_to_store(position_ms, duration_ms),
        forall|q: Seq<char>| !same_path(q, key@) ==> map_get(#[trigger] final(cache)@, q) == map_get(old(cache)@, q),
        keys_unique(old(cache)@) ==> keys_unique(final(cache)@),
{
    let ghost s0 = cache@;
    let mut kept: Vec<(String, u64)> = Vec::new();
    let mut pending: Vec<(String, u64)> = Vec::new();
    std::mem::swap(&mut pending, cache);
    let n = pending.len();
    let mut i: usize = 0;
    while pending.len() > 0
        invariant
            n == s0.len(),
            0 <= i <= n,
            pending@ == s0.subrange(i as int, n as int),
            kept@ == without_key(s0.subrange(0, i as int), key@),
        decreases pending@.len(),
    {
        let e = pending.remove(0);
        assert(e == s0[i as int]);
        assert(s0.subrange(0, i + 1).drop_last() == s0.subrange(0, i as int));
        if !paths_equal(e.0.as_str(), key.as_str()) {
            kept.push(e);
        }
        i = i + 1;
        assert(pending@ == s0.subrange(i as int, n as int));
    }
    assert(s0.subrange(0, n as int) == s0);
    let ghost base = kept@;
    let stored = resume_position_to_store(position_ms, duration_ms);
    match stored {
        Some(v) => {
            kept.push((key, v));
            assert(kept@ == base + seq![(key, v)]);
        },
        None => {
            assert(kept@ == base + Seq::<(String, u64)>::empty());
        },
    }
    *cache = kept;
    proof {
        lemma_without_key(s0, key@, key@);
        assert forall|q: Seq<char>| !same_path(q, key@) implies map_get(#[trigger] cache@, q) == map_get(s0, q) by {
            lemma_without_key(s0, key@, q);
            if stored is Some {
                lemma_map_get_push(base, (key, stored->0), q);
            }
        }
        if stored is Some {
            lemma_map_get_push(base, (key, stored->0), key@);
        }
        if keys_unique(s0) {
            lemma_without_key_unique(s0, key@);
        }
    }
}

// ---------------------------------------------------------------- playback session

/// How often, in milliseconds, the position of a playing file is saved.
pub const RESUME_SAVE_INTERVAL_MS: u64 = 15000;

/// What the interface remembers of the player between events.
pub struct PlayerSession {
    /// The player screen is shown.
    pub active: bool,
    /// The last status seen while the player screen was shown.
    pub last_status: PlaybackStatus,
    /// The last state the player reported.
    pub last_state: PlaybackState,
    /// When the position was last saved, in milliseconds of a monotonic clock.
    pub last_save_ms: u64,
}

/// Something the interface must do after a player event.
pub enum SessionAction {
    /// Save the resume position of a file where playback is.
    PersistResume { path: String, position_ms: u64, duration_ms: Option<u64> },
    /// Ask the player to stop.
    StopPlayer,
    /// Cancel the pending toast timer.
    CancelToast,
    /// Show a toast with this text.
    ShowToast(String),
    /// Leave the player screen and show the browser with fresh resume labels.
    ExitPlayer,
    /// Show the playback state on the player screen.
    ShowPlayback,
}

/// The save asked for a snapshot, when a file is loaded.
pub open spec fn persist_of(s: PlaybackState) -> Seq<SessionAction> {
    match s.path {
        Some(p) => seq![SessionAction::PersistResume { path: p, position_ms: s.position_ms, duration_ms: s.duration_ms }],
        None => seq![],
    }
}

fn persist_action(s: &PlaybackState, out: &mut Vec<SessionAction>)
    ensures
        final(out)@ == old(out)@ + persist_of(*s),
{
    match &s.path {
        Some(p) => {
            out.push(SessionAction::PersistResume { path: p.clone(), position_ms: s.position_ms, duration_ms: s.duration_ms });
            assert(out@ == old(out)@ + persist_of(*s));
        },
        None => {
            assert(out@ == old(out)@ + persist_of(*s));
        },
    }
}

impl PlayerSession {
    /// The session before anything is played, at time `now_ms`.
    pub fn new(now_ms: u64) -> (r: PlayerSession)
        ensures
            !r.active,
            r.last_status == PlaybackStatus::Stopped,
            is_idle(r.last_state),
            r.last_save_ms == now_ms,
    {
        PlayerSession {
            active: false,
            last_status: PlaybackStatus::Stopped,
            last_state: PlaybackState::default(),
            last_save_ms: now_ms,
        }
    }

    /// A file was opened: the player screen is shown.
    pub fn enter_player(&mut self)
        ensures
            *final(self) == (PlayerSession { active: true, ..*old(self) }),
    {
        self.active = true;
    }

    /// The player reported its state. While the player screen is shown, a pause right
    /// after playing saves the position, and the status is remembered; the state is
    /// kept in any case.
    pub fn on_state(&mut self, state: PlaybackState) -> (r: Vec<SessionAction>)
        ensures
            final(self).active == old(self).active,
            final(self).last_state == state,
            final(self).last_save_ms == old(self).last_save_ms,
            final(self).last_status == if old(self).active {
                state.status
            } else {
                old(self).last_status
            },
            r@ == if old(self).active && old(self).last_status == PlaybackStatus::Playing
                && state.status == PlaybackStatus::Paused {
                persist_of(state)
            } else {
                Seq::<SessionAction>::empty()
            },
            (old(self).active && old(self).last_status == PlaybackStatus::Playing && state.status
                == PlaybackStatus::Paused && state.path is Some) ==> r@ == seq![
                SessionAction::PersistResume {
                    path: state.path->0,
                    position_ms: state.position_ms,
                    duration_ms: state.duration_ms,
                },
            ],
    {
        let mut out: Vec<SessionAction> = Vec::new();
        if self.active {
            if self.last_status == PlaybackStatus::Playing && state.status == PlaybackStatus::Paused {
                persist_action(&state, &mut out);
                assert(out@ == persist_of(state));
            }
            self.last_status = state.status;
        }
        self.last_state = state;
        out
    }

    /// The player stopped by itself: the last position is saved, the toast cancelled,
    /// the player screen left, and the session forgets the file.
    pub fn on_stopped(&mut self) -> (r: Vec<SessionAction>)
        ensures
            r@ == persist_of(old(self).last_state) + seq![SessionAction::CancelToast, SessionAction::ExitPlayer],
            match old(self).last_state.path {
                Some(p) => r@ == seq![
                    SessionAction::PersistResume {
                        path: p,
                        position_ms: old(self).last_state.position_ms,
                        duration_ms: old(self).last_state.duration_ms,
                    },
                    SessionAction::CancelToast,
                    SessionAction::ExitPlayer,
                ],
                None => r@ == seq![SessionAction::CancelToast, SessionAction::ExitPlayer],
            },
            !final(self).active,
            is_idle(final(self).last_state),
            final(self).last_status == PlaybackStatus::Stopped,
            final(self).last_save_ms == old(self).last_save_ms,
    {
        let mut out: Vec<SessionAction> = Vec::new();
        persist_action(&self.last_state, &mut out);
        out.push(SessionAction::CancelToast);
        out.push(SessionAction::ExitPlayer);
        self.active = false;
        self.last_state = PlaybackState::default();
        self.last_status = PlaybackStatus::Stopped;
        out
    }

    /// The user stopped playback: the last position is saved, the player told to stop,
    /// and the player screen left.
    pub fn on_stop_pressed(&mut self) -> (r: Vec<SessionAction>)
        ensures
            r@ == persist_of(old(self).last_state) + seq![SessionAction::StopPlayer, SessionAction::ExitPlayer],
            match old(self).last_state.path {
                Some(p) => r@ == seq![
                    SessionAction::PersistResume {
                        path: p,
                        position_ms: old(self).last_state.position_ms,
                        duration_ms: old(self).last_state.duration_ms,
                    },
                    SessionAction::StopPlayer,
                    SessionAction::ExitPlayer,
                ],
                None => r@ == seq![SessionAction::StopPlayer, SessionAction::ExitPlayer],
            },
            *final(self) == (PlayerSession { active: false, ..*old(self) }),
    {
        let mut out: Vec<SessionAction> = Vec::new();
        persist_action(&self.last_state, &mut out);
        out.push(SessionAction::StopPlayer);
        out.push(SessionAction::ExitPlayer);
        self.active = false;
        out
    }

    /// A tick of the interface timer at `now_ms`: while the player screen is shown, the
    /// state is displayed, and a playing file has its position saved once the save
    /// interval has passed since the last save.
    pub fn on_tick(&mut self, now_ms: u64) -> (r: Vec<SessionAction>)
        ensures
            !old(self).active ==> r@.len() == 0 && *final(self) == *old(self),
            old(self).active ==> {
                let due = old(self).last_state.status == PlaybackStatus::Playing && now_ms
                    >= old(self).last_save_ms && now_ms - old(self).last_save_ms >= RESUME_SAVE_INTERVAL_MS;
                &&& r@ == seq![SessionAction::ShowPlayback] + if due {
                    persist_of(old(self).last_state)
                } else {
                    Seq::<SessionAction>::empty()
                }
                &&& (due && old(self).last_state.path is Some) ==> r@ == seq![
                    SessionAction::ShowPlayback,
                    SessionAction::PersistResume {
                        path: old(self).last_state.path->0,
                        position_ms: old(self).last_state.position_ms,
                        duration_ms: old(self).last_state.duration_ms,
                    },
                ]
                &&& *final(self) == (PlayerSession {
                    last_save_ms: if due {
                        now_ms
                    } else {
                        old(self).last_save_ms
                    },
                    ..*old(self)
                })
            },
    {
        let mut out: Vec<SessionAction> = Vec::new();
        if !self.active {
            return out;
        }
        out.push(SessionAction::ShowPlayback);
        if self.last_state.status == PlaybackStatus::Playing && now_ms >= self.last_save_ms && now_ms
            - self.last_save_ms >= RESUME_SAVE_INTERVAL_MS {
            persist_action(&self.last_state, &mut out);
            self.last_save_ms = now_ms;
        }
        out
    }
}

// ---------------------------------------------------------------- holding to clear a resume position

/// How long, in milliseconds, the clear key must be held.
pub const HOLD_DURATION_MS: u64 = 3000;

/// The hold-to-clear gesture on the selected file's resume position.
pub struct HoldState {
    /// Counts holds and releases, so that a timer of an earlier hold is recognised.
    pub generation: u64,
    /// A hold is under way.
    pub active: bool,
}

/// What a hold event asks of the interface.
pub enum HoldAction {
    Nothing,
    /// Start a timer of `HOLD_DURATION_MS` that reports `generation` for `path`.
    StartTimer { generation: u64, path: String },
    /// Cancel the pending timer.
    CancelTimer,
    /// Forget the resume position of `path` and redisplay.
    ClearResume { path: String },
}

impl HoldState {
    pub fn new() -> (r: HoldState)
        ensures
            r.generation == 0,
            !r.active,
    {
        HoldState { generation: 0, active: false }
    }

    /// The clear key went down. The hold starts only when the player is not shown, no
    /// hold is under way, and the selection is a file with a resume position.
    pub fn on_hold_started(&mut self, player_active: bool, selected_file: Option<String>, has_resume: bool) -> (r: HoldAction)
        requires
            old(self).generation < u64::MAX,
        ensures
            ({
                let starts = !player_active && !old(self).active && selected_file is Some && has_resume;
                if starts {
                    &&& final(self).active
                    &&& final(self).generation == old(self).generation + 1
                    &&& r == (HoldAction::StartTimer { generation: final(self).generation, path: selected_file->0 })
                } else {
                    &&& *final(self) == *old(self)
                    &&& r == HoldAction::Nothing
                }
            }),
    {
        if player_active || self.active {
            return HoldAction::Nothing;
        }
        let path = match selected_file {
            Some(p) => p,
            None => {
                return HoldAction::Nothing;
            },
        };
        if !has_resume {
            return HoldAction::Nothing;
        }
        self.active = true;
        self.generation = self.generation + 1;
        HoldAction::StartTimer { generation: self.generation, path }
    }

    /// The clear key went up: any hold ends and its timer is cancelled.
    pub fn on_hold_ended(&mut self) -> (r: HoldAction)
        requires
            old(self).generation < u64::MAX,
        ensures
            !final(self).active,
            final(self).generation == old(self).generation + 1,
            r == HoldAction::CancelTimer,
    {
        self.active = false;
        self.generation = self.generation + 1;
        HoldAction::CancelTimer
    }

    /// A hold timer fired: it clears the resume position only when it belongs to the
    /// current hold.
    pub fn on_timer_fired(&mut self, generation: u64, path: String) -> (r: HoldAction)
        ensures
            generation == old(self).generation ==> !final(self).active && final(self).generation
                == old(self).generation && r == (HoldAction::ClearResume { path }),
            generation != old(self).generation ==> *final(self) == *old(self) && r == HoldAction::Nothing,
    {
        if generation != self.generation {
            return HoldAction::Nothing;
        }
        self.active = false;
        HoldAction::ClearResume { path }
    }
}

// ---------------------------------------------------------------- library refresh

/// How long, in milliseconds, the disk must stay quiet before a rescan.
pub const QUIET_PERIOD_MS: u64 = 800;

/// Debouncing of library rescans after changes on disk.
pub struct RefreshState {
    /// A change was seen since the last rescan started.
    pub dirty: bool,
    /// When the last change was seen, in milliseconds of a monotonic clock.
    pub last_change_ms: Option<u64>,
    /// A rescan is running.
    pub rescanning: bool,
}

impl RefreshState {
    /// The state at start-up, when the first library build is started.
    pub fn new() -> (r: RefreshState)
        ensures
            !r.dirty,
            r.last_change_ms is None,
            r.rescanning,
    {
        RefreshState { dirty: false, last_change_ms: None, rescanning: true }
    }

    /// A rescan finished; when it failed, the library is dirty again from `now_ms`.
    pub fn on_build_finished(&mut self, succeeded: bool, now_ms: u64)
        ensures
            !final(self).rescanning,
            succeeded ==> final(self).dirty == old(self).dirty && final(self).last_change_ms == old(self).last_change_ms,
            !succeeded ==> final(self).dirty && final(self).last_change_ms == Some(now_ms),
    {
        self.rescanning = false;
        if !succeeded {
            self.dirty = true;
            self.last_change_ms = Some(now_ms);
        }
    }

    /// Something changed on disk at `now_ms`.
    pub fn on_change(&mut self, now_ms: u64)
        ensures
            final(self).dirty,
            final(self).last_change_ms == Some(now_ms),
            final(self).rescanning == old(self).rescanning,
    {
        self.dirty = true;
        self.last_change_ms = Some(now_ms);
    }

    /// A tick of the refresh timer at `now_ms`: `true` when a rescan must start now,
    /// which is when the library is dirty, no rescan runs, and the quiet period has
    /// passed since the last change.
    pub fn on_tick(&mut self, now_ms: u64) -> (start: bool)
        ensures
            start == (old(self).dirty && !old(self).rescanning && old(self).last_change_ms is Some
                && now_ms >= old(self).last_change_ms->0 && now_ms - old(self).last_change_ms->0 >= QUIET_PERIOD_MS),
            start ==> !final(self).dirty && final(self).rescanning && final(self).last_change_ms
                == old(self).last_change_ms,
            !start ==> *final(self) == *old(self),
    {
        if !self.dirty || self.rescanning {
            return false;
        }
        let at = match self.last_change_ms {
            Some(at) => at,
            None => {
                return false;
            },
        };
        if now_ms < at || now_ms - at < QUIET_PERIOD_MS {
            return false;
        }
        self.dirty = false;
        self.rescanning = true;
        true
    }
}

// ---------------------------------------------------------------- browsing keys

/// The selection key: moves the selection down for a positive step, up for a negative
/// one, while the player is not shown. `true` when the selection moved.
pub fn on_move_selection(state: &mut BrowsingState, player_active: bool, delta: i32) -> (moved: bool)
    requires
        !player_active && delta > 0 ==> old(state).selected < usize::MAX,
    ensures
        (player_active || delta == 0) ==> !moved && *final(state) == *old(state),
        (!player_active && delta > 0) ==> {
            &&& moved == (old(state).selected + 1 < old(state).visible_view().len())
            &&& moved ==> BrowsingState::reselected(*old(state), *final(state), (old(state).selected + 1) as usize)
            &&& !moved ==> *final(state) == *old(state)
        },
        (!player_active && delta < 0) ==> {
            &&& moved == (old(state).selected > 0)
            &&& moved ==> BrowsingState::reselected(*old(state), *final(state), (old(state).selected - 1) as usize)
            &&& !moved ==> *final(state) == *old(state)
        },
{
    if player_active {
        return false;
    }
    if delta > 0 {
        state.go_down()
    } else if delta < 0 {
        state.go_up()
    } else {
        false
    }
}

/// The back key: closes the deepest open folder while the player is not shown.
pub fn on_navigate_back(state: &mut BrowsingState, player_active: bool) -> (r: bool)
    requires
        tree_depth(old(state).tree) <= i32::MAX,
    ensures
        player_active ==> !r && *final(state) == *old(state),
        !player_active ==> {
            &&& r == (old(state).stack@.len() > 0)
            &&& r ==> BrowsingState::reopened(
                *old(state),
                *final(state),
                paths_view(old(state).stack@).drop_last(),
                old(state).stack@.last()@,
            )
            &&& !r ==> *final(state) == *old(state)
        },
{
    if player_active {
        return false;
    }
    state.go_back()
}

/// The open key: activates the selected row while the player is not shown; a file row
/// asks for playback of that file, a folder row opens or closes it.
pub fn on_open_selected(state: &mut BrowsingState, player_active: bool) -> (r: ActivateResult)
    requires
        tree_depth(old(state).tree) <= i32::MAX,
    ensures
        player_active ==> r is Nothing && *final(state) == *old(state),
        !player_active ==> match r {
            ActivateResult::PlayFile { path, name } => {
                &&& old(state).selected < old(state).visible_view().len()
                &&& path@ == old(state).visible_view()[old(state).selected as int].path@
                &&& name@ == old(state).visible_view()[old(state).selected as int].name@
                &&& *final(state) == *old(state)
            },
            ActivateResult::OpenedFolder => BrowsingState::opened(*old(state), *final(state), true),
            ActivateResult::Nothing => BrowsingState::opened(*old(state), *final(state), false),
        },
{
    if player_active {
        return ActivateResult::Nothing;
    }
    state.activate_selected()
}

} // verus!
