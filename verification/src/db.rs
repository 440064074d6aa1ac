//! What the database stores per video file and per setting, the rows it is read from
//! and written to, and the alignment of stored paths with the library.

use vstd::prelude::*;
use crate::text::{owned, push_str, push_char, str_eq, char_at, char_len};
use crate::tree_view::{resume_position_to_store, spec_resume_position_to_store};

verus! {

// ---------------------------------------------------------------- per-file state

/// What is remembered of one video file.
#[derive(Debug, Clone)]
pub struct MediaState {
    /// Normalized path of the file.
    pub path: String,
    pub favorite: bool,
    pub resume_position_ms: Option<u64>,
    /// When it was last watched, in seconds since the Unix epoch.
    pub last_watched_at: Option<u64>,
}

/// A row of the `media_state` table.
#[derive(Debug, Clone)]
pub struct MediaStateRow {
    pub path: String,
    pub favorite: i32,
    pub resume_position_ms: Option<i64>,
    pub last_watched_at: Option<i64>,
}

/// A stored integer that may not be negative: negative values read as 0.
pub open spec fn non_negative(v: i64) -> u64 {
    if v < 0 {
        0
    } else {
        v as u64
    }
}

fn clamp_non_negative(v: i64) -> (r: u64)
    ensures
        r == non_negative(v),
{
    if v < 0 {
        0
    } else {
        v as u64
    }
}

/// The state a row describes: a favorite when the flag is not 0, and negative positions
/// and times read as 0.
pub open spec fn state_of_row(row: MediaStateRow) -> MediaState {
    MediaState {
        path: row.path,
        favorite: row.favorite != 0,
        resume_position_ms: match row.resume_position_ms {
            Some(ms) => Some(non_negative(ms)),
            None => None::<u64>,
        },
        last_watched_at: match row.last_watched_at {
            Some(s) => Some(non_negative(s)),
            None => None::<u64>,
        },
    }
}

/// The row written for a state under its normalized path: the flag as 1 or 0, and the
/// position and time reinterpreted as `i64`.
pub open spec fn row_of_state(state: MediaState, normalized_path: String) -> MediaStateRow {
    MediaStateRow {
        path: normalized_path,
        favorite: if state.favorite {
            1i32
        } else {
            0i32
        },
        resume_position_ms: match state.resume_position_ms {
            Some(ms) => Some(ms as i64),
            None => None::<i64>,
        },
        last_watched_at: match state.last_watched_at {
            Some(s) => Some(s as i64),
            None => None::<i64>,
        },
    }
}

/// The state a row describes: a favorite when the flag is not 0, and negative positions
/// and times read as 0.
pub fn media_state_from_row(row: MediaStateRow) -> (r: MediaState)
    ensures
        r == state_of_row(row),
        r.path == row.path,
        r.favorite == (row.favorite != 0),
        r.resume_position_ms == match row.resume_position_ms {
            Some(ms) => Some(non_negative(ms)),
            None => None::<u64>,
        },
        r.last_watched_at == match row.last_watched_at {
            Some(s) => Some(non_negative(s)),
            None => None::<u64>,
        },
{
    MediaState {
        path: row.path,
        favorite: row.favorite != 0,
        resume_position_ms: match row.resume_position_ms {
            Some(ms) => Some(clamp_non_negative(ms)),
            None => None,
        },
        last_watched_at: match row.last_watched_at {
            Some(s) => Some(clamp_non_negative(s)),
            None => None,
        },
    }
}

/// The row written for a state under its normalized path: the flag as 1 or 0, and the
/// position and time reinterpreted as `i64`.
pub fn media_state_to_row(state: &MediaState, normalized_path: String) -> (r: MediaStateRow)
    ensures
        r == row_of_state(*state, normalized_path),
        r.path == normalized_path,
        r.favorite == if state.favorite {
            1i32
        } else {
            0i32
        },
        r.resume_position_ms == match state.resume_position_ms {
            Some(ms) => Some(ms as i64),
            None => None::<i64>,
        },
        r.last_watched_at == match state.last_watched_at {
            Some(s) => Some(s as i64),
            None => None::<i64>,
        },
{
    MediaStateRow {
        path: normalized_path,
        favorite: if state.favorite {
            1
        } else {
            0
        },
        resume_position_ms: match state.resume_position_ms {
            Some(ms) => Some(ms as i64),
            None => None,
        },
        last_watched_at: match state.last_watched_at {
            Some(s) => Some(s as i64),
            None => None,
        },
    }
}

/// Writing a state into a row and reading the row back gives the state again, under the
/// normalized path it was written with, when its position and its viewing time fit in
/// `i64`.
pub proof fn law_row_round_trip(state: MediaState, normalized_path: String)
    requires
        match state.resume_position_ms {
            Some(ms) => ms <= i64::MAX,
            None => true,
        },
        match state.last_watched_at {
            Some(t) => t <= i64::MAX,
            None => true,
        },
    ensures
        state_of_row(row_of_state(state, normalized_path)) == (MediaState { path: normalized_path, ..state }),
{
}

/// The state to update: the stored one, or a fresh one for `path` that is no favorite
/// and has no position and no viewing time.
pub open spec fn state_or_fresh(existing: Option<MediaState>, path: String) -> MediaState {
    match existing {
        Some(s) => s,
        None => MediaState { path, favorite: false, resume_position_ms: None, last_watched_at: None },
    }
}

fn stored_or_fresh(existing: Option<MediaState>, path: String) -> (r: MediaState)
    ensures
        r == state_or_fresh(existing, path),
{
    match existing {
        Some(s) => s,
        None => MediaState { path, favorite: false, resume_position_ms: None, last_watched_at: None },
    }
}

/// The state saved when playback of `path` stops at `position_ms` at time `now_secs`:
/// the resume position worth keeping and the viewing time are replaced.
pub fn resume_saved(existing: Option<MediaState>, path: String, position_ms: u64, duration_ms: Option<u64>, now_secs: u64) -> (r: MediaState)
    ensures
        r == (MediaState {
            resume_position_ms: spec_resume_position_to_store(position_ms, duration_ms),
            last_watched_at: Some(now_secs),
            ..state_or_fresh(existing, path)
        }),
{
    let mut state = stored_or_fresh(existing, path);
    state.resume_position_ms = resume_position_to_store(position_ms, duration_ms);
    state.last_watched_at = Some(now_secs);
    state
}

/// The state saved when the resume position of `path` is cleared.
pub fn resume_cleared(existing: Option<MediaState>, path: String) -> (r: MediaState)
    ensures
        r == (MediaState { resume_position_ms: None, ..state_or_fresh(existing, path) }),
{
    let mut state = stored_or_fresh(existing, path);
    state.resume_position_ms = None;
    state
}

/// Where playback of a file starts: its stored position, when it is still worth resuming
/// from given the file's duration.
pub fn load_resume_position(stored: Option<MediaState>, duration_ms: Option<u64>) -> (r: Option<u64>)
    ensures
        r == match stored {
            Some(s) => match s.resume_position_ms {
                Some(p) => spec_resume_position_to_store(p, duration_ms),
                None => None,
            },
            None => None,
        },
{
    match stored {
        Some(s) => match s.resume_position_ms {
            Some(p) => resume_position_to_store(p, duration_ms),
            None => None,
        },
        None => None,
    }
}

/// The connection address of the database file at `path`, created when missing.
pub fn database_url(path: &str) -> (r: String)
    ensures
        r@ == "sqlite:"@ + path@ + "?mode=rwc"@,
{
    let mut s = owned("sqlite:");
    push_str(&mut s, path);
    push_str(&mut s, "?mode=rwc");
    s
}

// ---------------------------------------------------------------- aligning stored paths

/// The stored paths that are not live, in stored order.
pub open spec fn stale_of(stored: Seq<Seq<char>>, live: Seq<Seq<char>>) -> Seq<Seq<char>>
    decreases stored.len(),
{
    if stored.len() == 0 {
        seq![]
    } else {
        let rest = stale_of(stored.drop_last(), live);
        if live.contains(stored.last()) {
            rest
        } else {
            rest.push(stored.last())
        }
    }
}

pub open spec fn views(s: Seq<String>) -> Seq<Seq<char>> {
    s.map_values(|p: String| p@)
}

/// How the stored rows are pruned before new paths are seeded.
pub enum PrunePlan {
    /// Nothing is live: every row goes.
    DeleteAll,
    /// These stored paths are no longer live.
    DeletePaths(Vec<String>),
}

fn contains_path(live: &Vec<String>, p: &str) -> (r: bool)
    ensures
        r == views(live@).contains(p@),
{
    let mut i: usize = 0;
    while i < live.len()
        invariant
            0 <= i <= live@.len(),
            forall|j: int| 0 <= j < i ==> (#[trigger] live@[j])@ != p@,
        decreases live@.len() - i,
    {
        if str_eq(live[i].as_str(), p) {
            assert(views(live@)[i as int] == p@);
            return true;
        }
        i = i + 1;
    }
    assert forall|j: int| 0 <= j < views(live@).len() implies views(live@)[j] != p@ by {
        assert(views(live@)[j] == live@[j]@);
    }
    false
}

/// Which stored rows to delete so that only live paths remain.
pub fn prune_plan(live: &Vec<String>, stored: &Vec<String>) -> (r: PrunePlan)
    ensures
        live@.len() == 0 <==> r is DeleteAll,
        match r {
            PrunePlan::DeletePaths(d) => views(d@) == stale_of(views(stored@), views(live@)),
            PrunePlan::DeleteAll => true,
        },
{
    if live.len() == 0 {
        return PrunePlan::DeleteAll;
    }
    let ghost sv = views(stored@);
    let mut out: Vec<String> = Vec::new();
    let mut i: usize = 0;
    while i < stored.len()
        invariant
            sv == views(stored@),
            0 <= i <= stored@.len(),
            views(out@) == stale_of(sv.subrange(0, i as int), views(live@)),
        decreases stored@.len() - i,
    {
        assert(sv.subrange(0, i + 1).drop_last() == sv.subrange(0, i as int));
        assert(sv.subrange(0, i + 1).last() == stored@[i as int]@);
        if !contains_path(live, stored[i].as_str()) {
            let ghost before = out@;
            out.push(stored[i].clone());
            assert(views(out@) == views(before).push(stored@[i as int]@));
        }
        i = i + 1;
    }
    assert(sv.subrange(0, sv.len() as int) == sv);
    PrunePlan::DeletePaths(out)
}

proof fn lemma_stale_of(stored: Seq<Seq<char>>, live: Seq<Seq<char>>, p: Seq<char>)
    ensures
        stale_of(stored, live).contains(p) <==> stored.contains(p) && !live.contains(p),
    decreases stored.len(),
{
    if stored.len() > 0 {
        let d = stored.drop_last();
        lemma_stale_of(d, live, p);
        assert(stored == d.push(stored.last()));
        if stored.contains(p) && stored.last() != p {
            let i = choose|i: int| 0 <= i < stored.len() && stored[i] == p;
            assert(d[i] == p);
        }
        if d.contains(p) {
            let i = choose|i: int| 0 <= i < d.len() && d[i] == p;
            assert(stored[i] == p);
        }
        let rest = stale_of(d, live);
        if !live.contains(stored.last()) {
            if rest.push(stored.last()).contains(p) && stored.last() != p {
                let i = choose|i: int| 0 <= i < rest.len() + 1 && rest.push(stored.last())[i] == p;
                assert(rest[i] == p);
            }
            if rest.contains(p) {
                let i = choose|i: int| 0 <= i < rest.len() && rest[i] == p;
                assert(rest.push(stored.last())[i] == p);
            }
            assert(rest.push(stored.last())[rest.len() as int] == stored.last());
        }
        assert(stored[stored.len() - 1] == stored.last());
    }
}

/// The stored paths after pruning by plan and seeding every live path.
pub open spec fn paths_after_sync(stored: Seq<Seq<char>>, live: Seq<Seq<char>>) -> Set<Seq<char>> {
    let kept = if live.len() == 0 {
        Set::<Seq<char>>::empty()
    } else {
        stored.to_set().difference(stale_of(stored, live).to_set())
    };
    kept.union(live.to_set())
}

/// After a synchronisation, the stored paths are exactly the live paths of the library.
pub proof fn law_sync_aligns_stored_with_live(stored: Seq<Seq<char>>, live: Seq<Seq<char>>)
    ensures
        paths_after_sync(stored, live) == live.to_set(),
{
    assert forall|p: Seq<char>| paths_after_sync(stored, live).contains(p) <==> live.to_set().contains(p) by {
        lemma_stale_of(stored, live, p);
    }
    assert(paths_after_sync(stored, live) =~= live.to_set());
}

// ---------------------------------------------------------------- settings

#[verifier::external_type_specification]
#[verifier::external_body]
pub struct ExJsonError(serde_json::Error);

/// The settings key under which the last opened folder is stored.
pub const LAST_OPENED_FOLDER_KEY: &'static str = "last_opened_folder";

/// A settings value that could not be read or written.
#[derive(Debug, Clone, Copy, PartialEq, Eq, Structural)]
pub enum SettingsError {
    Decode,
    Encode,
}

pub open spec fn hex_digit(d: nat) -> char {
    if d < 10 {
        ((d + 48) as u32) as char
    } else {
        ((d + 87) as u32) as char
    }
}

/// How serde_json writes one character inside a JSON string.
pub open spec fn json_escape_char(c: char) -> Seq<char> {
    if c == '"' {
        seq!['\\', '"']
    } else if c == '\\' {
        seq!['\\', '\\']
    } else if c == '\u{8}' {
        seq!['\\', 'b']
    } else if c == '\t' {
        seq!['\\', 't']
    } else if c == '\n' {
        seq!['\\', 'n']
    } else if c == '\u{c}' {
        seq!['\\', 'f']
    } else if c == '\r' {
        seq!['\\', 'r']
    } else if (c as u32) < 0x20 {
        seq!['\\', 'u', '0', '0', hex_digit((c as u32 / 16) as nat), hex_digit((c as u32 % 16) as nat)]
    } else {
        seq![c]
    }
}

pub open spec fn json_escape(s: Seq<char>) -> Seq<char>
    decreases s.len(),
{
    if s.len() == 0 {
        seq![]
    } else {
        json_escape(s.drop_last()) + json_escape_char(s.last())
    }
}

/// The JSON text of a string, as serde_json writes it.
pub open spec fn json_quote(s: Seq<char>) -> Seq<char> {
    seq!['"'] + json_escape(s) + seq!['"']
}

/// `serde_json::to_string` of a string: the string quoted, with `"`, `\\`, and the control
/// characters escaped. Writing a string never fails.
#[verifier::external_body]
fn json_string(s: &str) -> (r: Result<String, serde_json::Error>)
    ensures
        match r {
            Ok(j) => j@ == json_quote(s@),
            Err(_) => false,
        },
{
    serde_json::to_string(s)
}

/// The string that a JSON text denotes, when it is a JSON string.
pub uninterp spec fn json_string_value(json: Seq<char>) -> Option<Seq<char>>;

/// `serde_json::from_str::<String>`: the string a JSON text denotes, or an error when the
/// text is no JSON string. The text that `serde_json::to_string` writes for a string is
/// read back as that string.
#[verifier::external_body]
fn parse_json_string(json: &str) -> (r: Result<String, serde_json::Error>)
    ensures
        match r {
            Ok(v) => json_string_value(json@) == Some(v@),
            Err(_) => json_string_value(json@) is None,
        },
        forall|t: Seq<char>|
            json@ == json_quote(t) ==> match r {
                Ok(v) => v@ == t,
                Err(_) => false,
            },
{
    serde_json::from_str::<String>(json)
}

/// The settings value stored for the last opened folder: its path as a JSON string.
pub fn encode_last_opened_folder(path: &str) -> (r: Result<String, SettingsError>)
    ensures
        r matches Ok(j) && j@ == json_quote(path@),
{
    match json_string(path) {
        Ok(j) => Ok(j),
        Err(_) => Err(SettingsError::Encode),
    }
}

/// The last opened folder read back from its settings value, if one is stored; a value
/// that is no JSON string is a decoding error. The value written by
/// `encode_last_opened_folder` reads back as the folder it was written for.
pub fn decode_last_opened_folder(value: Option<String>) -> (r: Result<Option<String>, SettingsError>)
    ensures
        match value {
            None => r == Ok::<Option<String>, SettingsError>(None),
            Some(j) => {
                &&& (r matches Ok(Some(p)) && json_string_value(j@) == Some(p@)) || (r == Err::<Option<String>, SettingsError>(SettingsError::Decode) && json_string_value(j@) is None)
                &&& forall|t: Seq<char>| j@ == json_quote(t) ==> (r matches Ok(Some(p)) && p@ == t)
            },
        },
{
    match value {
        None => Ok(None),
        Some(j) => match parse_json_string(j.as_str()) {
            Ok(p) => Ok(Some(p)),
            Err(_) => Err(SettingsError::Decode),
        },
    }
}

} // verus!
