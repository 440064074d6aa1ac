use media_center::paths::{collect_file_paths, normalize_path};
use media_center::structs::{FileNode, FolderNode};
use media_center::db::{
    database_url, decode_last_opened_folder, encode_last_opened_folder, load_resume_position,
    media_state_from_row, media_state_to_row, prune_plan, resume_cleared, resume_saved, MediaState,
    MediaStateRow, PrunePlan, SettingsError,
};

fn strings(v: &[&str]) -> Vec<String> {
    v.iter().map(|s| s.to_string()).collect()
}

#[test]
fn rows_read_negative_values_as_zero() {
    let state = media_state_from_row(MediaStateRow {
        path: "/v/a.mkv".to_string(),
        favorite: 2,
        resume_position_ms: Some(-5),
        last_watched_at: Some(1_700_000_000),
    });
    assert!(state.favorite);
    assert_eq!(state.resume_position_ms, Some(0));
    assert_eq!(state.last_watched_at, Some(1_700_000_000));
    let row = media_state_to_row(&state, "/n/a.mkv".to_string());
    assert_eq!(row.favorite, 1);
    assert_eq!(row.path, "/n/a.mkv");
    assert_eq!(row.resume_position_ms, Some(0));
}

#[test]
fn saving_and_clearing_resume_positions() {
    let saved = resume_saved(None, "/v/a.mkv".to_string(), 30_000, Some(60_000), 77);
    assert_eq!(saved.resume_position_ms, Some(30_000));
    assert_eq!(saved.last_watched_at, Some(77));
    assert!(!saved.favorite);
    let finished = resume_saved(Some(saved), "/v/a.mkv".to_string(), 60_000, Some(60_000), 78);
    assert_eq!(finished.resume_position_ms, None);
    assert_eq!(finished.last_watched_at, Some(78));
    let fav = MediaState { path: "/v/b.mkv".to_string(), favorite: true, resume_position_ms: Some(5), last_watched_at: Some(1) };
    let cleared = resume_cleared(Some(fav), "/v/b.mkv".to_string());
    assert!(cleared.favorite);
    assert_eq!(cleared.resume_position_ms, None);
    assert_eq!(cleared.last_watched_at, Some(1));
}

#[test]
fn stored_position_is_resumed_only_when_worth_it() {
    let state = MediaState { path: "/v/a.mkv".to_string(), favorite: false, resume_position_ms: Some(50_000), last_watched_at: None };
    assert_eq!(load_resume_position(Some(state.clone()), Some(100_000)), Some(50_000));
    assert_eq!(load_resume_position(Some(state), Some(40_000)), None);
    assert_eq!(load_resume_position(None, None), None);
}

#[test]
fn sync_plan_removes_exactly_the_stale_paths() {
    let live = strings(&["/vol/b.mkv", "/vol/c.mkv"]);
    let stored = strings(&["/vol/a.mkv", "/vol/b.mkv", "/vol/z.mkv"]);
    match prune_plan(&live, &stored) {
        PrunePlan::DeletePaths(d) => assert_eq!(d, strings(&["/vol/a.mkv", "/vol/z.mkv"])),
        PrunePlan::DeleteAll => panic!("live paths exist"),
    }
    assert!(matches!(prune_plan(&vec![], &stored), PrunePlan::DeleteAll));
}

#[test]
fn last_opened_folder_round_trips_through_json() {
    for path in ["/media/pi/My Disk", "quote\"back\\slash", "tab\tline\nend", "ctrl\u{1}x", "été"] {
        let json = encode_last_opened_folder(path).unwrap();
        assert_eq!(decode_last_opened_folder(Some(json)), Ok(Some(path.to_string())));
    }
    assert_eq!(encode_last_opened_folder("a\"b").unwrap(), "\"a\\\"b\"");
    assert_eq!(encode_last_opened_folder("\u{1f}").unwrap(), "\"\\u001f\"");
    assert_eq!(decode_last_opened_folder(None), Ok(None));
    assert_eq!(decode_last_opened_folder(Some("not json".to_string())), Err(SettingsError::Decode));
}

#[test]
fn database_address() {
    assert_eq!(database_url("/w/library.db"), "sqlite:/w/library.db?mode=rwc");
}

#[test]
fn paths_are_normalized_when_they_exist() {
    assert_eq!(normalize_path("/no/such/dir/../video.mkv"), "/no/such/dir/../video.mkv");
    let root = normalize_path("/./");
    assert!(root.starts_with('/'));
    assert!(!root.contains("/./") && !root.contains("/../"));
}

#[test]
fn a_row_reads_back_as_the_state_written() {
    let state = MediaState {
        path: "/v/a.mkv".to_string(),
        favorite: true,
        resume_position_ms: Some(61_000),
        last_watched_at: Some(1_700_000_000),
    };
    let back = media_state_from_row(media_state_to_row(&state, "/w/a.mkv".to_string()));
    assert_eq!(back.path, "/w/a.mkv");
    assert!(back.favorite);
    assert_eq!(back.resume_position_ms, Some(61_000));
    assert_eq!(back.last_watched_at, Some(1_700_000_000));
}

#[test]
fn library_file_paths_are_listed_in_order_and_normalized() {
    let sub = FolderNode {
        path: "/no/such/vol/sub".to_string(),
        name: "sub".to_string(),
        subfolders: vec![],
        files: vec![file_at("/no/such/vol/sub/b.mkv")],
        reduced_number_of_file: 0,
        reduced_size_of_files: 0,
        reduced_duration_of_files: 0,
    };
    let tree = FolderNode {
        path: "/no/such/vol".to_string(),
        name: "vol".to_string(),
        subfolders: vec![sub],
        files: vec![file_at("/no/such/vol/a.mkv")],
        reduced_number_of_file: 0,
        reduced_size_of_files: 0,
        reduced_duration_of_files: 0,
    };
    assert_eq!(
        collect_file_paths(&tree),
        vec!["/no/such/vol/a.mkv".to_string(), "/no/such/vol/sub/b.mkv".to_string()]
    );
}

fn file_at(path: &str) -> FileNode {
    FileNode { path: path.to_string(), name: "x".to_string(), format: "MKV".to_string(), metadata: None }
}
