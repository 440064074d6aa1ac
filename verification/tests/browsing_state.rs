use media_center::browsing::{resume_position_under, ActivateResult, BrowsingState};
use media_center::structs::{FileMetadata, FileNode, FolderNode};

fn folder(path: &str, name: &str, subfolders: Vec<FolderNode>) -> FolderNode {
    FolderNode {
        path: path.to_string(),
        name: name.to_string(),
        subfolders,
        files: vec![],
        reduced_number_of_file: 0,
        reduced_size_of_files: 0,
        reduced_duration_of_files: 0,
    }
}

fn library(volumes: Vec<FolderNode>) -> FolderNode {
    FolderNode {
        path: "/library".to_string(),
        name: String::new(),
        subfolders: volumes,
        files: vec![],
        reduced_number_of_file: 0,
        reduced_size_of_files: 0,
        reduced_duration_of_files: 0,
    }
}

fn two_volumes() -> FolderNode {
    library(vec![
        folder("/volumeD", "volumeD", vec![folder("/volumeD/mkv", "mkv", vec![])]),
        folder("/volumeE", "volumeE", vec![]),
    ])
}

fn volume_with_two_folders_and_e() -> FolderNode {
    library(vec![
        folder(
            "/volumeD",
            "volumeD",
            vec![folder("/volumeD/mkv", "mkv", vec![]), folder("/volumeD/mp4", "mp4", vec![])],
        ),
        folder("/volumeE", "volumeE", vec![]),
    ])
}

fn volume_with_two_folders() -> FolderNode {
    library(vec![folder(
        "/volumeD",
        "volumeD",
        vec![folder("/volumeD/mkv", "mkv", vec![]), folder("/volumeD/mp4", "mp4", vec![])],
    )])
}

fn check_volumes_start_collapsed_and_open() {
    let mut state = BrowsingState::new(two_volumes());

    assert!(state.stack.is_empty());
    assert_eq!(state.visible_items().len(), 2);
    assert_eq!(state.visible_items()[0].name, "volumeD");

    assert!(state.open_selected());
    assert_eq!(state.stack.len(), 1);
    assert_eq!(state.visible_items().len(), 3);
}

fn check_go_back_selects_closed_volume() {
    let mut state = BrowsingState::new(volume_with_two_folders_and_e());

    state.selected = 0;
    state.open_selected();
    state.selected = 1;
    state.open_selected();
    assert_eq!(state.stack.len(), 2);

    assert!(state.go_back());
    assert_eq!(state.stack.len(), 1);
    assert_eq!(state.visible_items()[state.selected].name, "mkv");
}

fn check_root_starts_collapsed_and_opens() {
    let tree = library(vec![folder("/volumeD", "volumeD", vec![folder("/volumeD/mkv", "mkv", vec![])])]);
    let mut state = BrowsingState::new(tree);

    assert!(state.stack.is_empty());
    assert_eq!(state.visible_items().len(), 1);

    assert!(state.open_selected());
    assert_eq!(state.stack.len(), 1);
    assert_eq!(state.visible_items().len(), 2);
}

fn check_go_back_selects_closed_folder() {
    let mut state = BrowsingState::new(volume_with_two_folders());

    state.selected = 0;
    state.open_selected();

    state.selected = 1;
    state.open_selected();
    assert_eq!(state.stack.len(), 2);

    assert!(state.go_back());
    assert_eq!(state.stack.len(), 1);
    assert_eq!(state.visible_items()[state.selected].name, "mkv");
}

#[test]
fn volumes_start_collapsed_and_open() {
    check_volumes_start_collapsed_and_open();
}

#[test]
fn mod_volumes_start_collapsed_and_open() {
    check_volumes_start_collapsed_and_open();
}

#[test]
fn go_back_selects_closed_volume() {
    check_go_back_selects_closed_volume();
}

#[test]
fn mod_go_back_selects_closed_volume() {
    check_go_back_selects_closed_volume();
}

#[test]
fn root_starts_collapsed_and_opens() {
    check_root_starts_collapsed_and_opens();
}

#[test]
fn mod_root_starts_collapsed_and_opens() {
    check_root_starts_collapsed_and_opens();
}

#[test]
fn go_back_selects_closed_folder() {
    check_go_back_selects_closed_folder();
}

#[test]
fn mod_go_back_selects_closed_folder() {
    check_go_back_selects_closed_folder();
}

#[test]
fn reload_tree_preserves_open_path_and_selection() {
    let mut state = BrowsingState::new(volume_with_two_folders());

    state.selected = 0;
    state.open_selected();
    state.selected = 2;
    assert_eq!(state.visible_items()[state.selected].name, "mp4");

    let updated = library(vec![folder(
        "/volumeD",
        "volumeD",
        vec![
            folder("/volumeD/mkv", "mkv", vec![]),
            folder("/volumeD/mp4", "mp4", vec![]),
            folder("/volumeD/avi", "avi", vec![]),
        ],
    )]);
    state.reload_tree(updated);

    assert_eq!(state.stack.len(), 1);
    assert_eq!(state.visible_items().len(), 4);
    assert_eq!(state.visible_items()[state.selected].name, "mp4");
}

#[test]
fn reload_tree_prunes_stack_when_open_folder_removed() {
    let tree = library(vec![folder("/volumeD", "volumeD", vec![folder("/volumeD/mkv", "mkv", vec![])])]);
    let mut state = BrowsingState::new(tree);

    state.open_selected();
    state.selected = 1;
    state.open_selected();
    assert_eq!(state.stack.len(), 2);

    let updated = library(vec![folder("/volumeD", "volumeD", vec![])]);
    state.reload_tree(updated);

    assert_eq!(state.stack.len(), 1);
    assert_eq!(state.stack[0], "/volumeD");
    assert_eq!(state.visible_items().len(), 1);
}

#[test]
fn activate_selected_returns_file_without_changing_stack() {
    let mkv_folder = FolderNode {
        path: "/volumeD/mkv".to_string(),
        name: "mkv".into(),
        subfolders: vec![],
        files: vec![FileNode {
            path: "/volumeD/mkv/video.mkv".to_string(),
            name: "video".into(),
            format: "MKV".into(),
            metadata: Some(FileMetadata {
                size: Some(100),
                duration_ms: Some(120_000),
                bitrate: None,
                codec: None,
                width: None,
                height: None,
                audio_track_count: None,
                subtitle_track_count: None,
            }),
        }],
        reduced_number_of_file: 1,
        reduced_size_of_files: 100,
        reduced_duration_of_files: 120_000,
    };
    let tree = library(vec![folder("/volumeD", "volumeD", vec![mkv_folder])]);
    let mut state = BrowsingState::new(tree);

    state.selected = 0;
    state.open_selected();
    state.selected = 1;
    state.open_selected();
    state.selected = 2;

    match state.activate_selected() {
        ActivateResult::PlayFile { path, name } => {
            assert_eq!(path, "/volumeD/mkv/video.mkv");
            assert_eq!(name, "video");
        }
        other => panic!("expected PlayFile, got {other:?}"),
    }
    assert_eq!(state.stack.len(), 2);
    assert_eq!(state.file_duration_ms("/volumeD/mkv/video.mkv"), Some(120_000));
}

#[test]
fn go_down_and_up_move_the_selection_within_the_rows() {
    let mut state = BrowsingState::new(two_volumes());
    assert!(!state.can_go_up());
    assert!(state.can_go_down());
    assert!(state.go_down());
    assert_eq!(state.selected, 1);
    assert!(state.visible_items()[1].selected);
    assert!(!state.visible_items()[0].selected);
    assert!(!state.go_down());
    assert_eq!(state.selected, 1);
    assert!(state.go_up());
    assert_eq!(state.selected, 0);
    assert!(!state.go_up());
}

#[test]
fn up_after_down_restores_the_rows() {
    let mut state = BrowsingState::new(volume_with_two_folders_and_e());
    let before: Vec<(String, bool)> = state.visible_items().iter().map(|i| (i.path.clone(), i.selected)).collect();
    assert!(state.go_down());
    assert!(state.go_up());
    let after: Vec<(String, bool)> = state.visible_items().iter().map(|i| (i.path.clone(), i.selected)).collect();
    assert_eq!(before, after);
}

#[test]
fn resume_labels_follow_the_stored_positions() {
    let mkv_folder = FolderNode {
        path: "/volumeD/mkv".to_string(),
        name: "mkv".into(),
        subfolders: vec![],
        files: vec![FileNode {
            path: "/volumeD/mkv/video.mkv".to_string(),
            name: "video".into(),
            format: "MKV".into(),
            metadata: Some(FileMetadata {
                size: Some(100),
                duration_ms: Some(3_700_000),
                bitrate: None,
                codec: None,
                width: None,
                height: None,
                audio_track_count: None,
                subtitle_track_count: None,
            }),
        }],
        reduced_number_of_file: 1,
        reduced_size_of_files: 100,
        reduced_duration_of_files: 3_700_000,
    };
    let tree = library(vec![folder("/volumeD", "volumeD", vec![mkv_folder])]);
    let mut state = BrowsingState::new(tree);
    state.open_selected();
    state.selected = 1;
    state.open_selected();
    state.set_resume_positions(vec![("/volumeD/mkv/video.mkv".to_string(), 3_661_000)]);
    assert_eq!(state.visible_items()[2].resume_position, "1:01:01");
    state.selected = 2;
    assert!(state.selected_file_has_resume());
    assert_eq!(state.selected_file_path(), Some("/volumeD/mkv/video.mkv".to_string()));
    state.set_resume_positions(vec![]);
    assert_eq!(state.visible_items()[2].resume_position, "");
}

#[test]
fn opening_an_open_volume_collapses_it() {
    let mut state = BrowsingState::new(volume_with_two_folders_and_e());
    state.selected = 0;
    assert!(state.open_selected());
    state.selected = 1;
    assert!(state.open_selected());
    assert_eq!(state.stack, vec!["/volumeD".to_string(), "/volumeD/mkv".to_string()]);
    state.selected = 0;
    assert!(state.open_selected());
    assert!(state.stack.is_empty());
    assert_eq!(state.visible_items().len(), 2);
    assert_eq!(state.visible_items()[state.selected].name, "volumeD");
}

#[test]
fn opening_an_open_folder_above_the_deepest_collapses_it() {
    let deep = folder("/volumeD/mkv/deep", "deep", vec![]);
    let tree = library(vec![folder(
        "/volumeD",
        "volumeD",
        vec![folder("/volumeD/mkv", "mkv", vec![deep]), folder("/volumeD/mp4", "mp4", vec![])],
    )]);
    let mut state = BrowsingState::new(tree);
    state.selected = 0;
    state.open_selected();
    state.selected = 1;
    state.open_selected();
    state.selected = 2;
    assert_eq!(state.visible_items()[2].name, "deep");
    state.open_selected();
    assert_eq!(state.stack.len(), 3);
    state.selected = 1;
    assert!(state.open_selected());
    assert_eq!(state.stack, vec!["/volumeD".to_string()]);
    assert_eq!(state.visible_items()[state.selected].name, "mkv");
    assert_eq!(state.visible_items().len(), 3);
}

#[test]
fn resume_lookup_tries_the_normalized_key_first() {
    let positions = vec![("/n/video.mkv".to_string(), 5_000), ("/p/video.mkv".to_string(), 7_000)];
    assert_eq!(resume_position_under(&positions, "/n/video.mkv", "/p/video.mkv"), Some(5_000));
    assert_eq!(resume_position_under(&positions, "/m/video.mkv", "/p/video.mkv"), Some(7_000));
    assert_eq!(resume_position_under(&positions, "/m/video.mkv", "/q/video.mkv"), None);
}

#[test]
fn resume_of_the_selected_file_under_a_given_key() {
    let mkv_folder = FolderNode {
        path: "/volumeD/mkv".to_string(),
        name: "mkv".into(),
        subfolders: vec![],
        files: vec![FileNode {
            path: "/volumeD/mkv/video.mkv".to_string(),
            name: "video".into(),
            format: "MKV".into(),
            metadata: Some(FileMetadata {
                size: Some(100),
                duration_ms: Some(3_700_000),
                bitrate: None,
                codec: None,
                width: None,
                height: None,
                audio_track_count: None,
                subtitle_track_count: None,
            }),
        }],
        reduced_number_of_file: 1,
        reduced_size_of_files: 100,
        reduced_duration_of_files: 3_700_000,
    };
    let tree = library(vec![folder("/volumeD", "volumeD", vec![mkv_folder])]);
    let mut state = BrowsingState::new(tree);
    state.open_selected();
    state.selected = 1;
    state.open_selected();
    state.set_resume_positions(vec![("/real/video.mkv".to_string(), 61_000)]);
    state.selected = 2;
    assert!(state.selected_file_has_resume_under("/real/video.mkv"));
    assert!(!state.selected_file_has_resume_under("/other/video.mkv"));
    assert!(!state.selected_file_has_resume());
    assert_eq!(state.resume_label_under("/real/video.mkv", "/volumeD/mkv/video.mkv"), "1:01");
    assert_eq!(state.resume_label_under("/other/video.mkv", "/volumeD/mkv/video.mkv"), "");
    state.selected = 1;
    assert!(!state.selected_file_has_resume_under("/real/video.mkv"));
}

#[test]
fn an_open_folder_written_another_way_is_still_open() {
    let mut state = BrowsingState::new(volume_with_two_folders_and_e());
    state.selected = 0;
    assert!(state.open_selected());
    state.stack[0] = "/volumeD/".to_string();
    state.selected = 0;
    assert!(state.open_selected());
    assert!(state.stack.is_empty());
    assert_eq!(state.visible_items()[state.selected].name, "volumeD");
}

#[test]
fn files_and_resume_positions_are_found_by_path() {
    let mkv_folder = FolderNode {
        path: "/volumeD/mkv".to_string(),
        name: "mkv".into(),
        subfolders: vec![],
        files: vec![FileNode {
            path: "/volumeD/mkv/video.mkv".to_string(),
            name: "video".into(),
            format: "MKV".into(),
            metadata: Some(FileMetadata {
                size: Some(100),
                duration_ms: Some(3_700_000),
                bitrate: None,
                codec: None,
                width: None,
                height: None,
                audio_track_count: None,
                subtitle_track_count: None,
            }),
        }],
        reduced_number_of_file: 1,
        reduced_size_of_files: 100,
        reduced_duration_of_files: 3_700_000,
    };
    let tree = library(vec![folder("/volumeD", "volumeD", vec![mkv_folder])]);
    let mut state = BrowsingState::new(tree);
    assert_eq!(state.file_duration_ms("/volumeD//mkv/./video.mkv"), Some(3_700_000));
    state.open_selected();
    state.selected = 1;
    state.open_selected();
    state.set_resume_positions(vec![("/volumeD/mkv/./video.mkv".to_string(), 61_000)]);
    state.selected = 2;
    assert!(state.selected_file_has_resume());
    assert_eq!(state.visible_items()[2].resume_position, "1:01");
}
