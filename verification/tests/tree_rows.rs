use media_center::structs::{FileNode, FolderNode};
use media_center::tree_view::{
    file_to_tree_item, flatten_along_path, format_duration, format_playback_time, resume_position_to_store,
    volume_to_tree_item, TreeItem,
};

fn folder(path: &str, name: &str, subfolders: Vec<FolderNode>, files: Vec<FileNode>) -> FolderNode {
    FolderNode {
        path: path.to_string(),
        name: name.to_string(),
        subfolders,
        files,
        reduced_number_of_file: 0,
        reduced_size_of_files: 0,
        reduced_duration_of_files: 0,
    }
}

fn file(path: &str, name: &str) -> FileNode {
    FileNode { path: path.to_string(), name: name.to_string(), format: "MKV".to_string(), metadata: None }
}

fn library(volumes: Vec<FolderNode>) -> FolderNode {
    FolderNode {
        path: "/library".to_string(),
        name: String::new(),
        subfolders: volumes,
        files: vec![],
        reduced_number_of_file: 0,
        reduced_size_of_files: 0,
        reduced_duration_of_files: 0,
    }
}

fn names(items: &[TreeItem]) -> Vec<String> {
    items.iter().map(|item| item.name.to_string()).collect()
}

#[test]
fn format_duration_renders_hours_minutes_and_seconds() {
    assert_eq!(format_duration(Some(0)), "    0s");
    assert_eq!(format_duration(Some(90_000)), "  1m 30s");
    assert_eq!(format_duration(Some(3_600_000)), "  1h  0m");
    assert_eq!(format_duration(Some(5_400_000)), "  1h 30m");
}

#[test]
fn format_duration_of_long_and_unknown_durations() {
    assert_eq!(format_duration(Some(360_000_000)), " 100h");
    assert_eq!(format_duration(None), "    0s");
}

#[test]
fn playback_time_and_resume_position() {
    assert_eq!(format_playback_time(0), "0:00");
    assert_eq!(format_playback_time(65_000), "1:05");
    assert_eq!(format_playback_time(3_661_000), "1:01:01");
    assert_eq!(resume_position_to_store(0, Some(10)), None);
    assert_eq!(resume_position_to_store(10, Some(10)), None);
    assert_eq!(resume_position_to_store(9, Some(10)), Some(9));
    assert_eq!(resume_position_to_store(9, None), Some(9));
}

#[test]
fn collapsed_library_shows_volumes() {
    let tree = library(vec![
        folder("/volumeD", "volumeD", vec![], vec![]),
        folder("/volumeE", "volumeE", vec![], vec![]),
    ]);
    let mut items = Vec::new();
    flatten_along_path(&tree, &vec![], &mut items);

    assert_eq!(names(&items), vec!["volumeD", "volumeE"]);
    assert!(items.iter().all(|item| item.is_volume));
}

#[test]
fn opened_volume_shows_its_contents() {
    let tree = library(vec![
        folder(
            "/volumeD",
            "volumeD",
            vec![
                folder("/volumeD/mkv", "mkv", vec![], vec![]),
                folder("/volumeD/mp4", "mp4", vec![], vec![]),
            ],
            vec![],
        ),
        folder("/volumeE", "volumeE", vec![], vec![]),
    ]);
    let stack = vec!["/volumeD".to_string()];
    let mut items = Vec::new();
    flatten_along_path(&tree, &stack, &mut items);

    assert_eq!(names(&items), vec!["volumeD", "mkv", "mp4", "volumeE"]);
    assert!(items[0].expanded);
}

#[test]
fn expands_along_stack_and_shows_deepest_contents() {
    let tree = library(vec![folder(
        "/volumeD",
        "volumeD",
        vec![folder(
            "/volumeD/a2",
            "a2",
            vec![
                folder("/volumeD/a2/b1", "b1", vec![], vec![]),
                folder(
                    "/volumeD/a2/b5",
                    "b5",
                    vec![
                        folder("/volumeD/a2/b5/c1", "c1", vec![], vec![]),
                        folder(
                            "/volumeD/a2/b5/c3",
                            "c3",
                            vec![],
                            vec![file("/volumeD/a2/b5/c3/video.mkv", "video")],
                        ),
                        folder("/volumeD/a2/b5/c5", "c5", vec![], vec![]),
                    ],
                    vec![],
                ),
                folder("/volumeD/a2/b7", "b7", vec![], vec![]),
            ],
            vec![],
        )],
        vec![],
    )]);

    let stack = vec![
        "/volumeD".to_string(),
        "/volumeD/a2".to_string(),
        "/volumeD/a2/b5".to_string(),
        "/volumeD/a2/b5/c3".to_string(),
    ];
    let mut items = Vec::new();
    flatten_along_path(&tree, &stack, &mut items);

    assert_eq!(names(&items), vec!["volumeD", "a2", "b1", "b5", "c1", "c3", "video", "c5", "b7"]);
}

#[test]
fn rows_carry_the_totals_and_file_details() {
    let mut vol = folder("/volumeD", "volumeD", vec![], vec![]);
    vol.reduced_number_of_file = 3;
    vol.reduced_size_of_files = 512;
    vol.reduced_duration_of_files = 90_000;
    let row = volume_to_tree_item(&vol, true, false);
    assert_eq!(row.format, "volume");
    assert_eq!(row.nb_files, 3);
    assert_eq!(row.files_size_octets, 512);
    assert_eq!(row.files_duration, "  1m 30s");
    assert!(row.is_volume && row.expanded && !row.selected);
    let f = file_to_tree_item(&file("/volumeD/x.mkv", "x"), 2, true);
    assert_eq!(f.codec, "MKV");
    assert_eq!(f.indent, 2);
    assert_eq!(f.bitrate_bps, None);
    assert!(f.selected && !f.is_folder);
}
