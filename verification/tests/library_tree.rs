use media_center::library::{compute_reduced_stats, is_valid_video, prune_empty_subfolders};
use media_center::structs::{FileMetadata, FileNode, FolderNode};

fn file_with_stats(path: &str, size: u64, duration_ms: u64) -> FileNode {
    FileNode {
        path: path.to_string(),
        name: "video".to_string(),
        format: "MKV".to_string(),
        metadata: Some(FileMetadata {
            size: Some(size),
            duration_ms: Some(duration_ms),
            bitrate: None,
            codec: None,
            width: None,
            height: None,
            audio_track_count: None,
            subtitle_track_count: None,
        }),
    }
}

fn folder(path: &str, subfolders: Vec<FolderNode>, files: Vec<FileNode>) -> FolderNode {
    let name = path.rsplit('/').next().filter(|s| !s.is_empty()).unwrap_or(path).to_string();
    FolderNode {
        path: path.to_string(),
        name,
        subfolders,
        files,
        reduced_number_of_file: 0,
        reduced_size_of_files: 0,
        reduced_duration_of_files: 0,
    }
}

fn folder_node(path: &str, name: &str) -> FolderNode {
    FolderNode {
        path: path.to_string(),
        name: name.to_string(),
        subfolders: vec![],
        files: vec![],
        reduced_number_of_file: 0,
        reduced_size_of_files: 0,
        reduced_duration_of_files: 0,
    }
}

fn file_node(path: &str, name: &str) -> FileNode {
    FileNode {
        path: path.to_string(),
        name: name.to_string(),
        format: "MKV".to_string(),
        metadata: None,
    }
}

#[test]
fn reduced_stats_sums_files_and_subfolders() {
    let mut tree = folder(
        "/volumeD",
        vec![folder(
            "/volumeD/movies",
            vec![],
            vec![
                file_with_stats("/volumeD/movies/a.mkv", 100, 60_000),
                file_with_stats("/volumeD/movies/b.mkv", 250, 120_000),
            ],
        )],
        vec![file_with_stats("/volumeD/root.mkv", 50, 30_000)],
    );

    compute_reduced_stats(&mut tree);

    assert_eq!(tree.reduced_number_of_file, 3);
    assert_eq!(tree.reduced_size_of_files, 400);
    assert_eq!(tree.reduced_duration_of_files, 210_000);
    assert_eq!(tree.subfolders[0].reduced_number_of_file, 2);
    assert_eq!(tree.subfolders[0].reduced_size_of_files, 350);
    assert_eq!(tree.subfolders[0].reduced_duration_of_files, 180_000);
}

#[test]
fn empty_folder_has_zero_reduced_stats() {
    let mut tree = folder("/empty", vec![], vec![]);
    compute_reduced_stats(&mut tree);
    assert_eq!(tree.reduced_number_of_file, 0);
    assert_eq!(tree.reduced_size_of_files, 0);
    assert_eq!(tree.reduced_duration_of_files, 0);
}

#[test]
fn sort_children_orders_folders_and_files_alphabetically() {
    let mut tree = FolderNode {
        path: "/vol".to_string(),
        name: "vol".into(),
        subfolders: vec![folder_node("/vol/zebra", "zebra"), folder_node("/vol/alpha", "alpha")],
        files: vec![
            file_node("/vol/wed.mkv", "wed"),
            file_node("/vol/Mon.mkv", "Mon"),
            file_node("/vol/abc.mkv", "abc"),
        ],
        reduced_number_of_file: 0,
        reduced_size_of_files: 0,
        reduced_duration_of_files: 0,
    };

    tree.sort_children();

    assert_eq!(
        tree.subfolders.iter().map(|f| f.name.as_str()).collect::<Vec<_>>(),
        vec!["alpha", "zebra"]
    );
    assert_eq!(
        tree.files.iter().map(|f| f.name.as_str()).collect::<Vec<_>>(),
        vec!["abc", "Mon", "wed"]
    );
}

#[test]
fn is_valid_video_rejects_short_clips_and_keeps_unknown_duration() {
    assert!(!is_valid_video(&file_with_stats("/a.mkv", 1, 999)));
    assert!(is_valid_video(&file_with_stats("/b.mkv", 1, 1000)));
    assert!(is_valid_video(&file_node("/c.mkv", "c")));
}

#[test]
fn prune_empty_subfolders_removes_folders_without_valid_videos() {
    let mut tree = folder(
        "/volumeD",
        vec![
            folder("/volumeD/empty", vec![], vec![]),
            folder(
                "/volumeD/movies",
                vec![],
                vec![file_with_stats("/volumeD/movies/full.mkv", 100, 60_000)],
            ),
        ],
        vec![],
    );
    compute_reduced_stats(&mut tree);
    prune_empty_subfolders(&mut tree);

    assert_eq!(tree.subfolders.len(), 1);
    assert_eq!(tree.subfolders[0].name, "movies");
    assert_eq!(tree.reduced_number_of_file, 1);
}
