use media_center::library::{
    collect_video_paths, empty_library_root, finalize_tree, probe_library, scan_volume_library, subtree_totals,
    totals_fit, try_probe_library, try_scan_volume_library,
};
use media_center::paths::collect_tree_file_paths;
use media_center::probe::VideoProbe;
use media_center::scan::{assemble_tree, scan_tree, try_scan_tree, ScanError, WalkEntry};
use media_center::structs::FolderNode;

fn dir(path: &str) -> WalkEntry {
    let name = path.rsplit('/').next().unwrap().to_string();
    WalkEntry { path: path.to_string(), name, is_dir: true, size: None }
}

fn file(path: &str, size: u64) -> WalkEntry {
    let name = path.rsplit('/').next().unwrap().to_string();
    WalkEntry { path: path.to_string(), name, is_dir: false, size: Some(size) }
}

fn walk() -> Vec<WalkEntry> {
    vec![
        dir("/vol"),
        file("/vol/Zed.mkv", 10),
        dir("/vol/b"),
        file("/vol/b/clip.MP4", 20),
        file("/vol/b/notes.txt", 5),
        dir("/vol/a"),
        dir("/vol/a/empty"),
        file("/vol/a/._hidden.mkv", 1),
        file("/vol/alpha.avi", 30),
    ]
}

fn names(f: &FolderNode) -> Vec<String> {
    f.subfolders.iter().map(|s| s.name.clone()).collect()
}

#[test]
fn walk_becomes_a_tree_of_videos() {
    let raw = assemble_tree("/vol", &walk()).unwrap();
    assert_eq!(raw.files.len(), 2);
    assert_eq!(raw.subfolders.len(), 2);
    let tree = scan_tree("/vol", &walk()).unwrap();
    assert_eq!(tree.name, "vol");
    assert_eq!(tree.files.iter().map(|f| f.name.as_str()).collect::<Vec<_>>(), vec!["alpha", "Zed"]);
    assert_eq!(tree.files[0].format, "AVI");
    assert_eq!(names(&tree), vec!["a", "b"]);
    assert_eq!(tree.subfolders[1].files[0].name, "clip");
    assert_eq!(tree.subfolders[1].files[0].format, "MP4");
    assert_eq!(tree.reduced_number_of_file, 3);
    assert_eq!(tree.reduced_size_of_files, 60);
}

#[test]
fn walk_without_its_root_gives_nothing() {
    assert!(assemble_tree("/other", &walk()).is_none());
    assert!(scan_tree("/other", &walk()).is_none());
}

#[test]
fn files_reported_before_their_folder_are_lost() {
    let entries = vec![dir("/vol"), file("/vol/a/x.mkv", 1), dir("/vol/a"), file("/vol/a/y.mkv", 1)];
    let raw = assemble_tree("/vol", &entries).unwrap();
    assert_eq!(raw.subfolders[0].files.len(), 1);
    assert_eq!(raw.subfolders[0].files[0].name, "y");
}

#[test]
fn file_names_split_at_the_last_dot() {
    let tree = assemble_tree("/v", &vec![dir("/v"), file("/v/my.movie.mkv", 3), file("/v/noext", 3)]).unwrap();
    assert_eq!(tree.files.len(), 1);
    assert_eq!(tree.files[0].name, "my.movie");
    assert_eq!(tree.files[0].format, "MKV");
    assert_eq!(tree.files[0].metadata.as_ref().unwrap().size, Some(3));
}

#[test]
fn volumes_are_renamed_and_empty_ones_dropped() {
    let d = scan_tree("/vol", &walk()).unwrap();
    let e = assemble_tree("/e", &vec![dir("/e")]).unwrap();
    let lib = scan_volume_library("/w", vec![("volumeD".to_string(), d), ("volumeE".to_string(), e)]);
    assert_eq!(lib.name, "root");
    assert_eq!(lib.path, "/w");
    assert_eq!(names(&lib), vec!["volumeD"]);
    assert_eq!(lib.reduced_number_of_file, 3);
}

#[test]
fn probing_drops_short_clips_and_refreshes_totals() {
    let mut tree = scan_tree("/vol", &walk()).unwrap();
    let mut paths = Vec::new();
    collect_video_paths(&tree, &mut paths);
    assert_eq!(paths.len(), 3);
    let short = VideoProbe { duration_ms: Some(500), ..VideoProbe::empty() };
    let long = VideoProbe { duration_ms: Some(120_000), codec: Some("H264".to_string()), ..VideoProbe::empty() };
    let probes = vec![("/vol/Zed.mkv".to_string(), short), ("/vol/b/clip.MP4".to_string(), long)];
    probe_library(&mut tree, &probes);
    assert_eq!(tree.reduced_number_of_file, 2);
    assert_eq!(tree.reduced_duration_of_files, 120_000);
    assert_eq!(tree.files.iter().map(|f| f.name.as_str()).collect::<Vec<_>>(), vec!["alpha"]);
    assert_eq!(collect_tree_file_paths(&tree), vec!["/vol/alpha.avi".to_string(), "/vol/b/clip.MP4".to_string()]);
}

#[test]
fn finishing_a_tree_keeps_its_totals() {
    let mut tree = assemble_tree("/vol", &walk()).unwrap();
    let before = subtree_totals(&tree);
    assert!(totals_fit(&tree));
    finalize_tree(&mut tree);
    assert_eq!(subtree_totals(&tree), before);
    assert_eq!(before, Some((3, 60, 0)));
    let copy = tree.deep_copy();
    assert_eq!(copy.subfolders.len(), tree.subfolders.len());
}

#[test]
fn empty_root_before_the_first_scan() {
    let root = empty_library_root("/w");
    assert_eq!(root.name, "root");
    assert_eq!(root.path, "/w");
    assert!(root.subfolders.is_empty() && root.files.is_empty());
}

#[test]
fn empty_directories_become_folders() {
    let tree = scan_tree("/vol", &walk()).unwrap();
    let a = &tree.subfolders[0];
    assert_eq!(a.name, "a");
    assert!(a.files.is_empty());
    assert_eq!(names(a), vec!["empty"]);
    assert_eq!(a.subfolders[0].path, "/vol/a/empty");
    assert!(a.subfolders[0].subfolders.is_empty() && a.subfolders[0].files.is_empty());
    assert_eq!(a.reduced_number_of_file, 0);
}

#[test]
fn checked_scan_reports_a_missing_root_or_totals_too_large() {
    assert_eq!(try_scan_tree("/other", &walk()).unwrap_err(), ScanError::RootMissing);
    let tree = try_scan_tree("/vol", &walk()).unwrap();
    assert_eq!(tree.reduced_number_of_file, 3);
    let huge = vec![dir("/h"), file("/h/a.mkv", u64::MAX), file("/h/b.mkv", 1)];
    assert_eq!(try_scan_tree("/h", &huge).unwrap_err(), ScanError::TooLarge);
}

#[test]
fn checked_volume_library_refuses_totals_too_large() {
    let d = scan_tree("/d", &vec![dir("/d"), file("/d/a.mkv", u64::MAX)]).unwrap();
    let e = scan_tree("/e", &vec![dir("/e"), file("/e/b.mkv", 1)]).unwrap();
    assert!(try_scan_volume_library("/w", vec![("volumeD".to_string(), d), ("volumeE".to_string(), e)]).is_none());
    let d = scan_tree("/vol", &walk()).unwrap();
    let lib = try_scan_volume_library("/w", vec![("volumeD".to_string(), d)]).unwrap();
    assert_eq!(names(&lib), vec!["volumeD"]);
    assert_eq!(lib.reduced_number_of_file, 3);
}

#[test]
fn checked_probing_refuses_totals_too_large() {
    let mut tree = scan_tree("/vol", &walk()).unwrap();
    let long = VideoProbe { duration_ms: Some(u64::MAX), ..VideoProbe::empty() };
    let probes = vec![("/vol/Zed.mkv".to_string(), long.clone()), ("/vol/alpha.avi".to_string(), long)];
    assert!(!try_probe_library(&mut tree, &probes));
    let mut tree = scan_tree("/vol", &walk()).unwrap();
    let short = VideoProbe { duration_ms: Some(500), ..VideoProbe::empty() };
    assert!(try_probe_library(&mut tree, &vec![("/vol/Zed.mkv".to_string(), short)]));
    assert_eq!(tree.reduced_number_of_file, 2);
    assert_eq!(names(&tree), vec!["a", "b"]);
}

#[test]
fn probes_are_matched_to_files_by_path() {
    let mut tree = scan_tree("/vol", &walk()).unwrap();
    let short = VideoProbe { duration_ms: Some(500), ..VideoProbe::empty() };
    probe_library(&mut tree, &vec![("/vol/./Zed.mkv".to_string(), short)]);
    assert_eq!(tree.files.iter().map(|f| f.name.as_str()).collect::<Vec<_>>(), vec!["alpha"]);
}
