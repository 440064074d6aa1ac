use media_center::browsing::keys_are_unique;
use media_center::paths::{components_of, paths_equal};
use media_center::structs::{depth_within, FolderNode};

fn strings(v: &[&str]) -> Vec<String> {
    v.iter().map(|s| s.to_string()).collect()
}

#[test]
fn components_follow_the_path_rules() {
    assert_eq!(components_of("/v//a/./b/"), strings(&["/", "v", "a", "b"]));
    assert_eq!(components_of("./a/b"), strings(&[".", "a", "b"]));
    assert_eq!(components_of("a/./b/."), strings(&["a", "b"]));
    assert_eq!(components_of("/a/../b"), strings(&["/", "a", "..", "b"]));
    assert_eq!(components_of("/"), strings(&["/"]));
    assert!(components_of("").is_empty());
}

#[test]
fn paths_are_equal_by_components() {
    assert!(paths_equal("/v/", "/v"));
    assert!(paths_equal("/v//a", "/v/./a"));
    assert!(paths_equal("a/.", "a"));
    assert!(!paths_equal("./a", "a"));
    assert!(!paths_equal("/a/../b", "/b"));
    assert!(!paths_equal("/a", "a"));
    assert!(!paths_equal("/a/b", "/a/c"));
}

#[test]
fn stored_keys_must_name_distinct_paths() {
    assert!(keys_are_unique(&vec![("/v/a.mkv".to_string(), 1), ("/v/b.mkv".to_string(), 2)]));
    assert!(!keys_are_unique(&vec![("/v/a.mkv".to_string(), 1), ("/v//a.mkv".to_string(), 2)]));
    assert!(keys_are_unique(&vec![]));
}

fn chain(depth: usize) -> FolderNode {
    let mut node = FolderNode {
        path: "/leaf".to_string(),
        name: "leaf".to_string(),
        subfolders: vec![],
        files: vec![],
        reduced_number_of_file: 0,
        reduced_size_of_files: 0,
        reduced_duration_of_files: 0,
    };
    for i in 1..depth {
        node = FolderNode {
            path: format!("/n{i}"),
            name: format!("n{i}"),
            subfolders: vec![node],
            files: vec![],
            reduced_number_of_file: 0,
            reduced_size_of_files: 0,
            reduced_duration_of_files: 0,
        };
    }
    node
}

#[test]
fn depth_is_counted_from_the_root() {
    let tree = chain(3);
    assert!(depth_within(&tree, 3));
    assert!(!depth_within(&tree, 2));
    assert!(!depth_within(&tree, 0));
}
