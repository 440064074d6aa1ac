//! Folder browsing: the open path through the library tree, the flat list of rows it
//! shows, and the selection in that list.

use vstd::prelude::*;
use crate::structs::{FileNode, FolderNode, tree_depth, lemma_child_smaller};
use crate::tree_view::{
    TreeItem, RowSrc, row_shape, flat_rows, paths_view, appended_rows, flatten_along_path,
    format_playback_time, spec_format_playback_time, resume_position_to_store,
    spec_resume_position_to_store, file_duration_opt,
};
use crate::paths::{normalize_path, is_canonical_form, same_path, paths_equal};
use crate::text::str_eq;

verus! {

/// What activating the selected row did.
#[derive(Debug, Clone)]
pub enum ActivateResult {
    /// Nothing could be opened.
    Nothing,
    /// A volume or folder was opened (or closed).
    OpenedFolder,
    /// The selection is a video file, to be played.
    PlayFile { path: String, name: String },
}

// ------------------------------------------------------------------ searching the tree

/// The first of the first `n` files whose path is the same path as `p`.
pub open spec fn find_in_files(s: Seq<FileNode>, n: int, p: Seq<char>) -> Option<FileNode>
    decreases n,
{
    if n <= 0 || n > s.len() {
        None
    } else {
        match find_in_files(s, n - 1, p) {
            Some(f) => Some(f),
            None => if same_path(s[n - 1].path@, p) {
                Some(s[n - 1])
            } else {
                None
            },
        }
    }
}

/// The first file with path `p` in the subtree of `f`: its own files first, then its
/// subfolders in order.
pub open spec fn find_in_folder(f: FolderNode, p: Seq<char>) -> Option<FileNode>
    decreases f, 0int,
{
    match find_in_files(f.files@, f.files@.len() as int, p) {
        Some(x) => Some(x),
        None => find_in_folders(f.subfolders@, f.subfolders@.len() as int, p),
    }
}

pub open spec fn find_in_folders(s: Seq<FolderNode>, n: int, p: Seq<char>) -> Option<FileNode>
    decreases s, n,
{
    if n <= 0 || n > s.len() {
        None
    } else {
        match find_in_folders(s, n - 1, p) {
            Some(x) => Some(x),
            None => find_in_folder(s[n - 1], p),
        }
    }
}

/// The first file with path `p` under the volumes of the library.
pub open spec fn spec_find_file(tree: FolderNode, p: Seq<char>) -> Option<FileNode> {
    find_in_folders(tree.subfolders@, tree.subfolders@.len() as int, p)
}

/// The recorded duration of the file with path `p`.
pub open spec fn duration_of(tree: FolderNode, p: Seq<char>) -> Option<u64> {
    match spec_find_file(tree, p) {
        Some(f) => file_duration_opt(f),
        None => None,
    }
}

/// The chain of folder paths from `f` down to the first folder (depth first) whose path
/// is the same path as `t`.
pub open spec fn chain_to(f: FolderNode, t: Seq<char>) -> Option<Seq<Seq<char>>>
    decreases f, 0int,
{
    if same_path(f.path@, t) {
        Some(seq![f.path@])
    } else {
        match chain_in(f.subfolders@, f.subfolders@.len() as int, t) {
            Some(c) => Some(seq![f.path@] + c),
            None => None,
        }
    }
}

pub open spec fn chain_in(s: Seq<FolderNode>, n: int, t: Seq<char>) -> Option<Seq<Seq<char>>>
    decreases s, n,
{
    if n <= 0 || n > s.len() {
        None
    } else {
        match chain_in(s, n - 1, t) {
            Some(c) => Some(c),
            None => chain_to(s[n - 1], t),
        }
    }
}

/// The open path that shows the folder `t`: from its volume down to it.
pub open spec fn stack_for(library: FolderNode, t: Seq<char>) -> Option<Seq<Seq<char>>> {
    chain_in(library.subfolders@, library.subfolders@.len() as int, t)
}

/// A stack after the tree changed: its deepest entry that still exists, re-rooted.
pub open spec fn pruned_stack(tree: FolderNode, st: Seq<Seq<char>>) -> Seq<Seq<char>>
    decreases st.len(),
{
    if st.len() == 0 {
        st
    } else {
        match stack_for(tree, st.last()) {
            Some(c) => c,
            None => pruned_stack(tree, st.drop_last()),
        }
    }
}

pub proof fn lemma_find_in_files_stable(s: Seq<FileNode>, k: int, n: int, p: Seq<char>)
    requires
        0 <= k <= n <= s.len(),
        find_in_files(s, k, p) is Some,
    ensures
        find_in_files(s, n, p) == find_in_files(s, k, p),
    decreases n,
{
    if k < n {
        lemma_find_in_files_stable(s, k, n - 1, p);
    }
}

pub proof fn lemma_find_in_folders_stable(s: Seq<FolderNode>, k: int, n: int, p: Seq<char>)
    requires
        0 <= k <= n <= s.len(),
        find_in_folders(s, k, p) is Some,
    ensures
        find_in_folders(s, n, p) == find_in_folders(s, k, p),
    decreases n,
{
    if k < n {
        lemma_find_in_folders_stable(s, k, n - 1, p);
    }
}

pub proof fn lemma_chain_in_stable(s: Seq<FolderNode>, k: int, n: int, t: Seq<char>)
    requires
        0 <= k <= n <= s.len(),
        chain_in(s, k, t) is Some,
    ensures
        chain_in(s, n, t) == chain_in(s, k, t),
    decreases n,
{
    if k < n {
        lemma_chain_in_stable(s, k, n - 1, t);
    }
}

fn find_file_in_folder<'a>(folder: &'a FolderNode, path: &str) -> (r: Option<&'a FileNode>)
    ensures
        match r {
            Some(x) => find_in_folder(*folder, path@) == Some(*x),
            None => find_in_folder(*folder, path@) is None,
        },
    decreases *folder,
{
    let mut i: usize = 0;
    while i < folder.files.len()
        invariant
            0 <= i <= folder.files@.len(),
            find_in_files(folder.files@, i as int, path@) is None,
        decreases folder.files@.len() - i,
    {
        if paths_equal(folder.files[i].path.as_str(), path) {
            proof {
                lemma_find_in_files_stable(folder.files@, i + 1, folder.files@.len() as int, path@);
            }
            return Some(&folder.files[i]);
        }
        i = i + 1;
    }
    let mut j: usize = 0;
    while j < folder.subfolders.len()
        invariant
            0 <= j <= folder.subfolders@.len(),
            find_in_files(folder.files@, folder.files@.len() as int, path@) is None,
            find_in_folders(folder.subfolders@, j as int, path@) is None,
        decreases folder.subfolders@.len() - j,
    {
        proof {
            lemma_child_smaller(*folder, j as int);
        }
        match find_file_in_folder(&folder.subfolders[j], path) {
            Some(f) => {
                proof {
                    lemma_find_in_folders_stable(folder.subfolders@, j + 1, folder.subfolders@.len() as int, path@);
                }
                return Some(f);
            },
            None => {},
        }
        j = j + 1;
    }
    None
}

fn find_file<'a>(tree: &'a FolderNode, path: &str) -> (r: Option<&'a FileNode>)
    ensures
        match r {
            Some(x) => spec_find_file(*tree, path@) == Some(*x),
            None => spec_find_file(*tree, path@) is None,
        },
{
    let mut j: usize = 0;
    while j < tree.subfolders.len()
        invariant
            0 <= j <= tree.subfolders@.len(),
            find_in_folders(tree.subfolders@, j as int, path@) is None,
        decreases tree.subfolders@.len() - j,
    {
        match find_file_in_folder(&tree.subfolders[j], path) {
            Some(f) => {
                proof {
                    lemma_find_in_folders_stable(tree.subfolders@, j + 1, tree.subfolders@.len() as int, path@);
                }
                return Some(f);
            },
            None => {},
        }
        j = j + 1;
    }
    None
}

fn build_stack_recursive(node: &FolderNode, target: &str, stack: &mut Vec<String>) -> (r: bool)
    ensures
        r == chain_to(*node, target@) is Some,
        r ==> paths_view(final(stack)@) == paths_view(old(stack)@) + chain_to(*node, target@)->0,
        !r ==> final(stack)@ == old(stack)@,
    decreases *node,
{
    let ghost s0 = stack@;
    stack.push(node.path.clone());
    assert(paths_view(stack@) == paths_view(s0) + seq![node.path@]);
    if paths_equal(node.path.as_str(), target) {
        assert(chain_to(*node, target@) == Some(seq![node.path@]));
        return true;
    }
    let mut i: usize = 0;
    while i < node.subfolders.len()
        invariant
            0 <= i <= node.subfolders@.len(),
            !same_path(node.path@, target@),
            s0 == old(stack)@,
            stack@ == s0.push(node.path),
            paths_view(stack@) == paths_view(s0) + seq![node.path@],
            chain_in(node.subfolders@, i as int, target@) is None,
        decreases node.subfolders@.len() - i,
    {
        proof {
            lemma_child_smaller(*node, i as int);
        }
        let ghost before = stack@;
        if build_stack_recursive(&node.subfolders[i], target, stack) {
            assert(paths_view(stack@) == paths_view(before) + chain_to(node.subfolders@[i as int], target@)->0);
            proof {
                assert(chain_in(node.subfolders@, i + 1, target@) == chain_to(node.subfolders@[i as int], target@));
                lemma_chain_in_stable(node.subfolders@, i + 1, node.subfolders@.len() as int, target@);
                assert(chain_to(*node, target@) == Some(seq![node.path@] + chain_to(node.subfolders@[i as int], target@)->0));
            }
            assert(paths_view(s0) + seq![node.path@] + chain_to(node.subfolders@[i as int], target@)->0
                == paths_view(s0) + (seq![node.path@] + chain_to(node.subfolders@[i as int], target@)->0));
            return true;
        }
        i = i + 1;
    }
    stack.pop();
    assert(stack@ == s0);
    false
}

fn stack_for_folder(library: &FolderNode, target: &str) -> (r: Option<Vec<String>>)
    ensures
        match r {
            Some(v) => stack_for(*library, target@) == Some(paths_view(v@)),
            None => stack_for(*library, target@) is None,
        },
{
    let mut i: usize = 0;
    while i < library.subfolders.len()
        invariant
            0 <= i <= library.subfolders@.len(),
            chain_in(library.subfolders@, i as int, target@) is None,
        decreases library.subfolders@.len() - i,
    {
        let mut stack: Vec<String> = Vec::new();
        if build_stack_recursive(&library.subfolders[i], target, &mut stack) {
            proof {
                lemma_chain_in_stable(library.subfolders@, i + 1, library.subfolders@.len() as int, target@);
            }
            assert(paths_view(Seq::<String>::empty()) + chain_to(library.subfolders@[i as int], target@)->0
                == chain_to(library.subfolders@[i as int], target@)->0);
            return Some(stack);
        }
        i = i + 1;
    }
    None
}

fn prune_stack(tree: &FolderNode, stack: &mut Vec<String>)
    ensures
        paths_view(final(stack)@) == pruned_stack(*tree, paths_view(old(stack)@)),
{
    while stack.len() > 0
        invariant
            pruned_stack(*tree, paths_view(stack@)) == pruned_stack(*tree, paths_view(old(stack)@)),
        decreases stack@.len(),
    {
        let n = stack.len();
        let found = stack_for_folder(tree, stack[n - 1].as_str());
        assert(paths_view(stack@).last() == stack@[n - 1]@);
        match found {
            Some(valid) => {
                *stack = valid;
                return;
            },
            None => {},
        }
        let ghost before = stack@;
        stack.pop();
        assert(paths_view(stack@) == paths_view(before).drop_last());
    }
}

/// The position of the first entry of `st` from `i` on that is the same path as `t`, or -1.
pub open spec fn stack_index(st: Seq<Seq<char>>, t: Seq<char>, i: int) -> int
    decreases st.len() - i,
{
    if i < 0 || i >= st.len() {
        -1
    } else if same_path(st[i], t) {
        i
    } else {
        stack_index(st, t, i + 1)
    }
}

proof fn lemma_stack_index(st: Seq<Seq<char>>, t: Seq<char>, i: int, k: int)
    requires
        0 <= i <= k <= st.len(),
        forall|j: int| i <= j < k ==> !same_path(st[j], t),
    ensures
        k < st.len() && same_path(st[k], t) ==> stack_index(st, t, i) == k,
        k == st.len() ==> stack_index(st, t, i) == -1,
    decreases k - i,
{
    if i < k {
        lemma_stack_index(st, t, i + 1, k);
    }
}

// ------------------------------------------------------------------ resume positions

/// The value of the first entry whose key is the same path as `k`.
pub open spec fn map_get(s: Seq<(String, u64)>, k: Seq<char>) -> Option<u64>
    decreases s.len(),
{
    if s.len() == 0 {
        None
    } else if same_path(s[0].0@, k) {
        Some(s[0].1)
    } else {
        map_get(s.subrange(1, s.len() as int), k)
    }
}

/// No two entries have keys that are the same path, as the keys of a map by path.
pub open spec fn keys_unique(s: Seq<(String, u64)>) -> bool {
    forall|i: int, j: int| 0 <= i < j < s.len() ==> !same_path(#[trigger] s[i].0@, #[trigger] s[j].0@)
}

/// Whether no two entries have keys that are the same path.
pub fn keys_are_unique(entries: &Vec<(String, u64)>) -> (r: bool)
    ensures
        r == keys_unique(entries@),
{
    let n = entries.len();
    let mut j: usize = 0;
    while j < n
        invariant
            n == entries@.len(),
            0 <= j <= n,
            forall|a: int, b: int| 0 <= a < b < j ==> !same_path(#[trigger] entries@[a].0@, #[trigger] entries@[b].0@),
        decreases n - j,
    {
        let mut i: usize = 0;
        while i < j
            invariant
                n == entries@.len(),
                0 <= i <= j < n,
                forall|a: int, b: int| 0 <= a < b < j ==> !same_path(#[trigger] entries@[a].0@, #[trigger] entries@[b].0@),
                forall|a: int| 0 <= a < i ==> !same_path(#[trigger] entries@[a].0@, entries@[j as int].0@),
            decreases j - i,
        {
            if paths_equal(entries[i].0.as_str(), entries[j].0.as_str()) {
                return false;
            }
            i = i + 1;
        }
        j = j + 1;
    }
    true
}

/// Whether the positions hold an entry under the same path as `k`.
pub open spec fn stored_under(pos: Seq<(String, u64)>, k: Seq<char>) -> bool {
    map_get(pos, k) is Some
}

/// The resume position of a path, looked up under its normalized form `n` first.
pub open spec fn resume_for(pos: Seq<(String, u64)>, n: Seq<char>, p: Seq<char>) -> Option<u64> {
    match map_get(pos, n) {
        Some(v) => Some(v),
        None => map_get(pos, p),
    }
}

/// The resume label of a file row: the stored position, when it is worth resuming from.
pub open spec fn resume_label(pos: Seq<(String, u64)>, tree: FolderNode, n: Seq<char>, p: Seq<char>) -> Seq<char> {
    match resume_for(pos, n, p) {
        Some(ms) => match spec_resume_position_to_store(ms, duration_of(tree, p)) {
            Some(x) => spec_format_playback_time(x),
            None => Seq::<char>::empty(),
        },
        None => Seq::<char>::empty(),
    }
}

/// `n` can be the normalized form of path `p`: `p` itself, or an absolute path with no
/// `.` or `..` component.
pub open spec fn normal_key(n: Seq<char>, p: Seq<char>) -> bool {
    n == p || is_canonical_form(n)
}

/// Folder rows carry no resume label; a file row carries the label of its position,
/// looked up under the normalized form of its path.
pub open spec fn label_ok(item: TreeItem, pos: Seq<(String, u64)>, tree: FolderNode) -> bool {
    if item.is_folder || item.is_volume {
        item.resume_position@ == Seq::<char>::empty()
    } else {
        exists|n: Seq<char>|
            normal_key(n, item.path@) && #[trigger] resume_label(pos, tree, n, item.path@) == item.resume_position@
    }
}

fn map_lookup(positions: &Vec<(String, u64)>, key: &str) -> (r: Option<u64>)
    ensures
        r == map_get(positions@, key@),
{
    let mut i: usize = 0;
    assert(positions@.subrange(0, positions@.len() as int) == positions@);
    while i < positions.len()
        invariant
            0 <= i <= positions@.len(),
            map_get(positions@.subrange(i as int, positions@.len() as int), key@) == map_get(positions@, key@),
        decreases positions@.len() - i,
    {
        let ghost rest = positions@.subrange(i as int, positions@.len() as int);
        assert(rest[0] == positions@[i as int]);
        if paths_equal(positions[i].0.as_str(), key) {
            return Some(positions[i].1);
        }
        assert(rest.subrange(1, rest.len() as int) == positions@.subrange(i + 1, positions@.len() as int));
        i = i + 1;
    }
    None
}

/// The stored position of `path`, looked up under its normalized form `normalized`
/// first and under `path` itself next.
pub fn resume_position_under(positions: &Vec<(String, u64)>, normalized: &str, path: &str) -> (r: Option<u64>)
    ensures
        r == resume_for(positions@, normalized@, path@),
{
    match map_lookup(positions, normalized) {
        Some(v) => Some(v),
        None => map_lookup(positions, path),
    }
}

fn resume_position_for(positions: &Vec<(String, u64)>, path: &str) -> (r: Option<u64>)
    ensures
        exists|n: Seq<char>| normal_key(n, path@) && r == #[trigger] resume_for(positions@, n, path@),
{
    let normalized = normalize_path(path);
    let r = resume_position_under(positions, normalized.as_str(), path);
    assert(normal_key(normalized@, path@) && r == resume_for(positions@, normalized@, path@));
    r
}

// ------------------------------------------------------------------ state

/// The browsing state: the library tree, the open path and the selected row.
#[derive(Debug)]
pub struct BrowsingState {
    pub tree: FolderNode,
    /// Open path: the volume and folders entered, outermost first.
    pub stack: Vec<String>,
    /// Index into the visible rows.
    pub selected: usize,
    /// The rows on screen; kept in step with `tree` and `stack` by the methods.
    pub visible: Vec<TreeItem>,
    /// Stored resume positions by normalized path.
    pub resume_positions: Vec<(String, u64)>,
}

/// Every row is the one that `rows` describes.
pub open spec fn shows(items: Seq<TreeItem>, rows: Seq<RowSrc>) -> bool {
    &&& items.len() == rows.len()
    &&& forall|i: int| 0 <= i < items.len() ==> row_shape(#[trigger] items[i], rows[i])
}

/// Exactly the row at `sel` is marked selected.
pub open spec fn selection_marked(items: Seq<TreeItem>, sel: usize) -> bool {
    forall|i: int| 0 <= i < items.len() ==> (#[trigger] items[i]).selected == (i == sel)
}

/// The selection is a row of the list, or 0 for an empty list.
pub open spec fn selection_in_range(len: nat, sel: usize) -> bool {
    if len == 0 {
        sel == 0
    } else {
        sel < len
    }
}

pub open spec fn labels_ok(items: Seq<TreeItem>, pos: Seq<(String, u64)>, tree: FolderNode) -> bool {
    forall|i: int| 0 <= i < items.len() ==> label_ok(#[trigger] items[i], pos, tree)
}

/// The selection clamped to the list: `min(sel, len - 1)`, or 0 for an empty list.
pub open spec fn clamp_selection(sel: usize, len: nat) -> usize {
    if len == 0 {
        0
    } else if sel < len {
        sel
    } else {
        (len - 1) as usize
    }
}

/// Index of the first row with path `p`, or -1.
pub open spec fn first_row_with_path(items: Seq<TreeItem>, p: Seq<char>) -> int
    decreases items.len(),
{
    if items.len() == 0 {
        -1
    } else if items[0].path@ == p {
        0
    } else {
        let r = first_row_with_path(items.subrange(1, items.len() as int), p);
        if r < 0 {
            -1
        } else {
            r + 1
        }
    }
}

/// Index of the first row with path `p`, or 0 when there is none.
pub open spec fn row_index_of(items: Seq<TreeItem>, p: Seq<char>) -> int {
    let k = first_row_with_path(items, p);
    if k < 0 {
        0
    } else {
        k
    }
}

pub proof fn lemma_first_row_with_path(items: Seq<TreeItem>, p: Seq<char>)
    ensures
        -1 <= first_row_with_path(items, p) < items.len(),
        first_row_with_path(items, p) >= 0 ==> items[first_row_with_path(items, p)].path@ == p,
        forall|j: int|
            0 <= j < items.len() && (first_row_with_path(items, p) < 0 || j < first_row_with_path(items, p))
                ==> (#[trigger] items[j]).path@ != p,
    decreases items.len(),
{
    if items.len() > 0 && items[0].path@ != p {
        let t = items.subrange(1, items.len() as int);
        lemma_first_row_with_path(t, p);
        assert forall|j: int|
            0 <= j < items.len() && (first_row_with_path(items, p) < 0 || j < first_row_with_path(items, p))
                implies (#[trigger] items[j]).path@ != p by {
            if j > 0 {
                assert(items[j] == t[j - 1]);
            }
        }
    }
}

/// Two lists that differ at most in their selection flags.
pub open spec fn same_except_selection(a: Seq<TreeItem>, b: Seq<TreeItem>) -> bool {
    &&& a.len() == b.len()
    &&& forall|i: int|
        0 <= i < a.len() ==> (TreeItem { selected: false, ..#[trigger] a[i] }) == (TreeItem {
            selected: false,
            ..b[i]
        })
}

/// Two lists that differ at most in their resume labels.
pub open spec fn same_except_labels(a: Seq<TreeItem>, b: Seq<TreeItem>) -> bool {
    &&& a.len() == b.len()
    &&& forall|i: int|
        0 <= i < a.len() ==> (TreeItem { resume_position: b[i].resume_position, ..#[trigger] a[i] })
            == b[i]
}

pub proof fn lemma_selection_change_keeps(a: Seq<TreeItem>, b: Seq<TreeItem>, rows: Seq<RowSrc>, pos: Seq<(String, u64)>, tree: FolderNode)
    requires
        same_except_selection(a, b),
    ensures
        shows(a, rows) ==> shows(b, rows),
        labels_ok(a, pos, tree) ==> labels_ok(b, pos, tree),
{
    assert forall|i: int| 0 <= i < a.len() implies #[trigger] b[i] == (TreeItem { selected: b[i].selected, ..a[i] }) by {
        assert((TreeItem { selected: false, ..a[i] }) == (TreeItem { selected: false, ..b[i] }));
    }
    if shows(a, rows) {
        assert forall|i: int| 0 <= i < b.len() implies row_shape(#[trigger] b[i], rows[i]) by {
            assert(row_shape(a[i], rows[i]));
        }
    }
    if labels_ok(a, pos, tree) {
        assert forall|i: int| 0 <= i < b.len() implies label_ok(#[trigger] b[i], pos, tree) by {
            assert(label_ok(a[i], pos, tree));
        }
    }
}

pub proof fn lemma_label_change_keeps(a: Seq<TreeItem>, b: Seq<TreeItem>, rows: Seq<RowSrc>, sel: usize)
    requires
        same_except_labels(a, b),
    ensures
        shows(a, rows) ==> shows(b, rows),
        selection_marked(a, sel) ==> selection_marked(b, sel),
{
    if shows(a, rows) {
        assert forall|i: int| 0 <= i < b.len() implies row_shape(#[trigger] b[i], rows[i]) by {
            assert(row_shape(a[i], rows[i]));
            assert((TreeItem { resume_position: b[i].resume_position, ..a[i] }) == b[i]);
        }
    }
    if selection_marked(a, sel) {
        assert forall|i: int| 0 <= i < b.len() implies (#[trigger] b[i]).selected == (i == sel) by {
            assert((TreeItem { resume_position: b[i].resume_position, ..a[i] }) == b[i]);
        }
    }
}

pub proof fn lemma_row_index_same_paths(a: Seq<TreeItem>, b: Seq<TreeItem>, p: Seq<char>)
    requires
        a.len() == b.len(),
        forall|i: int| 0 <= i < a.len() ==> (#[trigger] a[i]).path == b[i].path,
    ensures
        first_row_with_path(a, p) == first_row_with_path(b, p),
        row_index_of(a, p) == row_index_of(b, p),
    decreases a.len(),
{
    if a.len() > 0 {
        let a1 = a.subrange(1, a.len() as int);
        let b1 = b.subrange(1, b.len() as int);
        assert forall|i: int| 0 <= i < a1.len() implies (#[trigger] a1[i]).path == b1[i].path by {
            assert(a1[i] == a[i + 1]);
            assert(b1[i] == b[i + 1]);
        }
        lemma_row_index_same_paths(a1, b1, p);
        assert(a[0].path == b[0].path);
    }
}

pub proof fn lemma_same_except_selection_paths(a: Seq<TreeItem>, b: Seq<TreeItem>, p: Seq<char>)
    requires
        same_except_selection(a, b),
    ensures
        row_index_of(a, p) == row_index_of(b, p),
{
    assert forall|i: int| 0 <= i < a.len() implies (#[trigger] a[i]).path == b[i].path by {
        assert((TreeItem { selected: false, ..a[i] }) == (TreeItem { selected: false, ..b[i] }));
    }
    lemma_row_index_same_paths(a, b, p);
}

impl BrowsingState {
    /// The rows on screen.
    pub open spec fn visible_view(self) -> Seq<TreeItem> {
        self.visible@
    }

    /// The stored resume positions, by path.
    pub open spec fn resume_view(self) -> Seq<(String, u64)> {
        self.resume_positions@
    }

    /// The rows are those of the open path, the selection is in range and marked, and
    /// the resume labels are current.
    pub open spec fn displayed(self) -> bool {
        &&& shows(self.visible_view(), flat_rows(self.tree, paths_view(self.stack@)))
        &&& selection_marked(self.visible_view(), self.selected)
        &&& selection_in_range(self.visible_view().len(), self.selected)
        &&& labels_ok(self.visible_view(), self.resume_view(), self.tree)
    }

    /// `b` is `a` with the selection moved to `sel`.
    pub open spec fn reselected(a: BrowsingState, b: BrowsingState, sel: usize) -> bool {
        &&& b.tree == a.tree
        &&& b.stack == a.stack
        &&& b.selected == sel
        &&& b.resume_view() == a.resume_view()
        &&& same_except_selection(a.visible_view(), b.visible_view())
        &&& selection_marked(b.visible_view(), sel)
    }

    /// `b` shows the tree of `a` with the open path `st`, the selection put on the first
    /// row with path `p` (or on the first row).
    pub open spec fn reopened(a: BrowsingState, b: BrowsingState, st: Seq<Seq<char>>, p: Seq<char>) -> bool {
        &&& b.tree == a.tree
        &&& paths_view(b.stack@) == st
        &&& b.resume_view() == a.resume_view()
        &&& b.displayed()
        &&& b.selected as int == row_index_of(b.visible_view(), p)
    }

    /// The path of the selected row when it is a volume or a folder.
    pub open spec fn selected_folder(self) -> Option<Seq<char>> {
        if self.selected < self.visible_view().len() && (self.visible_view()[self.selected as int].is_folder
            || self.visible_view()[self.selected as int].is_volume) {
            Some(self.visible_view()[self.selected as int].path@)
        } else {
            None
        }
    }

    /// What `open_selected` does from `a`, ending in `b` and returning `r`: a folder that
    /// is already open is closed (the open path cut just before it), any other folder is
    /// opened along the path leading to it; either way its row stays selected.
    pub open spec fn opened(a: BrowsingState, b: BrowsingState, r: bool) -> bool {
        match a.selected_folder() {
            None => !r && b == a,
            Some(t) => if stack_index(paths_view(a.stack@), t, 0) >= 0 {
                r && BrowsingState::reopened(
                    a,
                    b,
                    paths_view(a.stack@).subrange(0, stack_index(paths_view(a.stack@), t, 0)),
                    t,
                )
            } else {
                match stack_for(a.tree, t) {
                    None => !r && b == a,
                    Some(c) => r && BrowsingState::reopened(a, b, c, t),
                }
            },
        }
    }

    /// A state showing the volumes of `tree`, the first one selected.
    pub fn new(tree: FolderNode) -> (r: BrowsingState)
        requires
            tree_depth(tree) <= i32::MAX,
        ensures
            r.tree == tree,
            r.stack@.len() == 0,
            r.selected == 0,
            r.resume_view().len() == 0,
            r.displayed(),
    {
        let mut state = BrowsingState {
            tree,
            stack: Vec::new(),
            selected: 0,
            visible: Vec::new(),
            resume_positions: Vec::new(),
        };
        state.rebuild_visible();
        state
    }

    pub fn visible_items(&self) -> (r: &[TreeItem])
        ensures
            r@ == self.visible_view(),
    {
        self.visible.as_slice()
    }

    pub fn can_go_up(&self) -> (r: bool)
        ensures
            r == (self.selected > 0),
    {
        self.selected > 0
    }

    pub fn can_go_down(&self) -> (r: bool)
        requires
            self.selected < usize::MAX,
        ensures
            r == (self.selected + 1 < self.visible_view().len()),
    {
        self.selected + 1 < self.visible.len()
    }

    /// Moves the selection one row up, when there is a row above.
    pub fn go_up(&mut self) -> (r: bool)
        ensures
            r == (old(self).selected > 0),
            r ==> BrowsingState::reselected(*old(self), *final(self), (old(self).selected - 1) as usize),
            !r ==> *final(self) == *old(self),
    {
        if !self.can_go_up() {
            return false;
        }
        self.selected = self.selected - 1;
        self.apply_selection();
        true
    }

    /// Moves the selection one row down, when there is a row below.
    pub fn go_down(&mut self) -> (r: bool)
        requires
            old(self).selected < usize::MAX,
        ensures
            r == (old(self).selected + 1 < old(self).visible_view().len()),
            r ==> BrowsingState::reselected(*old(self), *final(self), (old(self).selected + 1) as usize),
            !r ==> *final(self) == *old(self),
    {
        if !self.can_go_down() {
            return false;
        }
        self.selected = self.selected + 1;
        self.apply_selection();
        true
    }

    /// Closes the deepest open folder and selects its row.
    pub fn go_back(&mut self) -> (r: bool)
        requires
            tree_depth(old(self).tree) <= i32::MAX,
        ensures
            r == (old(self).stack@.len() > 0),
            r ==> BrowsingState::reopened(
                *old(self),
                *final(self),
                paths_view(old(self).stack@).drop_last(),
                old(self).stack@.last()@,
            ),
            !r ==> *final(self) == *old(self),
    {
        if self.stack.len() == 0 {
            return false;
        }
        let closed = match self.stack.pop() {
            Some(c) => c,
            None => {
                return false;
            },
        };
        assert(paths_view(self.stack@) == paths_view(old(self).stack@).drop_last());
        self.rebuild_visible();
        self.select_path(closed.as_str());
        true
    }

    /// Replaces the library tree after a rescan, keeping the open path and the selection
    /// where their paths still exist.
    pub fn reload_tree(&mut self, new_tree: FolderNode)
        requires
            tree_depth(new_tree) <= i32::MAX,
        ensures
            final(self).tree == new_tree,
            paths_view(final(self).stack@) == pruned_stack(new_tree, paths_view(old(self).stack@)),
            final(self).resume_view() == old(self).resume_view(),
            final(self).displayed(),
            old(self).selected < old(self).visible_view().len() ==> final(self).selected as int
                == row_index_of(final(self).visible_view(), old(self).visible_view()[old(self).selected as int].path@),
            old(self).selected >= old(self).visible_view().len() ==> final(self).selected
                == clamp_selection(old(self).selected, final(self).visible_view().len()),
    {
        let selected_path: Option<String> = if self.selected < self.visible.len() {
            Some(self.visible[self.selected].path.clone())
        } else {
            None
        };
        self.tree = new_tree;
        prune_stack(&self.tree, &mut self.stack);
        self.rebuild_visible();
        match selected_path {
            Some(p) => self.select_path(p.as_str()),
            None => {},
        }
    }

    /// Opens the selected volume or folder, or closes it when it is already open.
    pub fn open_selected(&mut self) -> (r: bool)
        requires
            tree_depth(old(self).tree) <= i32::MAX,
        ensures
            BrowsingState::opened(*old(self), *final(self), r),
    {
        let target = match self.selected_folder_path() {
            Some(t) => t,
            None => {
                return false;
            },
        };
        let ghost st = paths_view(self.stack@);
        let n = self.stack.len();
        let mut k: usize = 0;
        while k < n && !paths_equal(self.stack[k].as_str(), target.as_str())
            invariant
                n == self.stack@.len(),
                st == paths_view(self.stack@),
                *self == *old(self),
                0 <= k <= n,
                forall|j: int| 0 <= j < k ==> !same_path(st[j], target@),
            decreases n - k,
        {
            k = k + 1;
        }
        proof {
            lemma_stack_index(st, target@, 0, k as int);
        }
        if k < n {
            self.stack.truncate(k);
            assert(paths_view(self.stack@) == st.subrange(0, k as int));
            self.rebuild_visible();
            self.select_path(target.as_str());
            return true;
        }
        let stack = match stack_for_folder(&self.tree, target.as_str()) {
            Some(s) => s,
            None => {
                return false;
            },
        };
        self.stack = stack;
        self.rebuild_visible();
        self.select_path(target.as_str());
        true
    }

    /// Opens a volume or folder, or reports the file to play when the selection is a file.
    pub fn activate_selected(&mut self) -> (r: ActivateResult)
        requires
            tree_depth(old(self).tree) <= i32::MAX,
        ensures
            match r {
                ActivateResult::PlayFile { path, name } => {
                    &&& old(self).selected < old(self).visible_view().len()
                    &&& !old(self).visible_view()[old(self).selected as int].is_folder
                    &&& !old(self).visible_view()[old(self).selected as int].is_volume
                    &&& path@ == old(self).visible_view()[old(self).selected as int].path@
                    &&& name@ == old(self).visible_view()[old(self).selected as int].name@
                    &&& *final(self) == *old(self)
                },
                ActivateResult::OpenedFolder => BrowsingState::opened(*old(self), *final(self), true),
                ActivateResult::Nothing => BrowsingState::opened(*old(self), *final(self), false),
            },
            (old(self).selected < old(self).visible_view().len()
                && !old(self).visible_view()[old(self).selected as int].is_folder
                && !old(self).visible_view()[old(self).selected as int].is_volume) <==> r is PlayFile,
    {
        if self.selected < self.visible.len() {
            let item = &self.visible[self.selected];
            if !item.is_folder && !item.is_volume {
                return ActivateResult::PlayFile { path: item.path.clone(), name: item.name.clone() };
            }
        }
        if self.open_selected() {
            ActivateResult::OpenedFolder
        } else {
            ActivateResult::Nothing
        }
    }

    /// The recorded duration of the file at `path`.
    pub fn file_duration_ms(&self, path: &str) -> (r: Option<u64>)
        ensures
            r == duration_of(self.tree, path@),
    {
        match find_file(&self.tree, path) {
            Some(file) => match &file.metadata {
                Some(m) => m.duration_ms,
                None => None,
            },
            None => None,
        }
    }

    /// Replaces the stored resume positions and refreshes the resume labels.
    pub fn set_resume_positions(&mut self, positions: Vec<(String, u64)>)
        requires
            keys_unique(positions@),
        ensures
            final(self).resume_view() == positions@,
            final(self).tree == old(self).tree,
            final(self).stack == old(self).stack,
            final(self).selected == old(self).selected,
            same_except_labels(old(self).visible_view(), final(self).visible_view()),
            labels_ok(final(self).visible_view(), positions@, final(self).tree),
            old(self).displayed() ==> final(self).displayed(),
    {
        self.resume_positions = positions;
        self.apply_resume_to_visible();
    }

    /// The path of the selected row when it is a file.
    pub fn selected_file_path(&self) -> (r: Option<String>)
        ensures
            match r {
                Some(p) => {
                    &&& self.selected < self.visible_view().len()
                    &&& !self.visible_view()[self.selected as int].is_folder
                    &&& !self.visible_view()[self.selected as int].is_volume
                    &&& p@ == self.visible_view()[self.selected as int].path@
                },
                None => !(self.selected < self.visible_view().len()
                    && !self.visible_view()[self.selected as int].is_folder
                    && !self.visible_view()[self.selected as int].is_volume),
            },
    {
        if self.selected >= self.visible.len() {
            return None;
        }
        let item = &self.visible[self.selected];
        if item.is_folder || item.is_volume {
            return None;
        }
        Some(item.path.clone())
    }

    /// Whether the selected row is a file with a position stored under `normalized`, the
    /// normalized form of its path, or under its path itself.
    pub fn selected_file_has_resume_under(&self, normalized: &str) -> (r: bool)
        ensures
            r == (self.selected < self.visible_view().len()
                && !self.visible_view()[self.selected as int].is_folder
                && !self.visible_view()[self.selected as int].is_volume
                && (stored_under(self.resume_view(), normalized@) || stored_under(
                self.resume_view(),
                self.visible_view()[self.selected as int].path@,
            ))),
    {
        match self.selected_file_path() {
            Some(p) => resume_position_under(&self.resume_positions, normalized, p.as_str()).is_some(),
            None => false,
        }
    }

    /// Whether the selected row is a file with a stored resume position.
    pub fn selected_file_has_resume(&self) -> (r: bool)
        ensures
            r ==> self.selected < self.visible_view().len()
                && !self.visible_view()[self.selected as int].is_folder
                && !self.visible_view()[self.selected as int].is_volume,
            (self.selected < self.visible_view().len()
                && !self.visible_view()[self.selected as int].is_folder
                && !self.visible_view()[self.selected as int].is_volume) ==> exists|n: Seq<char>|
                normal_key(n, self.visible_view()[self.selected as int].path@) && (r <==> (#[trigger] stored_under(
                    self.resume_view(),
                    n,
                ) || stored_under(self.resume_view(), self.visible_view()[self.selected as int].path@))),
    {
        match self.selected_file_path() {
            Some(p) => {
                let found = resume_position_for(&self.resume_positions, p.as_str());
                proof {
                    let n = choose|n: Seq<char>| normal_key(n, p@) && found == resume_for(self.resume_positions@, n, p@);
                    assert(normal_key(n, self.visible_view()[self.selected as int].path@) && found == resume_for(
                        self.resume_view(),
                        n,
                        self.visible_view()[self.selected as int].path@,
                    ));
                    assert(found is Some <==> (stored_under(self.resume_view(), n) || stored_under(
                        self.resume_view(),
                        self.visible_view()[self.selected as int].path@,
                    )));
                }
                found.is_some()
            },
            None => false,
        }
    }

    /// The resume label of the file row with path `path`, its position looked up under
    /// `normalized` first: the stored position when it is worth resuming from, or empty.
    pub fn resume_label_under(&self, normalized: &str, path: &str) -> (r: String)
        ensures
            r@ == resume_label(self.resume_view(), self.tree, normalized@, path@),
    {
        let duration_ms = self.file_duration_ms(path);
        match resume_position_under(&self.resume_positions, normalized, path) {
            Some(position_ms) => match resume_position_to_store(position_ms, duration_ms) {
                Some(ms) => format_playback_time(ms),
                None => String::new(),
            },
            None => String::new(),
        }
    }

    fn selected_folder_path(&self) -> (r: Option<String>)
        ensures
            match r {
                Some(p) => self.selected_folder() == Some(p@),
                None => self.selected_folder() is None,
            },
    {
        if self.selected >= self.visible.len() {
            return None;
        }
        let item = &self.visible[self.selected];
        if !item.is_folder && !item.is_volume {
            return None;
        }
        Some(item.path.clone())
    }

    fn rebuild_visible(&mut self)
        requires
            tree_depth(old(self).tree) <= i32::MAX,
        ensures
            final(self).tree == old(self).tree,
            final(self).stack == old(self).stack,
            final(self).resume_view() == old(self).resume_view(),
            final(self).selected == clamp_selection(old(self).selected, final(self).visible_view().len()),
            final(self).displayed(),
    {
        let mut items: Vec<TreeItem> = Vec::new();
        flatten_along_path(&self.tree, &self.stack, &mut items);
        let ghost rows = flat_rows(self.tree, paths_view(self.stack@));
        assert(items@ == Seq::<TreeItem>::empty() + items@);
        assert forall|j: int| 0 <= j < rows.len() implies row_shape(#[trigger] items@[j], rows[j]) by {
            assert(items@[j] == items@[0 + j]);
        }
        self.visible = items;
        let len = self.visible.len();
        if len == 0 {
            self.selected = 0;
        } else if self.selected >= len {
            self.selected = len - 1;
        }
        let ghost v1 = self.visible@;
        self.apply_selection();
        proof {
            lemma_selection_change_keeps(v1, self.visible@, rows, self.resume_positions@, self.tree);
        }
        let ghost v2 = self.visible@;
        self.apply_resume_to_visible();
        proof {
            lemma_label_change_keeps(v2, self.visible@, rows, self.selected);
        }
    }

    fn apply_selection(&mut self)
        ensures
            final(self).tree == old(self).tree,
            final(self).stack == old(self).stack,
            final(self).selected == old(self).selected,
            final(self).resume_view() == old(self).resume_view(),
            same_except_selection(old(self).visible_view(), final(self).visible_view()),
            selection_marked(final(self).visible_view(), final(self).selected),
    {
        let ghost v0 = self.visible@;
        let n = self.visible.len();
        let mut i: usize = 0;
        while i < n
            invariant
                0 <= i <= n,
                n == v0.len(),
                self.visible@.len() == n,
                self.tree == old(self).tree,
                self.stack == old(self).stack,
                self.selected == old(self).selected,
                self.resume_positions == old(self).resume_positions,
                v0 == old(self).visible@,
                forall|j: int|
                    0 <= j < n ==> (TreeItem { selected: false, ..#[trigger] v0[j] }) == (TreeItem {
                        selected: false,
                        ..self.visible@[j]
                    }),
                forall|j: int| 0 <= j < i ==> (#[trigger] self.visible@[j]).selected == (j == self.selected),
            decreases n - i,
        {
            let sel = i == self.selected;
            self.visible[i].selected = sel;
            i = i + 1;
        }
    }

    fn apply_resume_to_visible(&mut self)
        ensures
            final(self).tree == old(self).tree,
            final(self).stack == old(self).stack,
            final(self).selected == old(self).selected,
            final(self).resume_view() == old(self).resume_view(),
            same_except_labels(old(self).visible_view(), final(self).visible_view()),
            labels_ok(final(self).visible_view(), final(self).resume_view(), final(self).tree),
            (shows(old(self).visible_view(), flat_rows(old(self).tree, paths_view(old(self).stack@)))
                && selection_marked(old(self).visible_view(), old(self).selected)
                && selection_in_range(old(self).visible_view().len(), old(self).selected))
                ==> final(self).displayed(),
    {
        let ghost v0 = self.visible@;
        let n = self.visible.len();
        let mut i: usize = 0;
        while i < n
            invariant
                0 <= i <= n,
                n == v0.len(),
                self.visible@.len() == n,
                self.tree == old(self).tree,
                self.stack == old(self).stack,
                self.selected == old(self).selected,
                self.resume_positions == old(self).resume_positions,
                v0 == old(self).visible@,
                forall|j: int|
                    0 <= j < n ==> (TreeItem { resume_position: self.visible@[j].resume_position, ..#[trigger] v0[j] })
                        == self.visible@[j],
                forall|j: int| 0 <= j < i ==> label_ok(#[trigger] self.visible@[j], self.resume_positions@, self.tree),
            decreases n - i,
        {
            let is_dir = self.visible[i].is_folder || self.visible[i].is_volume;
            let ghost mut nw: Seq<char> = Seq::empty();
            let label = if is_dir {
                String::new()
            } else {
                let path = self.visible[i].path.clone();
                let normalized = normalize_path(path.as_str());
                proof {
                    nw = normalized@;
                }
                self.resume_label_under(normalized.as_str(), path.as_str())
            };
            let ghost before = self.visible@;
            self.visible[i].resume_position = label;
            assert(self.visible@[i as int] == TreeItem { resume_position: label, ..before[i as int] });
            if !is_dir {
                assert(normal_key(nw, self.visible@[i as int].path@));
                assert(resume_label(self.resume_positions@, self.tree, nw, self.visible@[i as int].path@)
                    == self.visible@[i as int].resume_position@);
            }
            assert(label_ok(self.visible@[i as int], self.resume_positions@, self.tree));
            assert(forall|j: int| 0 <= j < n && j != i ==> self.visible@[j] == before[j]);
            i = i + 1;
        }
        proof {
            lemma_label_change_keeps(v0, self.visible@, flat_rows(self.tree, paths_view(self.stack@)), self.selected);
        }
    }

    fn select_path(&mut self, path: &str)
        ensures
            final(self).tree == old(self).tree,
            final(self).stack == old(self).stack,
            final(self).resume_view() == old(self).resume_view(),
            final(self).selected as int == row_index_of(old(self).visible_view(), path@),
            final(self).selected as int == row_index_of(final(self).visible_view(), path@),
            same_except_selection(old(self).visible_view(), final(self).visible_view()),
            selection_marked(final(self).visible_view(), final(self).selected),
            old(self).displayed() ==> final(self).displayed(),
    {
        let ghost v0 = self.visible@;
        let n = self.visible.len();
        let mut i: usize = 0;
        proof {
            lemma_first_row_with_path(self.visible@, path@);
        }
        while i < n && !str_eq(self.visible[i].path.as_str(), path)
            invariant
                0 <= i <= n,
                n == self.visible@.len(),
                self.visible == old(self).visible,
                forall|j: int| 0 <= j < i ==> (#[trigger] self.visible@[j]).path@ != path@,
                -1 <= first_row_with_path(self.visible@, path@) < n,
                first_row_with_path(self.visible@, path@) >= 0 ==> self.visible@[first_row_with_path(self.visible@, path@)].path@ == path@,
                forall|j: int|
                    0 <= j < n && (first_row_with_path(self.visible@, path@) < 0 || j < first_row_with_path(self.visible@, path@))
                        ==> (#[trigger] self.visible@[j]).path@ != path@,
            decreases n - i,
        {
            i = i + 1;
        }
        if i < n {
            assert(self.visible@[i as int].path@ == path@);
            proof {
                let k = first_row_with_path(self.visible@, path@);
                if k >= 0 {
                    assert(self.visible@[k].path@ == path@);
                }
                assert(k == i);
            }
            self.selected = i;
        } else {
            assert(first_row_with_path(self.visible@, path@) == -1);
            self.selected = 0;
        }
        self.apply_selection();
        proof {
            lemma_selection_change_keeps(v0, self.visible@, flat_rows(self.tree, paths_view(self.stack@)), self.resume_positions@, self.tree);
            lemma_same_except_selection_paths(v0, self.visible@, path@);
        }
    }
}

} // verus!
