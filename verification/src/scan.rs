//! Building the folder tree of a volume from the entries of a directory walk.

use vstd::prelude::*;
use crate::structs::{FileMetadata, FileNode, FolderNode, stats_fit, stats_filled, same_except_stats};
use crate::library::{finalize_tree, finalized, totals_fit};
use crate::ordering::{tree_sorted, children_sorted, sort_by_key, subs_sorted, lemma_sorted_sub_origin, lemma_sort_by_key_permutes};
use crate::probe::{is_video_path, spec_is_video_path};
use crate::text::{
    ascii_upper, char_len, last_index_of, lemma_last_index_of, owned, rfind_char, slice_chars,
    str_eq, to_ascii_uppercase,
};

verus! {

/// One entry of a directory walk: its path, its file name, whether it is a directory,
/// and its byte size when known.
#[derive(Debug, Clone)]
pub struct WalkEntry {
    pub path: String,
    pub name: String,
    pub is_dir: bool,
    pub size: Option<u64>,
}

/// `Path::parent`, the path without its final component, as text.
pub uninterp spec fn path_parent_of(p: Seq<char>) -> Option<Seq<char>>;

/// `Path::parent`: the path without its final component, when there is one. That
/// component is never empty, so the parent is shorter than the path.
#[verifier::external_body]
fn path_parent(p: &str) -> (r: Option<String>)
    ensures
        match r {
            Some(q) => path_parent_of(p@) == Some(q@) && q@.len() < p@.len(),
            None => path_parent_of(p@) is None,
        },
{
    match std::path::Path::new(p).parent() {
        Some(q) => Some(q.to_string_lossy().into_owned()),
        None => None,
    }
}

/// The index of the last directory entry with path `d`, or -1.
pub open spec fn last_dir_index(es: Seq<WalkEntry>, d: Seq<char>) -> int
    decreases es.len(),
{
    if es.len() == 0 {
        -1
    } else if es.last().is_dir && es.last().path@ == d {
        es.len() - 1
    } else {
        last_dir_index(es.drop_last(), d)
    }
}

proof fn lemma_last_dir_index(es: Seq<WalkEntry>, d: Seq<char>)
    ensures
        -1 <= last_dir_index(es, d) < es.len(),
        last_dir_index(es, d) >= 0 ==> es[last_dir_index(es, d)].is_dir && es[last_dir_index(es, d)].path@ == d,
        forall|j: int| last_dir_index(es, d) < j < es.len() ==> !(#[trigger] es[j].is_dir && es[j].path@ == d),
    decreases es.len(),
{
    if es.len() > 0 && !(es.last().is_dir && es.last().path@ == d) {
        lemma_last_dir_index(es.drop_last(), d);
        assert forall|j: int| last_dir_index(es, d) < j < es.len() implies !(#[trigger] es[j].is_dir && es[j].path@ == d) by {
            if j < es.len() - 1 {
                assert(es[j] == es.drop_last()[j]);
            }
        }
    }
}

/// The file node a walk entry gives: the file name split at its last dot into name and
/// upper-case extension (the whole name and no extension when there is no dot), with
/// the byte size as its only metadata.
pub open spec fn file_entry_node(e: WalkEntry, f: FileNode) -> bool {
    let k = last_index_of(e.name@, '.');
    &&& f.path@ == e.path@
    &&& if k >= 0 {
        &&& f.name@ == e.name@.subrange(0, k)
        &&& f.format@ == e.name@.subrange(k + 1, e.name@.len() as int).map_values(|c: char| ascii_upper(c))
    } else {
        &&& f.name@ == e.name@
        &&& f.format@.len() == 0
    }
    &&& f.metadata == Some(
        FileMetadata {
            size: e.size,
            duration_ms: None,
            bitrate: None,
            codec: None,
            width: None,
            height: None,
            audio_track_count: None,
            subtitle_track_count: None,
        },
    )
}

/// The entries that become files of the folder at path `d`: among the first `n`
/// entries, the video files whose parent is `d`, listed after the last directory entry
/// of `d` (a folder starts empty each time the walk reports it), in order.
pub open spec fn files_for(es: Seq<WalkEntry>, d: Seq<char>, n: int) -> Seq<WalkEntry>
    decreases n,
{
    if n <= 0 || n > es.len() {
        seq![]
    } else {
        let e = es[n - 1];
        if n - 1 > last_dir_index(es, d) && !e.is_dir && spec_is_video_path(e.path@) && path_parent_of(e.path@)
            == Some(d) {
            files_for(es, d, n - 1).push(e)
        } else {
            files_for(es, d, n - 1)
        }
    }
}

/// Whether the walk reported a directory at path `c` that goes below the folder at
/// path `d`: its parent is `d` and it is not the root of the walk.
pub open spec fn is_child_key(es: Seq<WalkEntry>, root: Seq<char>, d: Seq<char>, c: Seq<char>) -> bool {
    &&& last_dir_index(es, c) >= 0
    &&& c != root
    &&& path_parent_of(c) == Some(d)
}

/// `t` is the folder at its path built from the walk: named after the last directory
/// entry of its path, holding its files in walk order, no totals yet, and one subfolder
/// for each directory below it, built the same way (in some order).
pub open spec fn assembled(es: Seq<WalkEntry>, root: Seq<char>, t: FolderNode) -> bool
    decreases t,
{
    let d = t.path@;
    let fs = files_for(es, d, es.len() as int);
    &&& last_dir_index(es, d) >= 0
    &&& t.name@ == es[last_dir_index(es, d)].name@
    &&& t.reduced_number_of_file == 0
    &&& t.reduced_size_of_files == 0
    &&& t.reduced_duration_of_files == 0
    &&& t.files@.len() == fs.len()
    &&& forall|j: int| 0 <= j < fs.len() ==> file_entry_node(fs[j], #[trigger] t.files@[j])
    &&& forall|j: int|
        0 <= j < t.subfolders@.len() ==> is_child_key(es, root, d, (#[trigger] t.subfolders@[j]).path@)
            && assembled(es, root, t.subfolders@[j])
    &&& forall|j: int, k: int|
        0 <= j < k < t.subfolders@.len() ==> (#[trigger] t.subfolders@[j]).path@ != (
        #[trigger] t.subfolders@[k]).path@
    &&& forall|c: Seq<char>|
        #[trigger] is_child_key(es, root, d, c) ==> exists|j: int|
            0 <= j < t.subfolders@.len() && (#[trigger] t.subfolders@[j]).path@ == c
}

/// The file node of a walk entry. Upper-casing the extension goes by ASCII, which is
/// all it takes for the extensions of video files.
fn file_node_of(e: &WalkEntry) -> (f: FileNode)
    ensures
        file_entry_node(*e, f),
{
    proof {
        lemma_last_index_of(e.name@, '.');
    }
    let (name, format) = match rfind_char(e.name.as_str(), '.') {
        Some(k) => {
            let n = char_len(e.name.as_str());
            (owned(slice_chars(e.name.as_str(), 0, k)), to_ascii_uppercase(slice_chars(e.name.as_str(), k + 1, n)))
        },
        None => (e.name.clone(), String::new()),
    };
    FileNode {
        path: e.path.clone(),
        name,
        format,
        metadata: Some(
            FileMetadata {
                size: e.size,
                duration_ms: None,
                bitrate: None,
                codec: None,
                width: None,
                height: None,
                audio_track_count: None,
                subtitle_track_count: None,
            },
        ),
    }
}

/// The length of the longest path of the walk.
pub open spec fn max_path_len(es: Seq<WalkEntry>) -> nat
    decreases es.len(),
{
    if es.len() == 0 {
        0
    } else {
        let a = max_path_len(es.drop_last());
        let b = es.last().path@.len();
        if a >= b {
            a
        } else {
            b
        }
    }
}

proof fn lemma_max_path_len(es: Seq<WalkEntry>, i: int)
    requires
        0 <= i < es.len(),
    ensures
        es[i].path@.len() <= max_path_len(es),
    decreases es.len(),
{
    if i < es.len() - 1 {
        lemma_max_path_len(es.drop_last(), i);
        assert(es[i] == es.drop_last()[i]);
    }
}

/// What the builder knows of the walk: each entry's parent, and whether it is the last
/// directory entry of its path.
pub open spec fn walk_facts(es: Seq<WalkEntry>, parents: Seq<Option<String>>, is_last: Seq<bool>) -> bool {
    &&& parents.len() == es.len()
    &&& is_last.len() == es.len()
    &&& forall|i: int|
        0 <= i < es.len() ==> match #[trigger] parents[i] {
            Some(q) => path_parent_of(es[i].path@) == Some(q@) && q@.len() < es[i].path@.len(),
            None => path_parent_of(es[i].path@) is None,
        }
    &&& forall|i: int|
        0 <= i < es.len() ==> #[trigger] is_last[i] == (es[i].is_dir && last_dir_index(es, es[i].path@) == i)
}

fn parent_is(p: &Option<String>, d: &str) -> (r: bool)
    ensures
        r == match p {
            Some(q) => q@ == d@,
            None => false,
        },
{
    match p {
        Some(q) => str_eq(q.as_str(), d),
        None => false,
    }
}

fn build_folder(
    es: &Vec<WalkEntry>,
    parents: &Vec<Option<String>>,
    is_last: &Vec<bool>,
    root: &str,
    d: &str,
    di: usize,
) -> (t: FolderNode)
    requires
        walk_facts(es@, parents@, is_last@),
        di < es@.len(),
        last_dir_index(es@, d@) == di,
        d@.len() <= max_path_len(es@),
    ensures
        t.path@ == d@,
        assembled(es@, root@, t),
    decreases max_path_len(es@) - d@.len(),
{
    let n = es.len();
    let ghost s = es@;
    proof {
        lemma_last_dir_index(s, d@);
    }
    let mut files: Vec<FileNode> = Vec::new();
    let mut i: usize = 0;
    while i < n
        invariant
            n == s.len(),
            s == es@,
            walk_facts(s, parents@, is_last@),
            0 <= i <= n,
            last_dir_index(s, d@) == di,
            files@.len() == files_for(s, d@, i as int).len(),
            forall|j: int| 0 <= j < files@.len() ==> file_entry_node(files_for(s, d@, i as int)[j], #[trigger] files@[j]),
        decreases n - i,
    {
        let e = &es[i];
        let ghost fs0 = files_for(s, d@, i as int);
        assert(parents@[i as int] == parents@[i as int]);
        if i > di && !e.is_dir && is_video_path(e.path.as_str()) && parent_is(&parents[i], d) {
            let f = file_node_of(e);
            files.push(f);
            assert(files_for(s, d@, i + 1) == fs0.push(s[i as int]));
            assert forall|j: int| 0 <= j < files@.len() implies file_entry_node(files_for(s, d@, i + 1)[j], #[trigger] files@[j]) by {
                if j < files@.len() - 1 {
                    assert(files@[j] == files@.drop_last()[j]);
                }
            }
        } else {
            assert(files_for(s, d@, i + 1) == fs0);
        }
        i = i + 1;
    }
    let mut subs: Vec<FolderNode> = Vec::new();
    let mut k: usize = 0;
    while k < n
        invariant
            n == s.len(),
            s == es@,
            walk_facts(s, parents@, is_last@),
            0 <= k <= n,
            d@.len() <= max_path_len(s),
            forall|j: int|
                0 <= j < subs@.len() ==> is_child_key(s, root@, d@, (#[trigger] subs@[j]).path@) && assembled(
                    s,
                    root@,
                    subs@[j],
                ) && last_dir_index(s, subs@[j].path@) < k,
            forall|j: int, m: int|
                0 <= j < m < subs@.len() ==> (#[trigger] subs@[j]).path@ != (#[trigger] subs@[m]).path@,
            forall|c: Seq<char>|
                #[trigger] is_child_key(s, root@, d@, c) && last_dir_index(s, c) < k ==> exists|j: int|
                    0 <= j < subs@.len() && (#[trigger] subs@[j]).path@ == c,
        decreases n - k,
    {
        let e = &es[k];
        assert(is_last@[k as int] == (s[k as int].is_dir && last_dir_index(s, s[k as int].path@) == k));
        assert(parents@[k as int] == parents@[k as int]);
        let take = is_last[k] && parent_is(&parents[k], d) && !str_eq(e.path.as_str(), root);
        let ghost c = s[k as int].path@;
        if take {
            proof {
                lemma_max_path_len(s, k as int);
            }
            let child = build_folder(es, parents, is_last, root, e.path.as_str(), k);
            let ghost before = subs@;
            subs.push(child);
            proof {
                assert forall|j: int| 0 <= j < subs@.len() implies is_child_key(s, root@, d@, (#[trigger] subs@[j]).path@)
                    && assembled(s, root@, subs@[j]) && last_dir_index(s, subs@[j].path@) < k + 1 by {
                    if j < before.len() {
                        assert(subs@[j] == before[j]);
                    }
                }
                assert forall|j: int, m: int| 0 <= j < m < subs@.len() implies (#[trigger] subs@[j]).path@
                    != (#[trigger] subs@[m]).path@ by {
                    if m == before.len() {
                        assert(subs@[j] == before[j]);
                        assert(last_dir_index(s, before[j].path@) < k);
                    } else {
                        assert(subs@[j] == before[j] && subs@[m] == before[m]);
                    }
                }
                assert forall|c2: Seq<char>| #[trigger] is_child_key(s, root@, d@, c2) && last_dir_index(s, c2) < k + 1 implies exists|j: int|
                    0 <= j < subs@.len() && (#[trigger] subs@[j]).path@ == c2 by {
                    if last_dir_index(s, c2) < k {
                        let j = choose|j: int| 0 <= j < before.len() && (#[trigger] before[j]).path@ == c2;
                        assert(subs@[j] == before[j]);
                    } else {
                        lemma_last_dir_index(s, c2);
                        assert(subs@[before.len() as int].path@ == c2);
                    }
                }
            }
        } else {
            proof {
                assert forall|c2: Seq<char>| #[trigger] is_child_key(s, root@, d@, c2) && last_dir_index(s, c2) < k + 1 implies exists|j: int|
                    0 <= j < subs@.len() && (#[trigger] subs@[j]).path@ == c2 by {
                    if last_dir_index(s, c2) == k {
                        lemma_last_dir_index(s, c2);
                        assert(false);
                    }
                }
            }
        }
        k = k + 1;
    }
    proof {
        assert forall|c2: Seq<char>| #[trigger] is_child_key(s, root@, d@, c2) implies exists|j: int|
            0 <= j < subs@.len() && (#[trigger] subs@[j]).path@ == c2 by {
            lemma_last_dir_index(s, c2);
        }
    }
    FolderNode {
        path: owned(d),
        name: es[di].name.clone(),
        subfolders: subs,
        files,
        reduced_number_of_file: 0,
        reduced_size_of_files: 0,
        reduced_duration_of_files: 0,
    }
}

fn last_dir_flags(es: &Vec<WalkEntry>) -> (r: Vec<bool>)
    ensures
        r@.len() == es@.len(),
        forall|i: int| 0 <= i < es@.len() ==> #[trigger] r@[i] == (es@[i].is_dir && last_dir_index(es@, es@[i].path@) == i),
{
    let n = es.len();
    let ghost s = es@;
    let mut out: Vec<bool> = Vec::new();
    let mut i: usize = 0;
    while i < n
        invariant
            n == s.len(),
            s == es@,
            0 <= i <= n,
            out@.len() == i,
            forall|j: int| 0 <= j < i ==> #[trigger] out@[j] == (s[j].is_dir && last_dir_index(s, s[j].path@) == j),
        decreases n - i,
    {
        let mut last = es[i].is_dir;
        let mut j: usize = i + 1;
        while j < n && last
            invariant
                n == s.len(),
                s == es@,
                i < n,
                i + 1 <= j <= n,
                last ==> s[i as int].is_dir && forall|m: int| i < m < j ==> !(#[trigger] s[m].is_dir && s[m].path@ == s[i as int].path@),
                !last ==> !(s[i as int].is_dir && last_dir_index(s, s[i as int].path@) == i),
            decreases n - j,
        {
            if es[j].is_dir && str_eq(es[j].path.as_str(), es[i].path.as_str()) {
                proof {
                    lemma_last_dir_index(s, s[i as int].path@);
                }
                last = false;
            }
            j = j + 1;
        }
        proof {
            lemma_last_dir_index(s, s[i as int].path@);
        }
        out.push(last);
        i = i + 1;
    }
    out
}

fn find_last_dir(es: &Vec<WalkEntry>, d: &str) -> (r: Option<usize>)
    ensures
        match r {
            Some(i) => i == last_dir_index(es@, d@) && i < es@.len(),
            None => last_dir_index(es@, d@) < 0,
        },
{
    let mut k = es.len();
    assert(es@.subrange(0, k as int) == es@);
    while k > 0
        invariant
            k <= es@.len(),
            last_dir_index(es@.subrange(0, k as int), d@) == last_dir_index(es@, d@),
        decreases k,
    {
        let ghost pre = es@.subrange(0, k as int);
        assert(pre.last() == es@[k - 1]);
        assert(pre.drop_last() == es@.subrange(0, k - 1));
        if es[k - 1].is_dir && str_eq(es[k - 1].path.as_str(), d) {
            return Some(k - 1);
        }
        k = k - 1;
    }
    None
}

/// Builds the tree of the folder at `root` from the entries of a walk under it: `None`
/// when the walk reports no directory at `root`. Totals are left at 0.
pub fn assemble_tree(root: &str, entries: &Vec<WalkEntry>) -> (r: Option<FolderNode>)
    ensures
        r is None <==> last_dir_index(entries@, root@) < 0,
        match r {
            Some(t) => t.path@ == root@ && assembled(entries@, root@, t),
            None => true,
        },
{
    let n = entries.len();
    let ghost s = entries@;
    let mut parents: Vec<Option<String>> = Vec::new();
    let mut i: usize = 0;
    while i < n
        invariant
            n == s.len(),
            s == entries@,
            0 <= i <= n,
            parents@.len() == i,
            forall|j: int|
                0 <= j < i ==> match #[trigger] parents@[j] {
                    Some(q) => path_parent_of(s[j].path@) == Some(q@) && q@.len() < s[j].path@.len(),
                    None => path_parent_of(s[j].path@) is None,
                },
        decreases n - i,
    {
        parents.push(path_parent(entries[i].path.as_str()));
        i = i + 1;
    }
    let is_last = last_dir_flags(entries);
    let di = match find_last_dir(entries, root) {
        Some(i) => i,
        None => {
            return None;
        },
    };
    proof {
        lemma_last_dir_index(s, root@);
        lemma_max_path_len(s, di as int);
    }
    Some(build_folder(entries, &parents, &is_last, root, root, di))
}

/// Scans the folder at `root` from the entries of a walk under it: the tree built from
/// the walk, every directory a folder (empty ones included), with totals filled and
/// children sorted; `None` when the walk reports no directory at `root`.
pub fn scan_tree(root: &str, entries: &Vec<WalkEntry>) -> (r: Option<FolderNode>)
    requires
        forall|t: FolderNode| #[trigger] assembled(entries@, root@, t) ==> stats_fit(t),
    ensures
        r is None <==> last_dir_index(entries@, root@) < 0,
        match r {
            Some(t) => {
                &&& exists|a: FolderNode| a.path@ == root@ && #[trigger] assembled(entries@, root@, a) && finalized(a, t)
                &&& stats_filled(t)
                &&& tree_sorted(t)
            },
            None => true,
        },
{
    match assemble_tree(root, entries) {
        Some(mut t) => {
            let ghost a = t;
            finalize_tree(&mut t);
            assert(assembled(entries@, root@, a));
            Some(t)
        },
        None => None,
    }
}

/// Why a walk gave no tree.
#[derive(Debug, Clone, Copy, PartialEq, Eq)]
pub enum ScanError {
    /// The walk reports no directory at the root.
    RootMissing,
    /// The totals of the tree do not fit in the integer types that store them.
    TooLarge,
}

/// Scans the folder at `root` as `scan_tree` does, and fails, in place of overflowing,
/// when the totals of the tree do not fit in the integer types that store them.
pub fn try_scan_tree(root: &str, entries: &Vec<WalkEntry>) -> (r: Result<FolderNode, ScanError>)
    ensures
        r == Err::<FolderNode, ScanError>(ScanError::RootMissing) <==> last_dir_index(entries@, root@) < 0,
        (last_dir_index(entries@, root@) >= 0 && forall|t: FolderNode| #[trigger] assembled(entries@, root@, t)
            ==> stats_fit(t)) ==> r is Ok,
        match r {
            Ok(t) => {
                &&& exists|a: FolderNode|
                    a.path@ == root@ && #[trigger] assembled(entries@, root@, a) && stats_fit(a) && finalized(a, t)
                &&& stats_filled(t)
                &&& tree_sorted(t)
            },
            Err(ScanError::TooLarge) => exists|a: FolderNode|
                a.path@ == root@ && #[trigger] assembled(entries@, root@, a) && !stats_fit(a),
            Err(ScanError::RootMissing) => true,
        },
{
    match assemble_tree(root, entries) {
        Some(mut t) => {
            let ghost a = t;
            assert(assembled(entries@, root@, a));
            if !totals_fit(&t) {
                return Err(ScanError::TooLarge);
            }
            finalize_tree(&mut t);
            Ok(t)
        },
        None => Err(ScanError::RootMissing),
    }
}

// ---------------------------------------------------------------- only videos

/// Every file of the tree is a video.
pub open spec fn only_videos(t: FolderNode) -> bool
    decreases t,
{
    &&& forall|j: int| 0 <= j < t.files@.len() ==> spec_is_video_path((#[trigger] t.files@[j]).path@)
    &&& forall|i: int| 0 <= i < t.subfolders@.len() ==> only_videos(#[trigger] t.subfolders@[i])
}

proof fn lemma_files_for_videos(es: Seq<WalkEntry>, d: Seq<char>, n: int)
    ensures
        forall|j: int|
            0 <= j < files_for(es, d, n).len() ==> spec_is_video_path((#[trigger] files_for(es, d, n)[j]).path@),
    decreases n,
{
    if n > 0 && n <= es.len() {
        lemma_files_for_videos(es, d, n - 1);
    }
}

/// A tree built from a walk holds only video files.
pub proof fn law_walk_tree_holds_only_videos(es: Seq<WalkEntry>, root: Seq<char>, t: FolderNode)
    requires
        assembled(es, root, t),
    ensures
        only_videos(t),
    decreases t,
{
    let fs = files_for(es, t.path@, es.len() as int);
    lemma_files_for_videos(es, t.path@, es.len() as int);
    assert forall|j: int| 0 <= j < t.files@.len() implies spec_is_video_path((#[trigger] t.files@[j]).path@) by {
        assert(file_entry_node(fs[j], t.files@[j]));
        assert(spec_is_video_path(fs[j].path@));
    }
    assert forall|i: int| 0 <= i < t.subfolders@.len() implies only_videos(#[trigger] t.subfolders@[i]) by {
        crate::structs::lemma_child_smaller(t, i);
        law_walk_tree_holds_only_videos(es, root, t.subfolders@[i]);
    }
}

proof fn lemma_only_videos_same_except(a: FolderNode, b: FolderNode)
    requires
        same_except_stats(a, b),
        only_videos(a),
    ensures
        only_videos(b),
    decreases a,
{
    assert forall|i: int| 0 <= i < b.subfolders@.len() implies only_videos(#[trigger] b.subfolders@[i]) by {
        crate::structs::lemma_child_smaller(a, i);
        assert(same_except_stats(a.subfolders@[i], b.subfolders@[i]));
        lemma_only_videos_same_except(a.subfolders@[i], b.subfolders@[i]);
    }
}

proof fn lemma_only_videos_sorted(a: FolderNode, b: FolderNode)
    requires
        children_sorted(a, b),
        only_videos(a),
    ensures
        only_videos(b),
    decreases a,
{
    broadcast use vstd::seq_lib::to_multiset_contains;
    lemma_sort_by_key_permutes(a.files@);
    assert forall|j: int| 0 <= j < b.files@.len() implies spec_is_video_path((#[trigger] b.files@[j]).path@) by {
        let x = b.files@[j];
        assert(sort_by_key(a.files@).contains(x));
        assert(sort_by_key(a.files@).to_multiset().count(x) > 0);
        assert(a.files@.to_multiset().count(x) > 0);
        let k = choose|k: int| 0 <= k < a.files@.len() && a.files@[k] == x;
        assert(spec_is_video_path(a.files@[k].path@));
    }
    assert forall|j: int| 0 <= j < b.subfolders@.len() implies only_videos(#[trigger] b.subfolders@[j]) by {
        let i = lemma_sorted_sub_origin(a, b, j);
        crate::structs::lemma_child_smaller(a, i);
        lemma_only_videos_sorted(a.subfolders@[i], b.subfolders@[j]);
    }
}

/// Finishing a tree that holds only videos keeps it so.
pub proof fn law_finishing_keeps_only_videos(a: FolderNode, t: FolderNode)
    requires
        finalized(a, t),
        only_videos(a),
    ensures
        only_videos(t),
{
    let s = choose|s: FolderNode| same_except_stats(a, s) && stats_filled(s) && #[trigger] children_sorted(s, t);
    lemma_only_videos_same_except(a, s);
    lemma_only_videos_sorted(s, t);
}

/// A scanned tree lists only video files.
pub proof fn law_scan_lists_only_videos(es: Seq<WalkEntry>, root: Seq<char>, a: FolderNode, t: FolderNode)
    requires
        assembled(es, root, a),
        finalized(a, t),
    ensures
        only_videos(t),
{
    law_walk_tree_holds_only_videos(es, root, a);
    law_finishing_keeps_only_videos(a, t);
}

} // verus!
