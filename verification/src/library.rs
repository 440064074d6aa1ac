use vstd::prelude::*;
use crate::probe::{VideoProbe, is_video_path, spec_is_video_path};
use crate::paths::{same_path, paths_equal};
use crate::ordering::{
    children_sorted, tree_sorted, sorted_by_key, lex_le, Keyed, lemma_folders_stat_prefix, law_sort_keeps_totals,
    law_sort_keeps_stats_filled, law_sort_orders_tree,
};
use crate::structs::{FileMetadata, FileNode, FolderNode, Stat, spec_file_size, spec_file_duration, files_stat, folders_stat, tree_stat, stats_fit, stats_filled, same_except_stats, lemma_files_stat_le, lemma_folders_stat_le, lemma_folders_stat_prefix_le, lemma_same_except_stats_totals};

verus! {

/// Byte size recorded for a file, 0 when unknown.
pub fn file_size(file: &FileNode) -> (r: u64)
    ensures
        r == spec_file_size(*file),
{
    match &file.metadata {
        Some(m) => match m.size {
            Some(s) => s,
            None => 0,
        },
        None => 0,
    }
}

/// Duration recorded for a file, 0 when unknown.
pub fn file_duration_ms(file: &FileNode) -> (r: u64)
    ensures
        r == spec_file_duration(*file),
{
    match &file.metadata {
        Some(m) => match m.duration_ms {
            Some(d) => d,
            None => 0,
        },
        None => 0,
    }
}

/// Post-order pass: fills the file count, size and duration totals of every folder.
pub fn compute_reduced_stats(folder: &mut FolderNode)
    requires
        stats_fit(*old(folder)),
    ensures
        stats_filled(*final(folder)),
        same_except_stats(*old(folder), *final(folder)),
    decreases *old(folder),
{
    let ghost f0 = *folder;
    let n_files = folder.files.len();
    let mut direct_size: u64 = 0;
    let mut direct_duration: u64 = 0;
    let mut j: usize = 0;
    while j < n_files
        invariant
            *folder == f0,
            n_files == f0.files@.len(),
            0 <= j <= n_files,
            direct_size == files_stat(f0.files@, j as int, Stat::Size),
            direct_duration == files_stat(f0.files@, j as int, Stat::Duration),
            stats_fit(f0),
        decreases n_files - j,
    {
        proof {
            lemma_files_stat_le(f0.files@, f0.files@.len() as int, j + 1, Stat::Size);
            lemma_files_stat_le(f0.files@, f0.files@.len() as int, j + 1, Stat::Duration);
        }
        direct_size = direct_size + file_size(&folder.files[j]);
        direct_duration = direct_duration + file_duration_ms(&folder.files[j]);
        j = j + 1;
    }
    assert(files_stat(f0.files@, n_files as int, Stat::Count) == n_files) by {
        lemma_files_count(f0.files@, n_files as int);
    }
    let mut child_count: u32 = 0;
    let mut child_size: u64 = 0;
    let mut child_duration: u64 = 0;
    let n_sub = folder.subfolders.len();
    let mut i: usize = 0;
    while i < n_sub
        invariant
            n_sub == f0.subfolders@.len(),
            *old(folder) == f0,
            0 <= i <= n_sub,
            folder.path == f0.path,
            folder.name == f0.name,
            folder.files@ == f0.files@,
            folder.subfolders@.len() == n_sub,
            forall|t: int|
                0 <= t < i ==> stats_filled(#[trigger] folder.subfolders@[t])
                    && same_except_stats(f0.subfolders@[t], folder.subfolders@[t]),
            forall|t: int| i <= t < n_sub ==> #[trigger] folder.subfolders@[t] == f0.subfolders@[t],
            child_count == folders_stat(f0.subfolders@, i as int, Stat::Count),
            child_size == folders_stat(f0.subfolders@, i as int, Stat::Size),
            child_duration == folders_stat(f0.subfolders@, i as int, Stat::Duration),
            stats_fit(f0),
        decreases n_sub - i,
    {
        proof {
            lemma_folders_stat_le(f0.subfolders@, n_sub as int, i as int, Stat::Count);
            lemma_folders_stat_le(f0.subfolders@, n_sub as int, i as int, Stat::Size);
            lemma_folders_stat_le(f0.subfolders@, n_sub as int, i as int, Stat::Duration);
            lemma_folders_stat_prefix_le(f0.subfolders@, n_sub as int, i + 1, Stat::Count);
            lemma_folders_stat_prefix_le(f0.subfolders@, n_sub as int, i + 1, Stat::Size);
            lemma_folders_stat_prefix_le(f0.subfolders@, n_sub as int, i + 1, Stat::Duration);
        }
        proof {
            assert(decreases_to!(f0 => f0.subfolders));
            assert(decreases_to!(f0.subfolders => f0.subfolders@));
            assert(decreases_to!(f0.subfolders@ => f0.subfolders@[i as int]));
            assert(decreases_to!(f0 => folder.subfolders@[i as int]));
        }
        compute_reduced_stats(&mut folder.subfolders[i]);
        proof {
            lemma_same_except_stats_totals(f0.subfolders@[i as int], folder.subfolders@[i as int], Stat::Count);
            lemma_same_except_stats_totals(f0.subfolders@[i as int], folder.subfolders@[i as int], Stat::Size);
            lemma_same_except_stats_totals(f0.subfolders@[i as int], folder.subfolders@[i as int], Stat::Duration);
        }
        child_count = child_count + folder.subfolders[i].reduced_number_of_file;
        child_size = child_size + folder.subfolders[i].reduced_size_of_files;
        child_duration = child_duration + folder.subfolders[i].reduced_duration_of_files;
        i = i + 1;
    }
    folder.reduced_number_of_file = n_files as u32 + child_count;
    folder.reduced_size_of_files = direct_size + child_size;
    folder.reduced_duration_of_files = direct_duration + child_duration;
    proof {
        assert(same_except_stats(f0, *folder));
        lemma_same_except_stats_totals(f0, *folder, Stat::Count);
        lemma_same_except_stats_totals(f0, *folder, Stat::Size);
        lemma_same_except_stats_totals(f0, *folder, Stat::Duration);
    }
}

pub proof fn lemma_files_count(s: Seq<FileNode>, n: int)
    requires
        0 <= n <= s.len(),
    ensures
        files_stat(s, n, Stat::Count) == n,
    decreases n,
{
    if n > 0 {
        lemma_files_count(s, n - 1);
    }
}

/// Videos shorter than this (when duration is known) are excluded from the library.
pub const MIN_DURATION_MS: u64 = 1000;

/// A file is kept when its duration is unknown or at least `MIN_DURATION_MS`.
pub open spec fn spec_is_valid_video(f: FileNode) -> bool {
    match f.metadata {
        Some(m) => match m.duration_ms {
            Some(d) => d >= MIN_DURATION_MS,
            None => true,
        },
        None => true,
    }
}

pub fn is_valid_video(file: &FileNode) -> (r: bool)
    ensures
        r == spec_is_valid_video(*file),
{
    match &file.metadata {
        Some(m) => match m.duration_ms {
            Some(d) => d >= MIN_DURATION_MS,
            None => true,
        },
        None => true,
    }
}

// ------------------------------------------------------------------ pruning

/// `b` is `a` with every subfolder whose stored file count is 0 removed, at every level.
pub open spec fn pruned(a: FolderNode, b: FolderNode) -> bool
    decreases a, 0int,
{
    &&& a.path == b.path
    &&& a.name == b.name
    &&& a.files@ == b.files@
    &&& a.reduced_number_of_file == b.reduced_number_of_file
    &&& a.reduced_size_of_files == b.reduced_size_of_files
    &&& a.reduced_duration_of_files == b.reduced_duration_of_files
    &&& pruned_subs(a.subfolders@, a.subfolders@.len() as int, b.subfolders@)
}

/// `bs` holds, in order, the pruned forms of those of the first `n` folders of `s_a` whose
/// stored file count is not 0.
pub open spec fn pruned_subs(s_a: Seq<FolderNode>, n: int, bs: Seq<FolderNode>) -> bool
    decreases s_a, n,
{
    if n <= 0 || n > s_a.len() {
        bs.len() == 0
    } else if s_a[n - 1].reduced_number_of_file > 0 {
        &&& bs.len() > 0
        &&& pruned_subs(s_a, n - 1, bs.drop_last())
        &&& pruned(s_a[n - 1], bs.last())
    } else {
        pruned_subs(s_a, n - 1, bs)
    }
}

/// Every folder below `f` holds at least one file in its subtree.
pub open spec fn no_empty_subfolders(f: FolderNode) -> bool
    decreases f,
{
    forall|i: int|
        0 <= i < f.subfolders@.len() ==> (#[trigger] f.subfolders@[i]).reduced_number_of_file > 0
            && no_empty_subfolders(f.subfolders@[i])
}

/// Removes subfolders whose subtree contains no valid video files.
pub fn prune_empty_subfolders(folder: &mut FolderNode)
    ensures
        pruned(*old(folder), *final(folder)),
    decreases *old(folder),
{
    let ghost f0 = *folder;
    let n = folder.subfolders.len();
    let mut i: usize = 0;
    while i < n
        invariant
            *old(folder) == f0,
            n == f0.subfolders@.len(),
            0 <= i <= n,
            folder.path == f0.path,
            folder.name == f0.name,
            folder.files == f0.files,
            folder.reduced_number_of_file == f0.reduced_number_of_file,
            folder.reduced_size_of_files == f0.reduced_size_of_files,
            folder.reduced_duration_of_files == f0.reduced_duration_of_files,
            folder.subfolders@.len() == n,
            forall|t: int| 0 <= t < i ==> pruned(f0.subfolders@[t], #[trigger] folder.subfolders@[t]),
            forall|t: int| i <= t < n ==> #[trigger] folder.subfolders@[t] == f0.subfolders@[t],
        decreases n - i,
    {
        proof {
            crate::structs::lemma_child_smaller(f0, i as int);
        }
        prune_empty_subfolders(&mut folder.subfolders[i]);
        i = i + 1;
    }
    let mut pending: Vec<FolderNode> = Vec::new();
    std::mem::swap(&mut pending, &mut folder.subfolders);
    let ghost done = pending@;
    let mut k: usize = 0;
    while pending.len() > 0
        invariant
            n == f0.subfolders@.len(),
            done.len() == n,
            forall|t: int| 0 <= t < n ==> pruned(f0.subfolders@[t], #[trigger] done[t]),
            0 <= k <= n,
            pending@ == done.subrange(k as int, n as int),
            pruned_subs(f0.subfolders@, k as int, folder.subfolders@),
            folder.path == f0.path,
            folder.name == f0.name,
            folder.files == f0.files,
            folder.reduced_number_of_file == f0.reduced_number_of_file,
            folder.reduced_size_of_files == f0.reduced_size_of_files,
            folder.reduced_duration_of_files == f0.reduced_duration_of_files,
        decreases pending@.len(),
    {
        let sub = pending.remove(0);
        assert(sub == done[k as int]);
        let ghost before = folder.subfolders@;
        if sub.reduced_number_of_file > 0 {
            folder.subfolders.push(sub);
            assert(folder.subfolders@.drop_last() == before);
        }
        k = k + 1;
        assert(pending@ == done.subrange(k as int, n as int));
    }
}

// ------------------------------------------------------------------ what pruning keeps

pub proof fn lemma_folders_all_zero(s: Seq<FolderNode>, n: int, k: Stat)
    requires
        0 <= n <= s.len(),
        forall|i: int| 0 <= i < n ==> tree_stat(#[trigger] s[i], k) == 0,
    ensures
        folders_stat(s, n, k) == 0,
    decreases n,
{
    if n > 0 {
        lemma_folders_all_zero(s, n - 1, k);
    }
}

/// A folder whose subtree holds no file has every total 0.
pub proof fn lemma_no_files_zero(f: FolderNode, k: Stat)
    requires
        tree_stat(f, Stat::Count) == 0,
    ensures
        tree_stat(f, k) == 0,
    decreases f,
{
    let n = f.subfolders@.len() as int;
    lemma_files_count(f.files@, f.files@.len() as int);
    assert forall|i: int| 0 <= i < n implies tree_stat(#[trigger] f.subfolders@[i], k) == 0 by {
        lemma_folders_stat_le(f.subfolders@, n, i, Stat::Count);
        crate::structs::lemma_child_smaller(f, i);
        lemma_no_files_zero(f.subfolders@[i], k);
    }
    lemma_folders_all_zero(f.subfolders@, n, k);
}

proof fn lemma_pruned_subs_totals(sa: Seq<FolderNode>, n: int, bs: Seq<FolderNode>, k: Stat)
    requires
        0 <= n <= sa.len(),
        pruned_subs(sa, n, bs),
        forall|i: int| 0 <= i < n ==> stats_filled(#[trigger] sa[i]),
        forall|i: int, b: FolderNode|
            0 <= i < n && #[trigger] pruned(sa[i], b) ==> tree_stat(b, k) == tree_stat(sa[i], k)
                && stats_filled(b),
    ensures
        folders_stat(bs, bs.len() as int, k) == folders_stat(sa, n, k),
        forall|j: int| 0 <= j < bs.len() ==> stats_filled(#[trigger] bs[j]),
    decreases n,
{
    if n > 0 {
        let a = sa[n - 1];
        assert(stats_filled(a));
        if a.reduced_number_of_file > 0 {
            let d = bs.drop_last();
            lemma_pruned_subs_totals(sa, n - 1, d, k);
            assert(pruned(sa[n - 1], bs.last()));
            crate::ordering::lemma_folders_stat_prefix(bs, d, bs.len() - 1, k);
            assert forall|j: int| 0 <= j < bs.len() implies stats_filled(#[trigger] bs[j]) by {
                if j < bs.len() - 1 {
                    assert(bs[j] == d[j]);
                }
            }
        } else {
            lemma_no_files_zero(a, k);
            lemma_pruned_subs_totals(sa, n - 1, bs, k);
        }
    }
}

/// Pruning a tree whose totals are filled keeps every total, and keeps them filled.
pub proof fn law_prune_keeps_totals(a: FolderNode, b: FolderNode, k: Stat)
    requires
        stats_filled(a),
        pruned(a, b),
    ensures
        tree_stat(b, k) == tree_stat(a, k),
        stats_filled(b),
    decreases a,
{
    let sa = a.subfolders@;
    let n = sa.len() as int;
    assert forall|i: int, c: FolderNode| 0 <= i < n && #[trigger] pruned(sa[i], c) implies tree_stat(c, k) == tree_stat(sa[i], k) && stats_filled(c) by {
        crate::structs::lemma_child_smaller(a, i);
        law_prune_keeps_totals(sa[i], c, k);
    }
    lemma_pruned_subs_totals(sa, n, b.subfolders@, k);
    assert forall|i: int, c: FolderNode| 0 <= i < n && #[trigger] pruned(sa[i], c) implies tree_stat(c, Stat::Count) == tree_stat(sa[i], Stat::Count) && tree_stat(c, Stat::Size) == tree_stat(sa[i], Stat::Size) && tree_stat(c, Stat::Duration) == tree_stat(sa[i], Stat::Duration) && stats_filled(c) by {
        crate::structs::lemma_child_smaller(a, i);
        law_prune_keeps_totals(sa[i], c, Stat::Count);
        law_prune_keeps_totals(sa[i], c, Stat::Size);
        law_prune_keeps_totals(sa[i], c, Stat::Duration);
    }
    lemma_pruned_subs_totals(sa, n, b.subfolders@, Stat::Count);
    lemma_pruned_subs_totals(sa, n, b.subfolders@, Stat::Size);
    lemma_pruned_subs_totals(sa, n, b.subfolders@, Stat::Duration);
}

proof fn lemma_pruned_subs_nonempty(sa: Seq<FolderNode>, n: int, bs: Seq<FolderNode>)
    requires
        0 <= n <= sa.len(),
        pruned_subs(sa, n, bs),
        forall|i: int, b: FolderNode| 0 <= i < n && #[trigger] pruned(sa[i], b) ==> no_empty_subfolders(b),
    ensures
        forall|j: int| 0 <= j < bs.len() ==> (#[trigger] bs[j]).reduced_number_of_file > 0
            && no_empty_subfolders(bs[j]),
    decreases n,
{
    if n > 0 {
        if sa[n - 1].reduced_number_of_file > 0 {
            let d = bs.drop_last();
            lemma_pruned_subs_nonempty(sa, n - 1, d);
            assert(pruned(sa[n - 1], bs.last()));
            assert forall|j: int| 0 <= j < bs.len() implies (#[trigger] bs[j]).reduced_number_of_file > 0
                && no_empty_subfolders(bs[j]) by {
                if j < bs.len() - 1 {
                    assert(bs[j] == d[j]);
                }
            }
        } else {
            lemma_pruned_subs_nonempty(sa, n - 1, bs);
        }
    }
}

/// After pruning, every folder below the root holds at least one file.
pub proof fn law_prune_leaves_no_empty(a: FolderNode, b: FolderNode)
    requires
        pruned(a, b),
    ensures
        no_empty_subfolders(b),
    decreases a,
{
    let sa = a.subfolders@;
    let n = sa.len() as int;
    assert forall|i: int, c: FolderNode| 0 <= i < n && #[trigger] pruned(sa[i], c) implies no_empty_subfolders(c) by {
        crate::structs::lemma_child_smaller(a, i);
        law_prune_leaves_no_empty(sa[i], c);
    }
    lemma_pruned_subs_nonempty(sa, n, b.subfolders@);
}

// ------------------------------------------------------------------ finishing a tree

/// `b` is `a` with its totals filled in and its children sorted by name, in that order.
pub open spec fn finalized(a: FolderNode, b: FolderNode) -> bool {
    exists|s: FolderNode| same_except_stats(a, s) && stats_filled(s) && #[trigger] children_sorted(s, b)
}

/// Fills the totals and sorts the children of a tree. Every folder stays, empty ones
/// included.
pub fn finalize_tree(folder: &mut FolderNode)
    requires
        stats_fit(*old(folder)),
    ensures
        finalized(*old(folder), *final(folder)),
        stats_filled(*final(folder)),
        tree_sorted(*final(folder)),
        tree_stat(*final(folder), Stat::Count) == tree_stat(*old(folder), Stat::Count),
        tree_stat(*final(folder), Stat::Size) == tree_stat(*old(folder), Stat::Size),
        tree_stat(*final(folder), Stat::Duration) == tree_stat(*old(folder), Stat::Duration),
{
    let ghost f0 = *folder;
    compute_reduced_stats(folder);
    let ghost s = *folder;
    folder.sort_children();
    proof {
        lemma_same_except_stats_totals(f0, s, Stat::Count);
        lemma_same_except_stats_totals(f0, s, Stat::Size);
        lemma_same_except_stats_totals(f0, s, Stat::Duration);
        law_sort_keeps_totals(s, *folder, Stat::Count);
        law_sort_keeps_totals(s, *folder, Stat::Size);
        law_sort_keeps_totals(s, *folder, Stat::Duration);
        law_sort_keeps_stats_filled(s, *folder);
        law_sort_orders_tree(s, *folder);
    }
}

// ------------------------------------------------------------------ whole library

/// The paths of the video files of a tree: a folder's own, then each subfolder's in order.
pub open spec fn tree_video_paths(f: FolderNode) -> Seq<Seq<char>>
    decreases f, 0int,
{
    files_video_paths(f.files@, f.files@.len() as int) + folders_video_paths(
        f.subfolders@,
        f.subfolders@.len() as int,
    )
}

/// The video paths among the first `n` files, in order.
pub open spec fn files_video_paths(s: Seq<FileNode>, n: int) -> Seq<Seq<char>>
    decreases n,
{
    if n <= 0 || n > s.len() {
        seq![]
    } else if spec_is_video_path(s[n - 1].path@) {
        files_video_paths(s, n - 1).push(s[n - 1].path@)
    } else {
        files_video_paths(s, n - 1)
    }
}

pub open spec fn folders_video_paths(s: Seq<FolderNode>, n: int) -> Seq<Seq<char>>
    decreases s, n,
{
    if n <= 0 || n > s.len() {
        seq![]
    } else {
        folders_video_paths(s, n - 1) + tree_video_paths(s[n - 1])
    }
}

/// Appends to `out` the path of every video file of the tree, in tree order.
pub fn collect_video_paths(folder: &FolderNode, out: &mut Vec<String>)
    ensures
        final(out)@.map_values(|p: String| p@) == old(out)@.map_values(|p: String| p@)
            + tree_video_paths(*folder),
    decreases *folder,
{
    let ghost o0 = out@.map_values(|p: String| p@);
    let mut i: usize = 0;
    while i < folder.files.len()
        invariant
            0 <= i <= folder.files@.len(),
            o0 == old(out)@.map_values(|p: String| p@),
            out@.map_values(|p: String| p@) == o0 + files_video_paths(folder.files@, i as int),
        decreases folder.files@.len() - i,
    {
        if is_video_path(folder.files[i].path.as_str()) {
            let ghost prev = out@;
            out.push(crate::text::owned(folder.files[i].path.as_str()));
            assert(out@.map_values(|p: String| p@) == prev.map_values(|p: String| p@).push(
                folder.files@[i as int].path@,
            ));
        }
        i = i + 1;
    }
    let ghost o1 = out@.map_values(|p: String| p@);
    let mut j: usize = 0;
    while j < folder.subfolders.len()
        invariant
            0 <= j <= folder.subfolders@.len(),
            o1 == o0 + files_video_paths(folder.files@, folder.files@.len() as int),
            o0 == old(out)@.map_values(|p: String| p@),
            out@.map_values(|p: String| p@) == o1 + folders_video_paths(folder.subfolders@, j as int),
        decreases folder.subfolders@.len() - j,
    {
        proof {
            crate::structs::lemma_child_smaller(*folder, j as int);
        }
        collect_video_paths(&folder.subfolders[j], out);
        j = j + 1;
    }
}

/// Empty library root shown before the first scan completes.
pub fn empty_library_root(workspace: &str) -> (r: FolderNode)
    ensures
        r.path@ == workspace@,
        r.name@ == seq!['r', 'o', 'o', 't'],
        r.subfolders@.len() == 0,
        r.files@.len() == 0,
        r.reduced_number_of_file == 0,
        r.reduced_size_of_files == 0,
        r.reduced_duration_of_files == 0,
{
    let name = crate::text::owned("root");
    proof {
        reveal_strlit("root");
    }
    FolderNode {
        path: crate::text::owned(workspace),
        name,
        subfolders: Vec::new(),
        files: Vec::new(),
        reduced_number_of_file: 0,
        reduced_size_of_files: 0,
        reduced_duration_of_files: 0,
    }
}

/// The three totals of a tree's files, or `None` when one of them exceeds `u64::MAX`.
pub fn subtree_totals(folder: &FolderNode) -> (r: Option<(u64, u64, u64)>)
    ensures
        match r {
            Some((c, s, d)) => c == tree_stat(*folder, Stat::Count) && s == tree_stat(*folder, Stat::Size)
                && d == tree_stat(*folder, Stat::Duration),
            None => tree_stat(*folder, Stat::Count) > u64::MAX || tree_stat(*folder, Stat::Size) > u64::MAX
                || tree_stat(*folder, Stat::Duration) > u64::MAX,
        },
    decreases *folder,
{
    let ghost f = *folder;
    let nf = folder.files.len();
    proof {
        lemma_files_count(f.files@, nf as int);
    }
    let mut size: u64 = 0;
    let mut dur: u64 = 0;
    let mut j: usize = 0;
    while j < nf
        invariant
            nf == f.files@.len(),
            f == *folder,
            0 <= j <= nf,
            size == files_stat(f.files@, j as int, Stat::Size),
            dur == files_stat(f.files@, j as int, Stat::Duration),
        decreases nf - j,
    {
        let fs = file_size(&folder.files[j]);
        let fd = file_duration_ms(&folder.files[j]);
        match (size.checked_add(fs), dur.checked_add(fd)) {
            (Some(a), Some(b)) => {
                size = a;
                dur = b;
            },
            _ => {
                proof {
                    lemma_files_stat_le(f.files@, nf as int, j + 1, Stat::Size);
                    lemma_files_stat_le(f.files@, nf as int, j + 1, Stat::Duration);
                }
                return None;
            },
        }
        j = j + 1;
    }
    let mut count: u64 = nf as u64;
    let ns = folder.subfolders.len();
    let mut i: usize = 0;
    while i < ns
        invariant
            ns == f.subfolders@.len(),
            nf == f.files@.len(),
            f == *folder,
            0 <= i <= ns,
            count == nf + folders_stat(f.subfolders@, i as int, Stat::Count),
            size == files_stat(f.files@, nf as int, Stat::Size) + folders_stat(f.subfolders@, i as int, Stat::Size),
            dur == files_stat(f.files@, nf as int, Stat::Duration) + folders_stat(f.subfolders@, i as int, Stat::Duration),
            files_stat(f.files@, nf as int, Stat::Count) == nf,
        decreases ns - i,
    {
        proof {
            crate::structs::lemma_child_smaller(f, i as int);
            lemma_folders_stat_prefix_le(f.subfolders@, ns as int, i + 1, Stat::Count);
            lemma_folders_stat_prefix_le(f.subfolders@, ns as int, i + 1, Stat::Size);
            lemma_folders_stat_prefix_le(f.subfolders@, ns as int, i + 1, Stat::Duration);
        }
        match subtree_totals(&folder.subfolders[i]) {
            Some((c, s, d)) => {
                match (count.checked_add(c), size.checked_add(s), dur.checked_add(d)) {
                    (Some(a), Some(b), Some(e)) => {
                        count = a;
                        size = b;
                        dur = e;
                    },
                    _ => {
                        return None;
                    },
                }
            },
            None => {
                proof {
                    lemma_folders_stat_le(f.subfolders@, ns as int, i as int, Stat::Count);
                    lemma_folders_stat_le(f.subfolders@, ns as int, i as int, Stat::Size);
                    lemma_folders_stat_le(f.subfolders@, ns as int, i as int, Stat::Duration);
                }
                return None;
            },
        }
        i = i + 1;
    }
    Some((count, size, dur))
}

/// Whether the totals of a tree fit in the integer types that store them.
pub fn totals_fit(folder: &FolderNode) -> (r: bool)
    ensures
        r == stats_fit(*folder),
{
    match subtree_totals(folder) {
        Some((c, _, _)) => c <= 0xffff_ffffu64,
        None => false,
    }
}

// ------------------------------------------------------------------ probe results

/// The probe recorded for path `p`, if any: the last one recorded under the same path, as
/// a map by path filled in order keeps it.
pub open spec fn probe_for(probes: Seq<(String, VideoProbe)>, p: Seq<char>) -> Option<VideoProbe>
    decreases probes.len(),
{
    if probes.len() == 0 {
        None
    } else if same_path(probes.last().0@, p) {
        Some(probes.last().1)
    } else {
        probe_for(probes.drop_last(), p)
    }
}

/// A file with the metadata of a probe: its size kept, every probed field replaced.
pub open spec fn with_probe(f: FileNode, p: VideoProbe) -> FileNode {
    FileNode {
        metadata: Some(
            FileMetadata {
                size: match f.metadata {
                    Some(m) => m.size,
                    None => None,
                },
                duration_ms: p.duration_ms,
                bitrate: p.bitrate,
                codec: p.codec,
                width: p.width,
                height: p.height,
                audio_track_count: p.audio_track_count,
                subtitle_track_count: p.subtitle_track_count,
            },
        ),
        ..f
    }
}

/// What becomes of one file once the probes are known: dropped when it is not a video
/// path, given its probe when there is one, and dropped when it is then too short.
pub open spec fn probed_file(f: FileNode, probes: Seq<(String, VideoProbe)>) -> Option<FileNode> {
    if !spec_is_video_path(f.path@) {
        None
    } else {
        let g = match probe_for(probes, f.path@) {
            Some(p) => with_probe(f, p),
            None => f,
        };
        if spec_is_valid_video(g) {
            Some(g)
        } else {
            None
        }
    }
}

/// The kept files among the first `n` of `s`, in order.
pub open spec fn probed_files(s: Seq<FileNode>, n: int, probes: Seq<(String, VideoProbe)>) -> Seq<FileNode>
    decreases n,
{
    if n <= 0 || n > s.len() {
        seq![]
    } else {
        match probed_file(s[n - 1], probes) {
            Some(g) => probed_files(s, n - 1, probes).push(g),
            None => probed_files(s, n - 1, probes),
        }
    }
}

/// `b` is `a` with the probes applied to the files of every folder.
pub open spec fn probes_applied(a: FolderNode, b: FolderNode, probes: Seq<(String, VideoProbe)>) -> bool
    decreases a,
{
    &&& a.path == b.path
    &&& a.name == b.name
    &&& b.files@ == probed_files(a.files@, a.files@.len() as int, probes)
    &&& a.reduced_number_of_file == b.reduced_number_of_file
    &&& a.reduced_size_of_files == b.reduced_size_of_files
    &&& a.reduced_duration_of_files == b.reduced_duration_of_files
    &&& a.subfolders@.len() == b.subfolders@.len()
    &&& forall|i: int|
        0 <= i < a.subfolders@.len() ==> probes_applied(
            #[trigger] a.subfolders@[i],
            b.subfolders@[i],
            probes,
        )
}

fn lookup_probe<'a>(probes: &'a Vec<(String, VideoProbe)>, path: &str) -> (r: Option<&'a VideoProbe>)
    ensures
        match r {
            Some(p) => probe_for(probes@, path@) == Some(*p),
            None => probe_for(probes@, path@) is None,
        },
{
    let mut i: usize = probes.len();
    assert(probes@.subrange(0, probes@.len() as int) == probes@);
    while i > 0
        invariant
            0 <= i <= probes@.len(),
            probe_for(probes@.subrange(0, i as int), path@) == probe_for(probes@, path@),
        decreases i,
    {
        let ghost pre = probes@.subrange(0, i as int);
        assert(pre.last() == probes@[i - 1]);
        if paths_equal(probes[i - 1].0.as_str(), path) {
            return Some(&probes[i - 1].1);
        }
        assert(pre.drop_last() == probes@.subrange(0, i - 1));
        i = i - 1;
    }
    None
}

fn apply_probe(file: FileNode, probe: &VideoProbe) -> (r: FileNode)
    ensures
        r == with_probe(file, *probe),
{
    let size = match &file.metadata {
        Some(m) => m.size,
        None => None,
    };
    FileNode {
        metadata: Some(
            FileMetadata {
                size,
                duration_ms: probe.duration_ms,
                bitrate: probe.bitrate,
                codec: probe.codec.clone(),
                width: probe.width,
                height: probe.height,
                audio_track_count: probe.audio_track_count,
                subtitle_track_count: probe.subtitle_track_count,
            },
        ),
        ..file
    }
}

/// Gives every video file its probe, drops non-video paths and clips shorter than
/// `MIN_DURATION_MS`, in every folder of the tree.
pub fn apply_probes_and_filter(folder: &mut FolderNode, probes: &Vec<(String, VideoProbe)>)
    ensures
        probes_applied(*old(folder), *final(folder), probes@),
    decreases *old(folder),
{
    let ghost f0 = *folder;
    let mut pending: Vec<FileNode> = Vec::new();
    std::mem::swap(&mut pending, &mut folder.files);
    let nf = pending.len();
    let mut k: usize = 0;
    while pending.len() > 0
        invariant
            *old(folder) == f0,
            nf == f0.files@.len(),
            0 <= k <= nf,
            pending@ == f0.files@.subrange(k as int, nf as int),
            folder.files@ == probed_files(f0.files@, k as int, probes@),
            folder.path == f0.path,
            folder.name == f0.name,
            folder.subfolders == f0.subfolders,
            folder.reduced_number_of_file == f0.reduced_number_of_file,
            folder.reduced_size_of_files == f0.reduced_size_of_files,
            folder.reduced_duration_of_files == f0.reduced_duration_of_files,
        decreases pending@.len(),
    {
        let file = pending.remove(0);
        assert(file == f0.files@[k as int]);
        if is_video_path(file.path.as_str()) {
            let g = match lookup_probe(probes, file.path.as_str()) {
                Some(p) => apply_probe(file, p),
                None => file,
            };
            if is_valid_video(&g) {
                folder.files.push(g);
            }
        }
        k = k + 1;
        assert(pending@ == f0.files@.subrange(k as int, nf as int));
    }
    let n = folder.subfolders.len();
    let mut i: usize = 0;
    while i < n
        invariant
            *old(folder) == f0,
            n == f0.subfolders@.len(),
            0 <= i <= n,
            folder.path == f0.path,
            folder.name == f0.name,
            folder.files@ == probed_files(f0.files@, f0.files@.len() as int, probes@),
            folder.reduced_number_of_file == f0.reduced_number_of_file,
            folder.reduced_size_of_files == f0.reduced_size_of_files,
            folder.reduced_duration_of_files == f0.reduced_duration_of_files,
            folder.subfolders@.len() == n,
            forall|t: int| 0 <= t < i ==> probes_applied(f0.subfolders@[t], #[trigger] folder.subfolders@[t], probes@),
            forall|t: int| i <= t < n ==> #[trigger] folder.subfolders@[t] == f0.subfolders@[t],
        decreases n - i,
    {
        proof {
            crate::structs::lemma_child_smaller(f0, i as int);
        }
        apply_probes_and_filter(&mut folder.subfolders[i], probes);
        i = i + 1;
    }
    assert forall|t: int| 0 <= t < f0.subfolders@.len() implies probes_applied(
        #[trigger] f0.subfolders@[t],
        folder.subfolders@[t],
        probes@,
    ) by {}
}

// ------------------------------------------------------------------ probing and volumes

/// Applies the probes of the library's videos, drops non-videos and short clips, then
/// refreshes the totals and sorts.
pub fn probe_library(tree: &mut FolderNode, probes: &Vec<(String, VideoProbe)>)
    requires
        forall|b: FolderNode| #[trigger] probes_applied(*old(tree), b, probes@) ==> stats_fit(b),
    ensures
        exists|b: FolderNode| #[trigger] probes_applied(*old(tree), b, probes@) && finalized(b, *final(tree)),
        stats_filled(*final(tree)),
        tree_sorted(*final(tree)),
{
    apply_probes_and_filter(tree, probes);
    let ghost b = *tree;
    finalize_tree(tree);
    assert(probes_applied(*old(tree), b, probes@));
}

/// Applies the probes as `probe_library` does when the totals of the tree they leave
/// fit in the integer types that store them, and returns whether they did. When they do
/// not, the tree is left with the probes applied and its totals not refreshed.
pub fn try_probe_library(tree: &mut FolderNode, probes: &Vec<(String, VideoProbe)>) -> (r: bool)
    ensures
        (forall|b: FolderNode| #[trigger] probes_applied(*old(tree), b, probes@) ==> stats_fit(b)) ==> r,
        r ==> exists|b: FolderNode|
            #[trigger] probes_applied(*old(tree), b, probes@) && stats_fit(b) && finalized(b, *final(tree)),
        r ==> stats_filled(*final(tree)) && tree_sorted(*final(tree)),
        !r ==> probes_applied(*old(tree), *final(tree), probes@) && !stats_fit(*final(tree)),
{
    apply_probes_and_filter(tree, probes);
    let ghost b = *tree;
    if !totals_fit(tree) {
        return false;
    }
    finalize_tree(tree);
    assert(probes_applied(*old(tree), b, probes@));
    true
}

/// Sum of a total over the trees of the first `n` volumes.
pub open spec fn volumes_stat(vs: Seq<(String, FolderNode)>, n: int, k: Stat) -> nat
    decreases n,
{
    if n <= 0 || n > vs.len() {
        0
    } else {
        volumes_stat(vs, n - 1, k) + tree_stat(vs[n - 1].1, k)
    }
}

/// The totals of all volumes together fit in the integer types that store them.
pub open spec fn volumes_fit(vs: Seq<(String, FolderNode)>) -> bool {
    &&& volumes_stat(vs, vs.len() as int, Stat::Count) <= u32::MAX
    &&& volumes_stat(vs, vs.len() as int, Stat::Size) <= u64::MAX
    &&& volumes_stat(vs, vs.len() as int, Stat::Duration) <= u64::MAX
}

/// The hidden root above the volumes: named `root`, at the workspace path, without
/// files, its subfolders the scanned volumes, each renamed to its volume's name.
pub open spec fn is_volume_root(workspace: Seq<char>, vs: Seq<(String, FolderNode)>, r: FolderNode) -> bool {
    &&& r.path@ == workspace
    &&& r.name@ == "root"@
    &&& r.files@.len() == 0
    &&& r.reduced_number_of_file == 0
    &&& r.reduced_size_of_files == 0
    &&& r.reduced_duration_of_files == 0
    &&& r.subfolders@.len() == vs.len()
    &&& forall|i: int|
        0 <= i < vs.len() ==> #[trigger] r.subfolders@[i] == (FolderNode { name: vs[i].0, ..vs[i].1 })
}

proof fn lemma_volume_root_stats(vs: Seq<(String, FolderNode)>, subs: Seq<FolderNode>, n: int, k: Stat)
    requires
        0 <= n <= vs.len(),
        subs.len() == vs.len(),
        forall|i: int| 0 <= i < vs.len() ==> #[trigger] subs[i] == (FolderNode { name: vs[i].0, ..vs[i].1 }),
    ensures
        folders_stat(subs, n, k) == volumes_stat(vs, n, k),
    decreases n,
{
    if n > 0 {
        lemma_volume_root_stats(vs, subs, n - 1, k);
        let a = subs[n - 1];
        let b = vs[n - 1].1;
        assert(a == (FolderNode { name: vs[n - 1].0, ..b }));
        assert(a.files == b.files && a.subfolders == b.subfolders);
        assert(tree_stat(a, k) == tree_stat(b, k));
    }
}

/// The hidden root of the library above the scanned volumes.
pub fn volume_library_root(workspace: &str, volumes: Vec<(String, FolderNode)>) -> (r: FolderNode)
    ensures
        is_volume_root(workspace@, volumes@, r),
        stats_fit(r) == volumes_fit(volumes@),
{
    let ghost vs = volumes@;
    let mut volumes = volumes;
    let mut nodes: Vec<FolderNode> = Vec::new();
    let mut pending: Vec<(String, FolderNode)> = Vec::new();
    std::mem::swap(&mut pending, &mut volumes);
    let n = pending.len();
    let mut k: usize = 0;
    while pending.len() > 0
        invariant
            n == vs.len(),
            0 <= k <= n,
            pending@ == vs.subrange(k as int, n as int),
            nodes@.len() == k,
            forall|i: int| 0 <= i < k ==> #[trigger] nodes@[i] == (FolderNode { name: vs[i].0, ..vs[i].1 }),
        decreases pending@.len(),
    {
        let (name, node) = pending.remove(0);
        assert((name, node) == vs[k as int]);
        nodes.push(FolderNode { name, ..node });
        k = k + 1;
        assert(pending@ == vs.subrange(k as int, n as int));
    }
    let root_name = crate::text::owned("root");
    let r = FolderNode {
        path: crate::text::owned(workspace),
        name: root_name,
        subfolders: nodes,
        files: Vec::new(),
        reduced_number_of_file: 0,
        reduced_size_of_files: 0,
        reduced_duration_of_files: 0,
    };
    proof {
        lemma_volume_root_stats(vs, r.subfolders@, vs.len() as int, Stat::Count);
        lemma_volume_root_stats(vs, r.subfolders@, vs.len() as int, Stat::Size);
        lemma_volume_root_stats(vs, r.subfolders@, vs.len() as int, Stat::Duration);
        assert(files_stat(r.files@, 0, Stat::Count) == 0);
    }
    r
}

/// The folders among the first `n` of `s` whose stored file count is not 0, in order.
pub open spec fn nonempty_folders(s: Seq<FolderNode>, n: int) -> Seq<FolderNode>
    decreases n,
{
    if n <= 0 || n > s.len() {
        seq![]
    } else if s[n - 1].reduced_number_of_file > 0 {
        nonempty_folders(s, n - 1).push(s[n - 1])
    } else {
        nonempty_folders(s, n - 1)
    }
}

/// `b` is the library root `a` without the volumes that hold no file.
pub open spec fn empty_volumes_dropped(a: FolderNode, b: FolderNode) -> bool {
    &&& b.path == a.path
    &&& b.name == a.name
    &&& b.files == a.files
    &&& b.reduced_number_of_file == a.reduced_number_of_file
    &&& b.reduced_size_of_files == a.reduced_size_of_files
    &&& b.reduced_duration_of_files == a.reduced_duration_of_files
    &&& b.subfolders@ == nonempty_folders(a.subfolders@, a.subfolders@.len() as int)
}

proof fn lemma_nonempty_folders_from(s: Seq<FolderNode>, n: int)
    requires
        0 <= n <= s.len(),
    ensures
        nonempty_folders(s, n).len() <= n,
        forall|j: int|
            0 <= j < nonempty_folders(s, n).len() ==> exists|i: int|
                0 <= i < n && #[trigger] nonempty_folders(s, n)[j] == s[i],
    decreases n,
{
    if n > 0 {
        lemma_nonempty_folders_from(s, n - 1);
        let prev = nonempty_folders(s, n - 1);
        let cur = nonempty_folders(s, n);
        assert forall|j: int| 0 <= j < cur.len() implies exists|i: int| 0 <= i < n && #[trigger] cur[j] == s[i] by {
            if j < prev.len() {
                assert(cur[j] == prev[j]);
                let i = choose|i: int| 0 <= i < n - 1 && prev[j] == s[i];
                assert(cur[j] == s[i]);
            } else {
                assert(cur[j] == s[n - 1]);
            }
        }
    }
}

proof fn lemma_nonempty_folders_keep(s: Seq<FolderNode>, n: int)
    requires
        0 <= n <= s.len(),
        sorted_by_key(s),
        forall|i: int| 0 <= i < s.len() ==> stats_filled(#[trigger] s[i]) && tree_sorted(s[i]),
    ensures
        sorted_by_key(nonempty_folders(s, n)),
        forall|j: int|
            0 <= j < nonempty_folders(s, n).len() ==> stats_filled(#[trigger] nonempty_folders(s, n)[j])
                && tree_sorted(nonempty_folders(s, n)[j]),
        folders_stat(nonempty_folders(s, n), nonempty_folders(s, n).len() as int, Stat::Count)
            == folders_stat(s, n, Stat::Count),
        folders_stat(nonempty_folders(s, n), nonempty_folders(s, n).len() as int, Stat::Size)
            == folders_stat(s, n, Stat::Size),
        folders_stat(nonempty_folders(s, n), nonempty_folders(s, n).len() as int, Stat::Duration)
            == folders_stat(s, n, Stat::Duration),
    decreases n,
{
    lemma_nonempty_folders_from(s, n);
    if n > 0 {
        lemma_nonempty_folders_keep(s, n - 1);
        lemma_nonempty_folders_from(s, n - 1);
        let prev = nonempty_folders(s, n - 1);
        let cur = nonempty_folders(s, n);
        let x = s[n - 1];
        assert(stats_filled(x));
        if x.reduced_number_of_file > 0 {
            assert(cur == prev.push(x));
            assert forall|i: int, j: int| 0 <= i < j < cur.len() implies lex_le(#[trigger] cur[i].key(), #[trigger] cur[j].key()) by {
                if j < prev.len() {
                    assert(cur[i] == prev[i] && cur[j] == prev[j]);
                } else {
                    assert(cur[i] == prev[i]);
                    let a = choose|a: int| 0 <= a < n - 1 && prev[i] == s[a];
                    assert(lex_le(s[a].key(), s[n - 1].key()));
                }
            }
            assert forall|j: int| 0 <= j < cur.len() implies stats_filled(#[trigger] cur[j]) && tree_sorted(cur[j]) by {
                if j < prev.len() {
                    assert(cur[j] == prev[j]);
                }
            }
            lemma_folders_stat_prefix(prev, cur, prev.len() as int, Stat::Count);
            lemma_folders_stat_prefix(prev, cur, prev.len() as int, Stat::Size);
            lemma_folders_stat_prefix(prev, cur, prev.len() as int, Stat::Duration);
        } else {
            lemma_no_files_zero(x, Stat::Size);
            lemma_no_files_zero(x, Stat::Duration);
        }
    }
}

/// Removes from the library root the volumes that hold no file.
fn drop_empty_volumes(root: &mut FolderNode)
    ensures
        empty_volumes_dropped(*old(root), *final(root)),
{
    let mut pending: Vec<FolderNode> = Vec::new();
    std::mem::swap(&mut pending, &mut root.subfolders);
    let ghost all = pending@;
    let n = pending.len();
    let mut k: usize = 0;
    while pending.len() > 0
        invariant
            all == old(root).subfolders@,
            n == all.len(),
            0 <= k <= n,
            pending@ == all.subrange(k as int, n as int),
            root.subfolders@ == nonempty_folders(all, k as int),
            root.path == old(root).path,
            root.name == old(root).name,
            root.files == old(root).files,
            root.reduced_number_of_file == old(root).reduced_number_of_file,
            root.reduced_size_of_files == old(root).reduced_size_of_files,
            root.reduced_duration_of_files == old(root).reduced_duration_of_files,
        decreases pending@.len(),
    {
        let volume = pending.remove(0);
        assert(volume == all[k as int]);
        if volume.reduced_number_of_file > 0 {
            root.subfolders.push(volume);
        }
        k = k + 1;
        assert(pending@ == all.subrange(k as int, n as int));
    }
}

/// The library of all volumes, scanned without probing: the hidden root above the
/// volumes, with totals filled and children sorted, and the volumes that hold no file
/// left out.
pub fn scan_volume_library(workspace: &str, volumes: Vec<(String, FolderNode)>) -> (r: FolderNode)
    requires
        volumes_fit(volumes@),
    ensures
        exists|root: FolderNode, f: FolderNode|
            #[trigger] is_volume_root(workspace@, volumes@, root) && #[trigger] finalized(root, f)
                && empty_volumes_dropped(f, r),
        stats_filled(r),
        tree_sorted(r),
{
    let mut root = volume_library_root(workspace, volumes);
    let ghost root0 = root;
    finalize_tree(&mut root);
    let ghost f = root;
    drop_empty_volumes(&mut root);
    proof {
        assert(is_volume_root(workspace@, volumes@, root0));
        let s = f.subfolders@;
        assert forall|i: int| 0 <= i < s.len() implies stats_filled(#[trigger] s[i]) && tree_sorted(s[i]) by {}
        lemma_nonempty_folders_keep(s, s.len() as int);
        assert(root.subfolders@ == nonempty_folders(s, s.len() as int));
    }
    root
}

/// The library of all volumes as `scan_volume_library` gives it, or `None` when the
/// totals of all volumes together do not fit in the integer types that store them.
pub fn try_scan_volume_library(workspace: &str, volumes: Vec<(String, FolderNode)>) -> (r: Option<FolderNode>)
    ensures
        r is None <==> !volumes_fit(volumes@),
        match r {
            Some(t) => {
                &&& exists|root: FolderNode, f: FolderNode|
                    #[trigger] is_volume_root(workspace@, volumes@, root) && #[trigger] finalized(root, f)
                        && empty_volumes_dropped(f, t)
                &&& stats_filled(t)
                &&& tree_sorted(t)
            },
            None => true,
        },
{
    let mut root = volume_library_root(workspace, volumes);
    if !totals_fit(&root) {
        return None;
    }
    let ghost root0 = root;
    finalize_tree(&mut root);
    let ghost f = root;
    drop_empty_volumes(&mut root);
    proof {
        assert(is_volume_root(workspace@, volumes@, root0));
        let s = f.subfolders@;
        assert forall|i: int| 0 <= i < s.len() implies stats_filled(#[trigger] s[i]) && tree_sorted(s[i]) by {}
        lemma_nonempty_folders_keep(s, s.len() as int);
    }
    Some(root)
}

} // verus!
