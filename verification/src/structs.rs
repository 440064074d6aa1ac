use vstd::prelude::*;

verus! {

/// Metadata gathered for a video file when the library is scanned.
#[derive(Debug, Clone)]
pub struct FileMetadata {
    pub size: Option<u64>,
    pub duration_ms: Option<u64>,
    pub bitrate: Option<u32>,
    pub codec: Option<String>,
    pub width: Option<u32>,
    pub height: Option<u32>,
    pub audio_track_count: Option<u32>,
    pub subtitle_track_count: Option<u32>,
}

/// A video file of the library tree.
#[derive(Debug, Clone)]
pub struct FileNode {
    pub path: String,
    pub name: String,
    /// Upper-case extension.
    pub format: String,
    pub metadata: Option<FileMetadata>,
}

/// A directory of the library tree, with the totals of its whole subtree.
#[derive(Debug)]
pub struct FolderNode {
    pub path: String,
    pub name: String,
    pub subfolders: Vec<FolderNode>,
    pub files: Vec<FileNode>,
    /// Total video file count in this folder and all descendants.
    pub reduced_number_of_file: u32,
    /// Total byte size of those files.
    pub reduced_size_of_files: u64,
    /// Total playback duration in milliseconds.
    pub reduced_duration_of_files: u64,
}

/// The three quantities that a folder aggregates over its subtree.
pub enum Stat {
    Count,
    Size,
    Duration,
}

/// Byte size of a file, 0 when unknown.
pub open spec fn spec_file_size(f: FileNode) -> nat {
    match f.metadata {
        Some(m) => match m.size {
            Some(s) => s as nat,
            None => 0,
        },
        None => 0,
    }
}

/// Duration of a file in milliseconds, 0 when unknown.
pub open spec fn spec_file_duration(f: FileNode) -> nat {
    match f.metadata {
        Some(m) => match m.duration_ms {
            Some(d) => d as nat,
            None => 0,
        },
        None => 0,
    }
}

/// What one file contributes to a folder's total.
pub open spec fn file_stat(f: FileNode, k: Stat) -> nat {
    match k {
        Stat::Count => 1,
        Stat::Size => spec_file_size(f),
        Stat::Duration => spec_file_duration(f),
    }
}

/// Sum of `file_stat` over the first `n` files.
pub open spec fn files_stat(s: Seq<FileNode>, n: int, k: Stat) -> nat
    decreases n,
{
    if n <= 0 || n > s.len() {
        0
    } else {
        files_stat(s, n - 1, k) + file_stat(s[n - 1], k)
    }
}

/// Total of a quantity over every file in the subtree of `f`.
pub open spec fn tree_stat(f: FolderNode, k: Stat) -> nat
    decreases f, 0int,
{
    files_stat(f.files@, f.files@.len() as int, k) + folders_stat(
        f.subfolders@,
        f.subfolders@.len() as int,
        k,
    )
}

/// Sum of `tree_stat` over the first `n` folders of `s`.
pub open spec fn folders_stat(s: Seq<FolderNode>, n: int, k: Stat) -> nat
    decreases s, n,
{
    if n <= 0 || n > s.len() {
        0
    } else {
        folders_stat(s, n - 1, k) + tree_stat(s[n - 1], k)
    }
}

/// The value that a folder stores for a quantity.
pub open spec fn stored_stat(f: FolderNode, k: Stat) -> nat {
    match k {
        Stat::Count => f.reduced_number_of_file as nat,
        Stat::Size => f.reduced_size_of_files as nat,
        Stat::Duration => f.reduced_duration_of_files as nat,
    }
}

/// Every folder of the subtree stores the true totals of its own subtree.
pub open spec fn stats_filled(f: FolderNode) -> bool
    decreases f,
{
    &&& stored_stat(f, Stat::Count) == tree_stat(f, Stat::Count)
    &&& stored_stat(f, Stat::Size) == tree_stat(f, Stat::Size)
    &&& stored_stat(f, Stat::Duration) == tree_stat(f, Stat::Duration)
    &&& forall|i: int|
        0 <= i < f.subfolders@.len() ==> stats_filled(#[trigger] f.subfolders@[i])
}

/// The totals of the subtree fit in the integer types that store them.
pub open spec fn stats_fit(f: FolderNode) -> bool {
    &&& tree_stat(f, Stat::Count) <= u32::MAX
    &&& tree_stat(f, Stat::Size) <= u64::MAX
    &&& tree_stat(f, Stat::Duration) <= u64::MAX
}

/// Two trees that differ at most in their stored totals.
pub open spec fn same_except_stats(a: FolderNode, b: FolderNode) -> bool
    decreases a,
{
    &&& a.path == b.path
    &&& a.name == b.name
    &&& a.files@ == b.files@
    &&& a.subfolders@.len() == b.subfolders@.len()
    &&& forall|i: int|
        0 <= i < a.subfolders@.len() ==> same_except_stats(
            #[trigger] a.subfolders@[i],
            b.subfolders@[i],
        )
}

pub proof fn lemma_folders_stat_le(s: Seq<FolderNode>, n: int, i: int, k: Stat)
    requires
        0 <= i < n <= s.len(),
    ensures
        tree_stat(s[i], k) <= folders_stat(s, n, k),
    decreases n,
{
    if i < n - 1 {
        lemma_folders_stat_le(s, n - 1, i, k);
    }
}

pub proof fn lemma_files_stat_le(s: Seq<FileNode>, n: int, m: int, k: Stat)
    requires
        0 <= m <= n <= s.len(),
    ensures
        files_stat(s, m, k) <= files_stat(s, n, k),
    decreases n,
{
    if m < n {
        lemma_files_stat_le(s, n - 1, m, k);
    }
}

pub proof fn lemma_folders_stat_prefix_le(s: Seq<FolderNode>, n: int, m: int, k: Stat)
    requires
        0 <= m <= n <= s.len(),
    ensures
        folders_stat(s, m, k) <= folders_stat(s, n, k),
    decreases n,
{
    if m < n {
        lemma_folders_stat_prefix_le(s, n - 1, m, k);
    }
}

/// Trees that differ only in stored totals have the same true totals.
pub proof fn lemma_same_except_stats_totals(a: FolderNode, b: FolderNode, k: Stat)
    requires
        same_except_stats(a, b),
    ensures
        tree_stat(a, k) == tree_stat(b, k),
    decreases a, 0int,
{
    assert forall|i: int| 0 <= i < a.subfolders@.len() implies #[trigger] same_except_stats(
        a.subfolders@[i],
        b.subfolders@[i],
    ) by {}
    lemma_same_except_stats_folders(a.subfolders@, b.subfolders@, a.subfolders@.len() as int, k);
}

pub proof fn lemma_same_except_stats_folders(s: Seq<FolderNode>, t: Seq<FolderNode>, n: int, k: Stat)
    requires
        s.len() == t.len(),
        0 <= n <= s.len(),
        forall|i: int| 0 <= i < s.len() ==> #[trigger] same_except_stats(s[i], t[i]),
    ensures
        folders_stat(s, n, k) == folders_stat(t, n, k),
    decreases s, n,
{
    if n > 0 {
        lemma_same_except_stats_folders(s, t, n - 1, k);
        assert(same_except_stats(s[n - 1], t[n - 1]));
        lemma_same_except_stats_totals(s[n - 1], t[n - 1], k);
    }
}

/// Number of folder levels in the subtree of `f`, counting `f`.
pub open spec fn tree_depth(f: FolderNode) -> nat
    decreases f, 0int,
{
    1 + folders_depth(f.subfolders@, f.subfolders@.len() as int)
}

/// The largest depth among the first `n` folders of `s`.
pub open spec fn folders_depth(s: Seq<FolderNode>, n: int) -> nat
    decreases s, n,
{
    if n <= 0 || n > s.len() {
        0
    } else {
        let a = folders_depth(s, n - 1);
        let b = tree_depth(s[n - 1]);
        if a >= b {
            a
        } else {
            b
        }
    }
}

pub proof fn lemma_folders_depth_le(s: Seq<FolderNode>, n: int, i: int)
    requires
        0 <= i < n <= s.len(),
    ensures
        tree_depth(s[i]) <= folders_depth(s, n),
    decreases n,
{
    if i < n - 1 {
        lemma_folders_depth_le(s, n - 1, i);
    }
}

/// A subfolder is one level shallower than its parent.
pub proof fn lemma_child_depth(f: FolderNode, i: int)
    requires
        0 <= i < f.subfolders@.len(),
    ensures
        tree_depth(f.subfolders@[i]) + 1 <= tree_depth(f),
{
    lemma_folders_depth_le(f.subfolders@, f.subfolders@.len() as int, i);
}

proof fn lemma_folders_depth_bound(s: Seq<FolderNode>, n: int, m: nat)
    requires
        0 <= n <= s.len(),
        forall|i: int| 0 <= i < n ==> tree_depth(#[trigger] s[i]) <= m,
    ensures
        folders_depth(s, n) <= m,
    decreases n,
{
    if n > 0 {
        lemma_folders_depth_bound(s, n - 1, m);
    }
}

/// Whether the tree has at most `limit` folder levels, counting its root.
pub fn depth_within(f: &FolderNode, limit: u32) -> (r: bool)
    ensures
        r == (tree_depth(*f) <= limit),
    decreases *f,
{
    if limit == 0 {
        return false;
    }
    let n = f.subfolders.len();
    let mut i: usize = 0;
    while i < n
        invariant
            n == f.subfolders@.len(),
            0 <= i <= n,
            limit >= 1,
            forall|j: int| 0 <= j < i ==> tree_depth(#[trigger] f.subfolders@[j]) <= limit - 1,
        decreases n - i,
    {
        proof {
            lemma_child_smaller(*f, i as int);
        }
        if !depth_within(&f.subfolders[i], limit - 1) {
            proof {
                lemma_child_depth(*f, i as int);
            }
            return false;
        }
        i = i + 1;
    }
    proof {
        lemma_folders_depth_bound(f.subfolders@, n as int, (limit - 1) as nat);
    }
    true
}

/// A subfolder is a smaller value than its parent, for termination.
pub proof fn lemma_child_smaller(f: FolderNode, i: int)
    requires
        0 <= i < f.subfolders@.len(),
    ensures
        decreases_to!(f => f.subfolders@[i]),
{
    assert(decreases_to!(f => f.subfolders));
    assert(decreases_to!(f.subfolders => f.subfolders@));
    assert(decreases_to!(f.subfolders@ => f.subfolders@[i]));
}

fn copy_opt_string(s: &Option<String>) -> (r: Option<String>)
    ensures
        r == *s,
{
    match s {
        Some(v) => Some(v.clone()),
        None => None,
    }
}

impl FileMetadata {
    /// An equal copy.
    pub fn deep_copy(&self) -> (r: FileMetadata)
        ensures
            r == *self,
    {
        FileMetadata {
            size: self.size,
            duration_ms: self.duration_ms,
            bitrate: self.bitrate,
            codec: copy_opt_string(&self.codec),
            width: self.width,
            height: self.height,
            audio_track_count: self.audio_track_count,
            subtitle_track_count: self.subtitle_track_count,
        }
    }
}

impl FileNode {
    /// An equal copy.
    pub fn deep_copy(&self) -> (r: FileNode)
        ensures
            r == *self,
    {
        FileNode {
            path: self.path.clone(),
            name: self.name.clone(),
            format: self.format.clone(),
            metadata: match &self.metadata {
                Some(m) => Some(m.deep_copy()),
                None => None,
            },
        }
    }
}

/// `b` holds the same tree as `a`: every folder with the same path, name, files and
/// stored totals, and copies of the same subfolders in the same order.
pub open spec fn tree_copy(a: FolderNode, b: FolderNode) -> bool
    decreases a,
{
    &&& b.path == a.path
    &&& b.name == a.name
    &&& b.files@ == a.files@
    &&& b.reduced_number_of_file == a.reduced_number_of_file
    &&& b.reduced_size_of_files == a.reduced_size_of_files
    &&& b.reduced_duration_of_files == a.reduced_duration_of_files
    &&& b.subfolders@.len() == a.subfolders@.len()
    &&& forall|i: int|
        0 <= i < a.subfolders@.len() ==> tree_copy(#[trigger] a.subfolders@[i], b.subfolders@[i])
}

impl FolderNode {
    /// A copy of the whole tree.
    pub fn deep_copy(&self) -> (r: FolderNode)
        ensures
            tree_copy(*self, r),
        decreases *self,
    {
        let mut files: Vec<FileNode> = Vec::new();
        let mut i: usize = 0;
        while i < self.files.len()
            invariant
                0 <= i <= self.files@.len(),
                files@ == self.files@.subrange(0, i as int),
            decreases self.files@.len() - i,
        {
            files.push(self.files[i].deep_copy());
            i = i + 1;
        }
        let mut subfolders: Vec<FolderNode> = Vec::new();
        let mut j: usize = 0;
        while j < self.subfolders.len()
            invariant
                0 <= j <= self.subfolders@.len(),
                subfolders@.len() == j,
                forall|t: int| 0 <= t < j ==> tree_copy(#[trigger] self.subfolders@[t], subfolders@[t]),
            decreases self.subfolders@.len() - j,
        {
            proof {
                lemma_child_smaller(*self, j as int);
            }
            subfolders.push(self.subfolders[j].deep_copy());
            j = j + 1;
        }
        assert(files@ == self.files@);
        FolderNode {
            path: self.path.clone(),
            name: self.name.clone(),
            subfolders,
            files,
            reduced_number_of_file: self.reduced_number_of_file,
            reduced_size_of_files: self.reduced_size_of_files,
            reduced_duration_of_files: self.reduced_duration_of_files,
        }
    }
}

} // verus!
