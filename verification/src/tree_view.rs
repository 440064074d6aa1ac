//! The flat list of rows that the library browser shows, and the text of its
//! duration and playback-time columns.

use vstd::prelude::*;
use crate::structs::{FileNode, FolderNode, tree_depth, lemma_child_depth, lemma_child_smaller};
use crate::text::{
    decimal, owned, push_char, push_decimal, push_padded_left, push_str, spec_decimal,
    spec_pad_left,
};

verus! {

/// One row of the browser list.
///
/// Sizes and bit rates are kept as numbers: the user interface renders them with
/// two- and one-decimal floating-point formatting.
#[derive(Debug, Clone)]
pub struct TreeItem {
    pub name: String,
    pub format: String,
    pub codec: String,
    /// Bit rate of a file row, when known.
    pub bitrate_bps: Option<u32>,
    /// Byte size of a file row, when known.
    pub size_octets: Option<u64>,
    pub indent: i32,
    pub is_folder: bool,
    pub is_volume: bool,
    pub expanded: bool,
    pub selected: bool,
    pub path: String,
    /// Total byte size under a volume or folder row.
    pub files_size_octets: u64,
    pub files_duration: String,
    pub nb_files: i32,
    pub resume_position: String,
}

/// What a row shows: a volume, a folder at an indent, or a file at an indent.
pub enum RowSrc {
    Volume(FolderNode, bool),
    Folder(FolderNode, int, bool),
    File(FileNode, int),
}

// ------------------------------------------------------------------ text columns

/// The duration column: `{h:>4}h`, `{h:>3}h {m:>2}m`, `{m:>3}m {s:>2}s` or `{s:>5}s`.
pub open spec fn spec_format_duration(ms: Option<u64>) -> Seq<char> {
    let ms: nat = match ms {
        Some(v) => v as nat,
        None => 0,
    };
    let total = ms / 1000;
    let hours = total / 3600;
    let minutes = (total % 3600) / 60;
    let seconds = total % 60;
    if hours >= 100 {
        spec_pad_left(spec_decimal(hours), 4).push('h')
    } else if hours > 0 {
        spec_pad_left(spec_decimal(hours), 3) + seq!['h', ' '] + spec_pad_left(
            spec_decimal(minutes),
            2,
        ).push('m')
    } else if minutes > 0 {
        spec_pad_left(spec_decimal(minutes), 3) + seq!['m', ' '] + spec_pad_left(
            spec_decimal(seconds),
            2,
        ).push('s')
    } else {
        spec_pad_left(spec_decimal(seconds), 5).push('s')
    }
}

pub fn format_duration(ms: Option<u64>) -> (r: String)
    ensures
        r@ == spec_format_duration(ms),
{
    let ms = match ms {
        Some(v) => v,
        None => 0,
    };
    let total_secs = ms / 1000;
    let hours = total_secs / 3600;
    let minutes = (total_secs % 3600) / 60;
    let seconds = total_secs % 60;
    let mut out = String::new();
    if hours >= 100 {
        push_padded_left(&mut out, decimal(hours).as_str(), 4);
        push_char(&mut out, 'h');
    } else if hours > 0 {
        push_padded_left(&mut out, decimal(hours).as_str(), 3);
        push_char(&mut out, 'h');
        push_char(&mut out, ' ');
        push_padded_left(&mut out, decimal(minutes).as_str(), 2);
        push_char(&mut out, 'm');
    } else if minutes > 0 {
        push_padded_left(&mut out, decimal(minutes).as_str(), 3);
        push_char(&mut out, 'm');
        push_char(&mut out, ' ');
        push_padded_left(&mut out, decimal(seconds).as_str(), 2);
        push_char(&mut out, 's');
    } else {
        push_padded_left(&mut out, decimal(seconds).as_str(), 5);
        push_char(&mut out, 's');
    }
    out
}

/// The duration column shows the time it stands for: under a minute, the whole seconds;
/// under an hour, the whole minutes and the seconds past them; under a hundred hours,
/// the whole hours and the minutes past them; else the whole hours. Nothing reads as no
/// time at all.
pub proof fn law_duration_text_shows_the_time(ms: u64)
    ensures
        ms < 60_000 ==> spec_format_duration(Some(ms)) == spec_pad_left(spec_decimal(ms as nat / 1000), 5).push(
            's',
        ),
        60_000 <= ms < 3_600_000 ==> spec_format_duration(Some(ms)) == spec_pad_left(
            spec_decimal(ms as nat / 60_000),
            3,
        ) + seq!['m', ' '] + spec_pad_left(spec_decimal((ms as nat / 1000) % 60), 2).push('s'),
        3_600_000 <= ms < 360_000_000 ==> spec_format_duration(Some(ms)) == spec_pad_left(
            spec_decimal(ms as nat / 3_600_000),
            3,
        ) + seq!['h', ' '] + spec_pad_left(spec_decimal((ms as nat / 60_000) % 60), 2).push('m'),
        360_000_000 <= ms ==> spec_format_duration(Some(ms)) == spec_pad_left(
            spec_decimal(ms as nat / 3_600_000),
            4,
        ).push('h'),
        spec_format_duration(None) == spec_format_duration(Some(0)),
{
    let m = ms as int;
    let t = m / 1000;
    vstd::arithmetic::div_mod::lemma_div_denominator(m, 1000, 3600);
    vstd::arithmetic::div_mod::lemma_div_denominator(m, 1000, 60);
    assert(t / 3600 == m / 3_600_000);
    assert(t / 60 == m / 60_000);
    vstd::arithmetic::div_mod::lemma_breakdown(t, 60, 60);
    let q = (t / 60) % 60;
    let r = t % 60;
    assert(t % 3600 == 60 * q + r);
    assert((t % 3600) / 60 == q) by (nonlinear_arith)
        requires
            t % 3600 == 60 * q + r,
            0 <= r < 60,
            0 <= q,
    ;
}

/// A position is worth resuming from only when it is past the start and, when the length
/// is known, before the end: a film watched to its end, or not started, keeps none.
pub proof fn law_resume_kept_only_between_start_and_end(position_ms: u64, duration_ms: Option<u64>)
    ensures
        position_ms == 0 ==> spec_resume_position_to_store(position_ms, duration_ms) is None,
        (duration_ms matches Some(d) && position_ms >= d) ==> spec_resume_position_to_store(position_ms, duration_ms)
            is None,
        (position_ms > 0 && match duration_ms {
            Some(d) => position_ms < d,
            None => true,
        }) ==> spec_resume_position_to_store(position_ms, duration_ms) == Some(position_ms),
{
}

/// Two digits, with a leading zero below ten.
pub open spec fn spec_two_digits(n: nat) -> Seq<char> {
    if n < 10 {
        seq!['0'] + spec_decimal(n)
    } else {
        spec_decimal(n)
    }
}

/// A playback position: `m:ss` below an hour, `h:mm:ss` from an hour on.
pub open spec fn spec_format_playback_time(ms: u64) -> Seq<char> {
    let total = ms as nat / 1000;
    let hours = total / 3600;
    let minutes = (total % 3600) / 60;
    let seconds = total % 60;
    if hours > 0 {
        spec_decimal(hours).push(':') + spec_two_digits(minutes).push(':') + spec_two_digits(
            seconds,
        )
    } else {
        spec_decimal(minutes).push(':') + spec_two_digits(seconds)
    }
}

fn push_two_digits(s: &mut String, n: u64)
    ensures
        final(s)@ == old(s)@ + spec_two_digits(n as nat),
{
    if n < 10 {
        push_char(s, '0');
    }
    push_decimal(s, n);
}

pub fn format_playback_time(ms: u64) -> (r: String)
    ensures
        r@ == spec_format_playback_time(ms),
{
    let total_secs = ms / 1000;
    let hours = total_secs / 3600;
    let minutes = (total_secs % 3600) / 60;
    let seconds = total_secs % 60;
    let mut out = String::new();
    if hours > 0 {
        push_decimal(&mut out, hours);
        push_char(&mut out, ':');
        push_two_digits(&mut out, minutes);
        push_char(&mut out, ':');
        push_two_digits(&mut out, seconds);
    } else {
        push_decimal(&mut out, minutes);
        push_char(&mut out, ':');
        push_two_digits(&mut out, seconds);
    }
    out
}

/// The resume position worth keeping for a playback position: none at the very start,
/// and none once the end (when known) is reached.
pub open spec fn spec_resume_position_to_store(position_ms: u64, duration_ms: Option<u64>) -> Option<u64> {
    if position_ms == 0 {
        None
    } else {
        match duration_ms {
            Some(d) => if position_ms >= d {
                None
            } else {
                Some(position_ms)
            },
            None => Some(position_ms),
        }
    }
}

pub fn resume_position_to_store(position_ms: u64, duration_ms: Option<u64>) -> (r: Option<u64>)
    ensures
        r == spec_resume_position_to_store(position_ms, duration_ms),
{
    if position_ms == 0 {
        return None;
    }
    match duration_ms {
        Some(d) => if position_ms >= d {
            None
        } else {
            Some(position_ms)
        },
        None => Some(position_ms),
    }
}

// ------------------------------------------------------------------ rows

/// A volume or folder row shows the totals of the folder's subtree.
pub open spec fn folder_row_totals(item: TreeItem, f: FolderNode) -> bool {
    &&& item.name@ == f.name@
    &&& item.codec@ == Seq::<char>::empty()
    &&& item.bitrate_bps is None
    &&& item.size_octets is None
    &&& item.path@ == f.path@
    &&& item.files_size_octets == f.reduced_size_of_files
    &&& item.files_duration@ == spec_format_duration(Some(f.reduced_duration_of_files))
    &&& item.nb_files as int == f.reduced_number_of_file as i32 as int
}

/// The codec column of a file: the probed codec, or else the format.
pub open spec fn file_codec(f: FileNode) -> Seq<char> {
    match f.metadata {
        Some(m) => match m.codec {
            Some(c) => c@,
            None => f.format@,
        },
        None => f.format@,
    }
}

pub open spec fn file_bitrate(f: FileNode) -> Option<u32> {
    match f.metadata {
        Some(m) => m.bitrate,
        None => None,
    }
}

pub open spec fn file_size_opt(f: FileNode) -> Option<u64> {
    match f.metadata {
        Some(m) => m.size,
        None => None,
    }
}

pub open spec fn file_duration_opt(f: FileNode) -> Option<u64> {
    match f.metadata {
        Some(m) => m.duration_ms,
        None => None,
    }
}

/// `item` shows what `src` describes, whatever its selection flag and resume label.
pub open spec fn row_shape(item: TreeItem, src: RowSrc) -> bool {
    match src {
        RowSrc::Volume(v, expanded) => {
            &&& folder_row_totals(item, v)
            &&& item.format@ == "volume"@
            &&& item.indent == 0
            &&& !item.is_folder
            &&& item.is_volume
            &&& item.expanded == expanded
        },
        RowSrc::Folder(f, indent, expanded) => {
            &&& folder_row_totals(item, f)
            &&& item.format@ == "folder"@
            &&& item.indent as int == indent
            &&& item.is_folder
            &&& !item.is_volume
            &&& item.expanded == expanded
        },
        RowSrc::File(f, indent) => {
            &&& item.name@ == f.name@
            &&& item.format@ == f.format@
            &&& item.codec@ == file_codec(f)
            &&& item.bitrate_bps == file_bitrate(f)
            &&& item.size_octets == file_size_opt(f)
            &&& item.indent as int == indent
            &&& !item.is_folder
            &&& !item.is_volume
            &&& !item.expanded
            &&& item.path@ == f.path@
            &&& item.files_size_octets == 0
            &&& item.files_duration@ == spec_format_duration(file_duration_opt(f))
            &&& item.nb_files == 0
        },
    }
}

/// `item` is the unselected, unlabelled row that `src` describes.
pub open spec fn row_matches(item: TreeItem, src: RowSrc) -> bool {
    &&& row_shape(item, src)
    &&& !item.selected
    &&& item.resume_position@ == Seq::<char>::empty()
}

/// The path that a row stands for.
pub open spec fn row_path(src: RowSrc) -> Seq<char> {
    match src {
        RowSrc::Volume(v, _) => v.path@,
        RowSrc::Folder(f, _, _) => f.path@,
        RowSrc::File(f, _) => f.path@,
    }
}

pub fn volume_to_tree_item(volume: &FolderNode, expanded: bool, selected: bool) -> (r: TreeItem)
    ensures
        row_matches(TreeItem { selected: false, ..r }, RowSrc::Volume(*volume, expanded)),
        r.selected == selected,
{
    TreeItem {
        name: volume.name.clone(),
        format: owned("volume"),
        codec: String::new(),
        bitrate_bps: None,
        size_octets: None,
        indent: 0,
        is_folder: false,
        is_volume: true,
        expanded,
        selected,
        path: volume.path.clone(),
        files_size_octets: volume.reduced_size_of_files,
        files_duration: format_duration(Some(volume.reduced_duration_of_files)),
        nb_files: volume.reduced_number_of_file as i32,
        resume_position: String::new(),
    }
}

pub fn folder_to_tree_item(folder: &FolderNode, indent: i32, expanded: bool, selected: bool) -> (r: TreeItem)
    ensures
        row_matches(TreeItem { selected: false, ..r }, RowSrc::Folder(*folder, indent as int, expanded)),
        r.selected == selected,
{
    TreeItem {
        name: folder.name.clone(),
        format: owned("folder"),
        codec: String::new(),
        bitrate_bps: None,
        size_octets: None,
        indent,
        is_folder: true,
        is_volume: false,
        expanded,
        selected,
        path: folder.path.clone(),
        files_size_octets: folder.reduced_size_of_files,
        files_duration: format_duration(Some(folder.reduced_duration_of_files)),
        nb_files: folder.reduced_number_of_file as i32,
        resume_position: String::new(),
    }
}

pub fn file_to_tree_item(file: &FileNode, indent: i32, selected: bool) -> (r: TreeItem)
    ensures
        row_matches(TreeItem { selected: false, ..r }, RowSrc::File(*file, indent as int)),
        r.selected == selected,
{
    let (codec, bitrate, size, duration) = match &file.metadata {
        Some(m) => (
            match &m.codec {
                Some(c) => c.clone(),
                None => file.format.clone(),
            },
            m.bitrate,
            m.size,
            m.duration_ms,
        ),
        None => (file.format.clone(), None, None, None),
    };
    TreeItem {
        name: file.name.clone(),
        format: file.format.clone(),
        codec,
        bitrate_bps: bitrate,
        size_octets: size,
        indent,
        is_folder: false,
        is_volume: false,
        expanded: false,
        selected,
        path: file.path.clone(),
        files_size_octets: 0,
        files_duration: format_duration(duration),
        nb_files: 0,
        resume_position: String::new(),
    }
}

// ------------------------------------------------------------------ flattening

/// Rows for the contents of an open folder: its subfolders, then its files.
pub open spec fn contents_rows(f: FolderNode, indent: int) -> Seq<RowSrc> {
    f.subfolders@.map_values(|s: FolderNode| RowSrc::Folder(s, indent, false)) + f.files@.map_values(
        |x: FileNode| RowSrc::File(x, indent),
    )
}

/// Rows below an open folder at `indent`, expanding along `tail`.
pub open spec fn open_rows(f: FolderNode, tail: Seq<Seq<char>>, indent: int) -> Seq<RowSrc>
    decreases f, 0int,
{
    if tail.len() == 0 {
        contents_rows(f, indent + 1)
    } else {
        subs_rows(f.subfolders@, f.subfolders@.len() as int, tail, indent + 1)
    }
}

/// Rows for the first `n` subfolders of an open folder, each at `indent`; the one whose
/// path is `tail[0]` is expanded along the rest of `tail`.
pub open spec fn subs_rows(s: Seq<FolderNode>, n: int, tail: Seq<Seq<char>>, indent: int) -> Seq<RowSrc>
    decreases s, n,
{
    if n <= 0 || n > s.len() {
        seq![]
    } else {
        let sub = s[n - 1];
        let on_path = tail.len() > 0 && tail[0] == sub.path@;
        subs_rows(s, n - 1, tail, indent) + seq![RowSrc::Folder(sub, indent, on_path)] + if on_path {
            open_rows(sub, tail.subrange(1, tail.len() as int), indent)
        } else {
            seq![]
        }
    }
}

/// Rows for the first `n` volumes of the library, expanding along `stack`.
pub open spec fn volume_rows(vols: Seq<FolderNode>, n: int, stack: Seq<Seq<char>>) -> Seq<RowSrc>
    decreases n,
{
    if n <= 0 || n > vols.len() {
        seq![]
    } else {
        let v = vols[n - 1];
        let on_path = stack.len() > 0 && stack[0] == v.path@;
        volume_rows(vols, n - 1, stack) + seq![RowSrc::Volume(v, on_path)] + if on_path {
            open_rows(v, stack.subrange(1, stack.len() as int), 0)
        } else {
            seq![]
        }
    }
}

/// The rows of the browser for an open path: with an empty stack, the volumes; otherwise
/// every volume, with the open path expanded and the deepest open folder's contents shown.
pub open spec fn flat_rows(library: FolderNode, stack: Seq<Seq<char>>) -> Seq<RowSrc> {
    volume_rows(library.subfolders@, library.subfolders@.len() as int, stack)
}

/// The views of a stack of paths.
pub open spec fn paths_view(stack: Seq<String>) -> Seq<Seq<char>> {
    stack.map_values(|p: String| p@)
}

/// `out` is `before` followed by rows matching `rows`.
pub open spec fn appended_rows(out: Seq<TreeItem>, before: Seq<TreeItem>, rows: Seq<RowSrc>) -> bool {
    &&& out.len() == before.len() + rows.len()
    &&& forall|i: int| 0 <= i < before.len() ==> #[trigger] out[i] == before[i]
    &&& forall|j: int|
        0 <= j < rows.len() ==> row_matches(#[trigger] out[before.len() + j], rows[j])
}

fn emit_folder_contents(folder: &FolderNode, indent: i32, out: &mut Vec<TreeItem>)
    ensures
        appended_rows(final(out)@, old(out)@, contents_rows(*folder, indent as int)),
{
    let ghost rows = contents_rows(*folder, indent as int);
    let ghost nsub = folder.subfolders@.len();
    let mut i: usize = 0;
    while i < folder.subfolders.len()
        invariant
            0 <= i <= nsub,
            nsub == folder.subfolders@.len(),
            rows == contents_rows(*folder, indent as int),
            appended_rows(out@, old(out)@, rows.subrange(0, i as int)),
        decreases nsub - i,
    {
        let item = folder_to_tree_item(&folder.subfolders[i], indent, false, false);
        assert(item == TreeItem { selected: false, ..item });
        out.push(item);
        i = i + 1;
    }
    let mut j: usize = 0;
    while j < folder.files.len()
        invariant
            0 <= j <= folder.files@.len(),
            nsub == folder.subfolders@.len(),
            rows == contents_rows(*folder, indent as int),
            appended_rows(out@, old(out)@, rows.subrange(0, nsub + j)),
        decreases folder.files@.len() - j,
    {
        let item = file_to_tree_item(&folder.files[j], indent, false);
        assert(item == TreeItem { selected: false, ..item });
        out.push(item);
        j = j + 1;
    }
    assert(rows.subrange(0, rows.len() as int) == rows);
}

pub proof fn lemma_appended_rows_trans(
    o0: Seq<TreeItem>,
    o1: Seq<TreeItem>,
    o2: Seq<TreeItem>,
    r1: Seq<RowSrc>,
    r2: Seq<RowSrc>,
)
    requires
        appended_rows(o1, o0, r1),
        appended_rows(o2, o1, r2),
    ensures
        appended_rows(o2, o0, r1 + r2),
{
    assert forall|j: int| 0 <= j < (r1 + r2).len() implies row_matches(
        #[trigger] o2[o0.len() + j],
        (r1 + r2)[j],
    ) by {
        if j < r1.len() {
            assert(o2[o0.len() + j] == o1[o0.len() + j]);
        } else {
            assert(o2[o0.len() + j] == o2[o1.len() + (j - r1.len())]);
        }
    }
}

fn flatten_open_path(
    folder: &FolderNode,
    stack: &Vec<String>,
    start: usize,
    indent: i32,
    out: &mut Vec<TreeItem>,
)
    requires
        start <= stack@.len(),
        0 <= indent,
        indent as int + tree_depth(*folder) + 1 <= i32::MAX,
    ensures
        appended_rows(
            final(out)@,
            old(out)@,
            open_rows(*folder, paths_view(stack@).subrange(start as int, stack@.len() as int), indent as int),
        ),
    decreases *folder,
{
    let ghost tail = paths_view(stack@).subrange(start as int, stack@.len() as int);
    let n = stack.len();
    if start == n {
        emit_folder_contents(folder, indent + 1, out);
        return;
    }
    let child_indent = indent + 1;
    let ghost o0 = out@;
    let ghost subs = folder.subfolders@;
    let mut i: usize = 0;
    while i < folder.subfolders.len()
        invariant
            0 <= i <= subs.len(),
            subs == folder.subfolders@,
            start < stack@.len(),
            n == stack@.len(),
            child_indent == indent + 1,
            0 <= indent,
            indent as int + tree_depth(*folder) + 1 <= i32::MAX,
            tail == paths_view(stack@).subrange(start as int, stack@.len() as int),
            appended_rows(out@, o0, subs_rows(subs, i as int, tail, child_indent as int)),
        decreases subs.len() - i,
    {
        let sub = &folder.subfolders[i];
        let on_path = stack[start] == sub.path;
        assert(tail[0] == stack@[start as int]@);
        let ghost o1 = out@;
        let item = folder_to_tree_item(sub, child_indent, on_path, false);
        assert(item == TreeItem { selected: false, ..item });
        out.push(item);
        assert(appended_rows(out@, o1, seq![RowSrc::Folder(*sub, child_indent as int, on_path)]));
        proof {
            lemma_appended_rows_trans(o0, o1, out@, subs_rows(subs, i as int, tail, child_indent as int), seq![RowSrc::Folder(*sub, child_indent as int, on_path)]);
        }
        if on_path {
            let ghost o2 = out@;
            proof {
                lemma_child_smaller(*folder, i as int);
                lemma_child_depth(*folder, i as int);
            }
            flatten_open_path(sub, stack, start + 1, child_indent, out);
            assert(tail.subrange(1, tail.len() as int) == paths_view(stack@).subrange(start + 1, stack@.len() as int));
            proof {
                lemma_appended_rows_trans(
                    o0,
                    o2,
                    out@,
                    subs_rows(subs, i as int, tail, child_indent as int) + seq![RowSrc::Folder(*sub, child_indent as int, on_path)],
                    open_rows(*sub, tail.subrange(1, tail.len() as int), child_indent as int),
                );
            }
        } else {
            assert(subs_rows(subs, i as int, tail, child_indent as int) + seq![RowSrc::Folder(*sub, child_indent as int, on_path)] == subs_rows(subs, i + 1, tail, child_indent as int));
        }
        i = i + 1;
    }
}

/// Flatten the volume library for display, expanding only along `stack`.
///
/// An empty stack lists detected volumes at indent 0. The hidden library root is never
/// shown. The deepest folder on the stack shows its contents inline.
pub fn flatten_along_path(library: &FolderNode, stack: &Vec<String>, out: &mut Vec<TreeItem>)
    requires
        tree_depth(*library) <= i32::MAX,
    ensures
        appended_rows(final(out)@, old(out)@, flat_rows(*library, paths_view(stack@))),
{
    let ghost st = paths_view(stack@);
    let ghost vols = library.subfolders@;
    let ghost o0 = out@;
    let mut i: usize = 0;
    while i < library.subfolders.len()
        invariant
            0 <= i <= vols.len(),
            vols == library.subfolders@,
            tree_depth(*library) <= i32::MAX,
            st == paths_view(stack@),
            appended_rows(out@, o0, volume_rows(vols, i as int, st)),
        decreases vols.len() - i,
    {
        let volume = &library.subfolders[i];
        let on_path = stack.len() > 0 && stack[0] == volume.path;
        let ghost o1 = out@;
        let item = volume_to_tree_item(volume, on_path, false);
        assert(item == TreeItem { selected: false, ..item });
        out.push(item);
        assert(appended_rows(out@, o1, seq![RowSrc::Volume(*volume, on_path)]));
        proof {
            lemma_appended_rows_trans(o0, o1, out@, volume_rows(vols, i as int, st), seq![RowSrc::Volume(*volume, on_path)]);
        }
        if on_path {
            let ghost o2 = out@;
            proof {
                lemma_child_depth(*library, i as int);
            }
            flatten_open_path(volume, stack, 1, 0, out);
            assert(st.subrange(1, st.len() as int) == paths_view(stack@).subrange(1, stack@.len() as int));
            proof {
                lemma_appended_rows_trans(
                    o0,
                    o2,
                    out@,
                    volume_rows(vols, i as int, st) + seq![RowSrc::Volume(*volume, on_path)],
                    open_rows(*volume, st.subrange(1, st.len() as int), 0),
                );
            }
        } else {
            assert(volume_rows(vols, i as int, st) + seq![RowSrc::Volume(*volume, on_path)] == volume_rows(vols, i + 1, st));
        }
        i = i + 1;
    }
}

} // verus!
