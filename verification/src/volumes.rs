//! Which mounted file systems are storage volumes, read from the system's mount table,
//! and the development stand-ins found as `volume*` folders of the workspace.

use vstd::prelude::*;
use crate::text::{
    char_at, char_is_whitespace, char_len, first_index_of, is_white_space, last_index_of,
    lemma_first_index_of, lemma_last_index_of, owned, push_char, push_str, rfind_char, find_char,
    slice_chars, spec_trim, starts_with, str_eq, trim,
};
use crate::ordering::{Keyed, lex_le, strs_in_order, sort_by_key, sort_by_key_in, sorted_by_key, lemma_sort_by_key_sorted, lemma_lex_le_trans, lemma_lex_le_antisym};
use crate::probe::{spec_file_name, file_name, is_digit, all_digits};

verus! {

/// A volume shown at the top of the library: its display name and mount path.
#[derive(Debug, Clone)]
pub struct VolumeRoot {
    pub name: String,
    pub path: String,
}

/// Marker of the order by volume name, case included.
pub struct ByVolumeName;

/// Marker of the order by mount path.
pub struct ByPath;

impl Keyed<ByVolumeName> for VolumeRoot {
    open spec fn key(&self) -> Seq<char> {
        self.name@
    }

    fn key_le(&self, other: &Self) -> (r: bool) {
        strs_in_order(self.name.as_str(), other.name.as_str())
    }
}

impl Keyed<ByPath> for VolumeRoot {
    open spec fn key(&self) -> Seq<char> {
        self.path@
    }

    fn key_le(&self, other: &Self) -> (r: bool) {
        strs_in_order(self.path.as_str(), other.path.as_str())
    }
}

// ---------------------------------------------------------------- development volumes

/// The values of the development switch that turn it on.
pub open spec fn is_truthy(t: Seq<char>) -> bool {
    ||| t == "1"@
    ||| t == "true"@
    ||| t == "TRUE"@
    ||| t == "yes"@
    ||| t == "YES"@
    ||| t == "on"@
    ||| t == "ON"@
}

/// Whether the development switch, given its value when set, asks for the `volume*`
/// folders of the workspace in place of the mounted volumes.
pub fn use_fake_volumes(value: Option<&str>) -> (r: bool)
    ensures
        r == match value {
            Some(v) => is_truthy(spec_trim(v@)),
            None => false,
        },
{
    match value {
        Some(v) => {
            let t = trim(v);
            str_eq(t, "1") || str_eq(t, "true") || str_eq(t, "TRUE") || str_eq(t, "yes") || str_eq(t, "YES")
                || str_eq(t, "on") || str_eq(t, "ON")
        },
        None => false,
    }
}

/// A directory of the workspace stands for a volume when its name starts with `volume`.
pub open spec fn spec_is_fake_volume_name(name: Seq<char>) -> bool {
    "volume"@.len() <= name.len() && name.subrange(0, "volume"@.len() as int) == "volume"@
}

/// The development volumes among the entries of the workspace, each given as its name,
/// its path and whether it is a directory: the directories whose name starts with
/// `volume`, in order.
pub open spec fn fake_volumes_of(entries: Seq<(String, String, bool)>) -> Seq<(Seq<char>, Seq<char>)>
    decreases entries.len(),
{
    if entries.len() == 0 {
        seq![]
    } else {
        let rest = fake_volumes_of(entries.drop_last());
        let e = entries.last();
        if e.2 && spec_is_fake_volume_name(e.0@) {
            rest.push((e.0@, e.1@))
        } else {
            rest
        }
    }
}

pub open spec fn volume_views(v: Seq<VolumeRoot>) -> Seq<(Seq<char>, Seq<char>)> {
    v.map_values(|x: VolumeRoot| (x.name@, x.path@))
}

/// The development volumes of the workspace.
pub fn fake_volume_roots(entries: Vec<(String, String, bool)>) -> (r: Vec<VolumeRoot>)
    ensures
        volume_views(r@) == fake_volumes_of(entries@),
{
    let ghost s0 = entries@;
    let mut out: Vec<VolumeRoot> = Vec::new();
    let mut i: usize = 0;
    while i < entries.len()
        invariant
            s0 == entries@,
            0 <= i <= s0.len(),
            volume_views(out@) == fake_volumes_of(s0.subrange(0, i as int)),
        decreases s0.len() - i,
    {
        let e = &entries[i];
        assert(s0.subrange(0, i + 1).drop_last() == s0.subrange(0, i as int));
        assert(s0.subrange(0, i + 1).last() == s0[i as int]);
        if e.2 && starts_with(e.0.as_str(), "volume") {
            let ghost before = out@;
            out.push(VolumeRoot { name: e.0.clone(), path: e.1.clone() });
            assert(volume_views(out@) == volume_views(before).push((e.0@, e.1@)));
        }
        i = i + 1;
    }
    assert(s0.subrange(0, s0.len() as int) == s0);
    out
}

/// The volumes as listed, sorted by name.
pub fn list_volume_roots(roots: Vec<VolumeRoot>) -> (r: Vec<VolumeRoot>)
    ensures
        r@ == sort_by_key::<ByVolumeName, VolumeRoot>(roots@),
{
    let mut roots = roots;
    sort_by_key_in::<ByVolumeName, VolumeRoot>(&mut roots);
    roots
}

/// The operating systems whose volumes the library knows how to find.
#[derive(Debug, Clone, Copy, PartialEq, Eq)]
pub enum Platform {
    Linux,
    MacOs,
    Other,
}

/// The directories whose changes may refresh the library: the workspace for development
/// volumes, else the mount parents of the platform (of which only those that exist are
/// watched): `/media`, `/mnt` and `/run/media` on Linux, `/Volumes` on macOS, and none
/// elsewhere.
pub fn watch_roots(fake: bool, platform: Platform, workspace: &str) -> (r: Vec<String>)
    ensures
        fake ==> r@.len() == 1 && r@[0]@ == workspace@,
        !fake && platform == Platform::Linux ==> r@.len() == 3 && r@[0]@ == "/media"@ && r@[1]@ == "/mnt"@
            && r@[2]@ == "/run/media"@,
        !fake && platform == Platform::MacOs ==> r@.len() == 1 && r@[0]@ == "/Volumes"@,
        !fake && platform == Platform::Other ==> r@.len() == 0,
{
    let mut out: Vec<String> = Vec::new();
    if fake {
        out.push(owned(workspace));
    } else {
        match platform {
            Platform::Linux => {
                out.push(owned("/media"));
                out.push(owned("/mnt"));
                out.push(owned("/run/media"));
            },
            Platform::MacOs => {
                out.push(owned("/Volumes"));
            },
            Platform::Other => {},
        }
    }
    out
}

/// The volumes among the entries of `/Volumes` on macOS, each given as its name, its path
/// and whether it is a directory: the directories other than the system disk
/// `Macintosh HD`, in order.
pub open spec fn macos_volumes_of(entries: Seq<(String, String, bool)>) -> Seq<(Seq<char>, Seq<char>)>
    decreases entries.len(),
{
    if entries.len() == 0 {
        seq![]
    } else {
        let rest = macos_volumes_of(entries.drop_last());
        let e = entries.last();
        if e.2 && e.0@ != "Macintosh HD"@ {
            rest.push((e.0@, e.1@))
        } else {
            rest
        }
    }
}

/// The volumes of a macOS system, from the entries of `/Volumes`.
pub fn macos_volume_roots(entries: Vec<(String, String, bool)>) -> (r: Vec<VolumeRoot>)
    ensures
        volume_views(r@) == macos_volumes_of(entries@),
{
    let ghost s0 = entries@;
    let mut out: Vec<VolumeRoot> = Vec::new();
    let mut i: usize = 0;
    while i < entries.len()
        invariant
            s0 == entries@,
            0 <= i <= s0.len(),
            volume_views(out@) == macos_volumes_of(s0.subrange(0, i as int)),
        decreases s0.len() - i,
    {
        let e = &entries[i];
        assert(s0.subrange(0, i + 1).drop_last() == s0.subrange(0, i as int));
        assert(s0.subrange(0, i + 1).last() == s0[i as int]);
        if e.2 && !str_eq(e.0.as_str(), "Macintosh HD") {
            let ghost before = out@;
            out.push(VolumeRoot { name: e.0.clone(), path: e.1.clone() });
            assert(volume_views(out@) == volume_views(before).push((e.0@, e.1@)));
        }
        i = i + 1;
    }
    assert(s0.subrange(0, s0.len() as int) == s0);
    out
}

// ---------------------------------------------------------------- the mount table

/// The lines of a text: the pieces between line breaks.
pub open spec fn spec_lines(text: Seq<char>) -> Seq<Seq<char>>
    decreases text.len(),
{
    let k = first_index_of(text, '\n');
    if k < 0 {
        seq![text]
    } else {
        proof {
            lemma_first_index_of(text, '\n');
        }
        seq![text.subrange(0, k)] + spec_lines(text.subrange(k + 1, text.len() as int))
    }
}

/// The first index at or after `i` that holds no whitespace, or the length.
pub open spec fn ws_skip(s: Seq<char>, i: int) -> int
    decreases s.len() - i,
{
    if i < 0 || i >= s.len() {
        s.len() as int
    } else if is_white_space(s[i]) {
        ws_skip(s, i + 1)
    } else {
        i
    }
}

/// The first index at or after `i` that holds whitespace, or the length.
pub open spec fn field_end(s: Seq<char>, i: int) -> int
    decreases s.len() - i,
{
    if i < 0 || i >= s.len() {
        s.len() as int
    } else if is_white_space(s[i]) {
        i
    } else {
        field_end(s, i + 1)
    }
}

proof fn lemma_ws_skip(s: Seq<char>, i: int)
    requires
        0 <= i <= s.len(),
    ensures
        i <= ws_skip(s, i) <= s.len(),
    decreases s.len() - i,
{
    if i < s.len() && is_white_space(s[i]) {
        lemma_ws_skip(s, i + 1);
    }
}

proof fn lemma_field_end(s: Seq<char>, i: int)
    requires
        0 <= i <= s.len(),
    ensures
        i <= field_end(s, i) <= s.len(),
    decreases s.len() - i,
{
    if i < s.len() && !is_white_space(s[i]) {
        lemma_field_end(s, i + 1);
    }
}

fn skip_ws(s: &str, i: usize) -> (r: usize)
    requires
        i <= s@.len(),
    ensures
        r == ws_skip(s@, i as int),
{
    let n = char_len(s);
    let mut j = i;
    while j < n && char_is_whitespace(char_at(s, j))
        invariant
            n == s@.len(),
            i <= j <= n,
            ws_skip(s@, j as int) == ws_skip(s@, i as int),
        decreases n - j,
    {
        j = j + 1;
    }
    j
}

fn find_field_end(s: &str, i: usize) -> (r: usize)
    requires
        i <= s@.len(),
    ensures
        r == field_end(s@, i as int),
{
    let n = char_len(s);
    let mut j = i;
    while j < n && !char_is_whitespace(char_at(s, j))
        invariant
            n == s@.len(),
            i <= j <= n,
            field_end(s@, j as int) == field_end(s@, i as int),
        decreases n - j,
    {
        j = j + 1;
    }
    j
}

/// `s` with every occurrence of `pat`, taken left to right without overlap, replaced
/// by `rep`, as `str::replace` does for a non-empty pattern.
pub open spec fn spec_replace(s: Seq<char>, pat: Seq<char>, rep: Seq<char>) -> Seq<char>
    decreases s.len(),
{
    if pat.len() == 0 || s.len() == 0 {
        s
    } else if pat.len() <= s.len() && s.subrange(0, pat.len() as int) == pat {
        rep + spec_replace(s.subrange(pat.len() as int, s.len() as int), pat, rep)
    } else {
        seq![s[0]] + spec_replace(s.subrange(1, s.len() as int), pat, rep)
    }
}

/// Replaces every occurrence of a non-empty pattern.
pub fn replace_all(s: &str, pat: &str, rep: &str) -> (r: String)
    requires
        pat@.len() > 0,
    ensures
        r@ == spec_replace(s@, pat@, rep@),
{
    let n = char_len(s);
    let m = char_len(pat);
    let mut out = String::new();
    let mut i: usize = 0;
    assert(s@.subrange(0, n as int) == s@);
    while i < n
        invariant
            n == s@.len(),
            m == pat@.len(),
            m > 0,
            0 <= i <= n,
            out@ + spec_replace(s@.subrange(i as int, n as int), pat@, rep@) == spec_replace(s@, pat@, rep@),
        decreases n - i,
    {
        let rest = slice_chars(s, i, n);
        let ghost t = rest@;
        if m <= n - i && starts_with(rest, pat) {
            push_str(&mut out, rep);
            assert(t.subrange(m as int, t.len() as int) == s@.subrange(i + m, n as int));
            assert(out@ + spec_replace(s@.subrange(i + m, n as int), pat@, rep@) == spec_replace(s@, pat@, rep@));
            i = i + m;
        } else {
            let c = char_at(s, i);
            push_char(&mut out, c);
            assert(t[0] == c);
            assert(t.subrange(1, t.len() as int) == s@.subrange(i + 1, n as int));
            assert(out@ + spec_replace(s@.subrange(i + 1, n as int), pat@, rep@) == spec_replace(s@, pat@, rep@));
            i = i + 1;
        }
    }
    assert(s@.subrange(n as int, n as int).len() == 0);
    out
}

/// A mount point as the mount table writes it, with its escaped space, tab, line
/// break and backslash restored, in that order.
pub open spec fn spec_unescape_mount_path(p: Seq<char>) -> Seq<char> {
    spec_replace(
        spec_replace(
            spec_replace(spec_replace(p, "\\040"@, " "@), "\\011"@, "\t"@),
            "\\012"@,
            "\n"@,
        ),
        "\\134"@,
        "\\"@,
    )
}

pub fn unescape_mount_path(path: &str) -> (r: String)
    ensures
        r@ == spec_unescape_mount_path(path@),
{
    proof {
        reveal_strlit("\\040");
        reveal_strlit("\\011");
        reveal_strlit("\\012");
        reveal_strlit("\\134");
    }
    let a = replace_all(path, "\\040", " ");
    let b = replace_all(a.as_str(), "\\011", "\t");
    let c = replace_all(b.as_str(), "\\012", "\n");
    replace_all(c.as_str(), "\\134", "\\")
}

/// The first three whitespace-separated fields of a mount table line: source, mount
/// point (unescaped) and file system type.
pub open spec fn spec_parse_mount_line(line: Seq<char>) -> Option<(Seq<char>, Seq<char>, Seq<char>)> {
    let a1 = ws_skip(line, 0);
    let b1 = field_end(line, a1);
    let a2 = ws_skip(line, b1);
    let b2 = field_end(line, a2);
    let a3 = ws_skip(line, b2);
    let b3 = field_end(line, a3);
    if a1 >= line.len() || a2 >= line.len() || a3 >= line.len() {
        None
    } else {
        Some(
            (
                line.subrange(a1, b1),
                spec_unescape_mount_path(line.subrange(a2, b2)),
                line.subrange(a3, b3),
            ),
        )
    }
}

/// Reads the source, mount point and file system type of a mount table line.
pub fn parse_mount_line(line: &str) -> (r: Option<(String, String, String)>)
    ensures
        match r {
            Some((a, b, c)) => spec_parse_mount_line(line@) == Some((a@, b@, c@)),
            None => spec_parse_mount_line(line@) is None,
        },
{
    let n = char_len(line);
    let ghost s = line@;
    let a1 = skip_ws(line, 0);
    if a1 >= n {
        return None;
    }
    proof {
        lemma_field_end(s, a1 as int);
    }
    let b1 = find_field_end(line, a1);
    proof {
        lemma_ws_skip(s, b1 as int);
    }
    let a2 = skip_ws(line, b1);
    if a2 >= n {
        return None;
    }
    proof {
        lemma_field_end(s, a2 as int);
    }
    let b2 = find_field_end(line, a2);
    proof {
        lemma_ws_skip(s, b2 as int);
    }
    let a3 = skip_ws(line, b2);
    if a3 >= n {
        return None;
    }
    proof {
        lemma_field_end(s, a3 as int);
    }
    let b3 = find_field_end(line, a3);
    let source = owned(slice_chars(line, a1, b1));
    let mount_point = unescape_mount_path(slice_chars(line, a2, b2));
    let fs_type = owned(slice_chars(line, a3, b3));
    Some((source, mount_point, fs_type))
}

/// The third and fourth whitespace-separated fields of `s`, when it has four.
pub open spec fn spec_third_and_fourth_fields(s: Seq<char>) -> Option<(Seq<char>, Seq<char>)> {
    let a1 = ws_skip(s, 0);
    let b1 = field_end(s, a1);
    let a2 = ws_skip(s, b1);
    let b2 = field_end(s, a2);
    let a3 = ws_skip(s, b2);
    let b3 = field_end(s, a3);
    let a4 = ws_skip(s, b3);
    let b4 = field_end(s, a4);
    if a1 >= s.len() || a2 >= s.len() || a3 >= s.len() || a4 >= s.len() {
        None
    } else {
        Some((s.subrange(a3, b3), s.subrange(a4, b4)))
    }
}

pub fn third_and_fourth_fields(s: &str) -> (r: Option<(String, String)>)
    ensures
        match r {
            Some((x, y)) => spec_third_and_fourth_fields(s@) == Some((x@, y@)),
            None => spec_third_and_fourth_fields(s@) is None,
        },
{
    let n = char_len(s);
    let ghost v = s@;
    let a1 = skip_ws(s, 0);
    if a1 >= n {
        return None;
    }
    proof {
        lemma_field_end(v, a1 as int);
    }
    let b1 = find_field_end(s, a1);
    proof {
        lemma_ws_skip(v, b1 as int);
    }
    let a2 = skip_ws(s, b1);
    if a2 >= n {
        return None;
    }
    proof {
        lemma_field_end(v, a2 as int);
    }
    let b2 = find_field_end(s, a2);
    proof {
        lemma_ws_skip(v, b2 as int);
    }
    let a3 = skip_ws(s, b2);
    if a3 >= n {
        return None;
    }
    proof {
        lemma_field_end(v, a3 as int);
    }
    let b3 = find_field_end(s, a3);
    proof {
        lemma_ws_skip(v, b3 as int);
    }
    let a4 = skip_ws(s, b3);
    if a4 >= n {
        return None;
    }
    proof {
        lemma_field_end(v, a4 as int);
    }
    let b4 = find_field_end(s, a4);
    Some((owned(slice_chars(s, a3, b3)), owned(slice_chars(s, a4, b4))))
}

// ---------------------------------------------------------------- block devices

pub open spec fn spec_contains(s: Seq<char>, t: Seq<char>) -> bool {
    exists|i: int| 0 <= i && i + t.len() <= s.len() && #[trigger] s.subrange(i, i + t.len()) == t
}

/// `str::contains` for a string pattern.
pub fn str_contains(s: &str, t: &str) -> (r: bool)
    ensures
        r == spec_contains(s@, t@),
{
    let n = char_len(s);
    let m = char_len(t);
    if m > n {
        return false;
    }
    if m == 0 {
        assert(s@.subrange(0, 0int + t@.len()) == t@);
        return true;
    }
    let mut i: usize = 0;
    while i <= n - m
        invariant
            n == s@.len(),
            m == t@.len(),
            0 < m <= n,
            0 <= i <= n - m + 1,
            forall|j: int| 0 <= j < i ==> #[trigger] s@.subrange(j, j + m) != t@,
        decreases n - m + 1 - i,
    {
        let w = slice_chars(s, i, i + m);
        if str_eq(w, t) {
            assert(s@.subrange(i as int, i + m) == t@);
            return true;
        }
        i = i + 1;
    }
    false
}

/// `s` without its trailing ASCII digits.
pub open spec fn trim_end_digits(s: Seq<char>) -> Seq<char>
    decreases s.len(),
{
    if s.len() > 0 && is_digit(s.last()) {
        trim_end_digits(s.drop_last())
    } else {
        s
    }
}

/// The disk of a block device: for `/dev/mmcblk0p2` and `/dev/nvme0n1p2` the name before
/// the partition suffix `p<digits>`, else the device name without trailing digits.
/// Sources outside `/dev/`, and names that leave nothing, have none.
pub open spec fn spec_block_device_disk_id(source: Seq<char>) -> Option<Seq<char>> {
    if !("/dev/"@.len() <= source.len() && source.subrange(0, 5) == "/dev/"@) {
        None
    } else {
        let device = source.subrange(5, source.len() as int);
        let k = last_index_of(device, 'p');
        if device.len() == 0 {
            None
        } else if k >= 0 && device.subrange(k + 1, device.len() as int).len() > 0 && all_digits(
            device.subrange(k + 1, device.len() as int),
        ) && (("mmcblk"@.len() <= k && device.subrange(0, 6) == "mmcblk"@) || spec_contains(
            device.subrange(0, k),
            "nvme"@,
        )) {
            Some(device.subrange(0, k))
        } else if trim_end_digits(device).len() == 0 {
            None
        } else {
            Some(trim_end_digits(device))
        }
    }
}

fn all_ascii_digits(s: &str) -> (r: bool)
    ensures
        r == all_digits(s@),
{
    let n = char_len(s);
    let mut i: usize = 0;
    while i < n
        invariant
            n == s@.len(),
            0 <= i <= n,
            forall|j: int| 0 <= j < i ==> is_digit(#[trigger] s@[j]),
        decreases n - i,
    {
        let c = char_at(s, i);
        if !('0' <= c && c <= '9') {
            return false;
        }
        i = i + 1;
    }
    true
}

fn trim_end_ascii_digits(s: &str) -> (r: &str)
    ensures
        r@ == trim_end_digits(s@),
{
    let mut end = char_len(s);
    assert(s@.subrange(0, end as int) == s@);
    while end > 0 && '0' <= char_at(s, end - 1) && char_at(s, end - 1) <= '9'
        invariant
            end <= s@.len(),
            trim_end_digits(s@.subrange(0, end as int)) == trim_end_digits(s@),
        decreases end,
    {
        assert(s@.subrange(0, end as int).drop_last() == s@.subrange(0, end - 1));
        end = end - 1;
    }
    slice_chars(s, 0, end)
}

/// Maps `/dev/mmcblk0p2` to `mmcblk0`, `/dev/nvme0n1p2` to `nvme0n1`, `/dev/sda1` to `sda`.
pub fn block_device_disk_id(source: &str) -> (r: Option<String>)
    ensures
        match r {
            Some(d) => spec_block_device_disk_id(source@) == Some(d@),
            None => spec_block_device_disk_id(source@) is None,
        },
{
    proof {
        reveal_strlit("/dev/");
        reveal_strlit("mmcblk");
    }
    if !starts_with(source, "/dev/") {
        return None;
    }
    let n = char_len(source);
    let device = slice_chars(source, 5, n);
    let len = char_len(device);
    if len == 0 {
        return None;
    }
    proof {
        lemma_last_index_of(device@, 'p');
    }
    if let Some(idx) = rfind_char(device, 'p') {
        let partition = slice_chars(device, idx + 1, len);
        let disk = slice_chars(device, 0, idx);
        if char_len(partition) > 0 && all_ascii_digits(partition) && (starts_with(disk, "mmcblk")
            || str_contains(disk, "nvme")) {
            proof {
                if "mmcblk"@.len() <= disk@.len() {
                    assert(disk@.subrange(0, 6) == device@.subrange(0, 6));
                }
            }
            return Some(owned(disk));
        }
        proof {
            if "mmcblk"@.len() <= disk@.len() {
                assert(disk@.subrange(0, 6) == device@.subrange(0, 6));
            }
        }
    }
    let disk = trim_end_ascii_digits(device);
    if char_len(disk) == 0 {
        None
    } else {
        Some(owned(disk))
    }
}

/// Whether a source is a partition of the disk holding the root file system.
pub open spec fn spec_is_on_root_disk(source: Seq<char>, root_disk_id: Option<Seq<char>>) -> bool {
    match root_disk_id {
        Some(root) => spec_block_device_disk_id(source) == Some(root),
        None => false,
    }
}

pub fn is_on_root_disk(source: &str, root_disk_id: Option<&str>) -> (r: bool)
    ensures
        r == spec_is_on_root_disk(
            source@,
            match root_disk_id {
                Some(x) => Some(x@),
                None => None,
            },
        ),
{
    match root_disk_id {
        Some(root) => match block_device_disk_id(source) {
            Some(d) => str_eq(d.as_str(), root),
            None => false,
        },
        None => false,
    }
}

// ---------------------------------------------------------------- which mounts are volumes

/// System mount points that are never volumes.
pub open spec fn is_skipped_mount_point(m: Seq<char>) -> bool {
    ||| m == "/"@
    ||| m == "/boot"@
    ||| m == "/boot/firmware"@
    ||| m == "/proc"@
    ||| m == "/sys"@
    ||| m == "/dev"@
    ||| m == "/run"@
    ||| m == "/tmp"@
    ||| m == "/var"@
    ||| m == "/snap"@
}

/// Pseudo and system file systems that are never volumes.
pub open spec fn is_skipped_fs_type(t: Seq<char>) -> bool {
    ||| t == "proc"@
    ||| t == "sysfs"@
    ||| t == "devtmpfs"@
    ||| t == "tmpfs"@
    ||| t == "devpts"@
    ||| t == "cgroup"@
    ||| t == "cgroup2"@
    ||| t == "pstore"@
    ||| t == "bpf"@
    ||| t == "tracefs"@
    ||| t == "debugfs"@
    ||| t == "securityfs"@
    ||| t == "configfs"@
    ||| t == "fusectl"@
    ||| t == "mqueue"@
    ||| t == "hugetlbfs"@
    ||| t == "binfmt_misc"@
    ||| t == "autofs"@
    ||| t == "overlay"@
    ||| t == "squashfs"@
    ||| t == "rpc_pipefs"@
}

/// File systems that hold user storage.
pub open spec fn is_storage_fs_type(t: Seq<char>) -> bool {
    ||| t == "ext4"@
    ||| t == "ext3"@
    ||| t == "ext2"@
    ||| t == "vfat"@
    ||| t == "exfat"@
    ||| t == "ntfs"@
    ||| t == "ntfs3"@
    ||| t == "btrfs"@
    ||| t == "xfs"@
    ||| t == "f2fs"@
    ||| t == "hfsplus"@
    ||| t == "ufs"@
    ||| t == "msdos"@
    ||| t == "fuseblk"@
}

pub open spec fn has_prefix(s: Seq<char>, p: Seq<char>) -> bool {
    p.len() <= s.len() && s.subrange(0, p.len() as int) == p
}

/// A mount is a volume when its file system is not a system one, it is not on the root
/// disk, its mount point is not a system one, and either it lies under `/media/`,
/// `/mnt/` or `/run/media/` and comes from a device or holds storage, or it comes from a
/// device and holds storage.
pub open spec fn spec_is_volume_mount(
    source: Seq<char>,
    mount_point: Seq<char>,
    fs_type: Seq<char>,
    root_disk_id: Option<Seq<char>>,
) -> bool {
    if is_skipped_fs_type(fs_type) || spec_is_on_root_disk(source, root_disk_id) || is_skipped_mount_point(
        mount_point,
    ) {
        false
    } else if has_prefix(mount_point, "/media/"@) || has_prefix(mount_point, "/mnt/"@) || has_prefix(
        mount_point,
        "/run/media/"@,
    ) {
        has_prefix(source, "/dev/"@) || is_storage_fs_type(fs_type)
    } else {
        has_prefix(source, "/dev/"@) && is_storage_fs_type(fs_type)
    }
}

/// The mount points under which removable storage is mounted: `/media/`, `/mnt/` and
/// `/run/media/`.
proof fn lemma_mount_parents_not_system(m: Seq<char>)
    requires
        (m.len() >= 7 && m.subrange(0, 7) == "/media/"@) || (m.len() >= 5 && m.subrange(0, 5) == "/mnt/"@) || (
        m.len() >= 11 && m.subrange(0, 11) == "/run/media/"@),
    ensures
        !is_skipped_mount_point(m),
        has_prefix(m, "/media/"@) || has_prefix(m, "/mnt/"@) || has_prefix(m, "/run/media/"@),
{
    reveal_strlit("/media/");
    reveal_strlit("/mnt/");
    reveal_strlit("/run/media/");
    reveal_strlit("/");
    reveal_strlit("/boot");
    reveal_strlit("/boot/firmware");
    reveal_strlit("/proc");
    reveal_strlit("/sys");
    reveal_strlit("/dev");
    reveal_strlit("/run");
    reveal_strlit("/tmp");
    reveal_strlit("/var");
    reveal_strlit("/snap");
    if m.len() >= 7 && m.subrange(0, 7) == "/media/"@ {
        assert(m.subrange(0, 7)[1] == m[1]);
        assert("/media/"@[1] == 'm');
        assert(m[1] == 'm');
    } else if m.len() >= 5 && m.subrange(0, 5) == "/mnt/"@ {
        assert(m.subrange(0, 5)[1] == m[1]);
        assert("/mnt/"@[1] == 'm');
        assert(m[1] == 'm');
    } else {
        assert(m.subrange(0, 11)[4] == m[4]);
        assert(m.subrange(0, 11)[5] == m[5]);
        assert("/run/media/"@[4] == '/');
        assert("/run/media/"@[5] == 'm');
        assert(m[4] == '/' && m[5] == 'm');
        assert(m != "/run"@);
    }
}

/// A mount under `/media/`, `/mnt/` or `/run/media/` that is not on the root disk and not
/// of a system file-system type is a volume when it comes from a `/dev/` device, whatever
/// its file system, and when it holds a storage file system, whatever its source.
pub proof fn law_mounts_under_media_are_volumes(
    source: Seq<char>,
    mount_point: Seq<char>,
    fs_type: Seq<char>,
    root_disk_id: Option<Seq<char>>,
)
    requires
        (mount_point.len() >= 7 && mount_point.subrange(0, 7) == "/media/"@) || (mount_point.len() >= 5
            && mount_point.subrange(0, 5) == "/mnt/"@) || (mount_point.len() >= 11 && mount_point.subrange(0, 11)
            == "/run/media/"@),
        !spec_is_on_root_disk(source, root_disk_id),
        !is_skipped_fs_type(fs_type),
    ensures
        (source.len() >= 5 && source.subrange(0, 5) == "/dev/"@) ==> spec_is_volume_mount(
            source,
            mount_point,
            fs_type,
            root_disk_id,
        ),
        is_storage_fs_type(fs_type) ==> spec_is_volume_mount(source, mount_point, fs_type, root_disk_id),
{
    lemma_mount_parents_not_system(mount_point);
    reveal_strlit("/dev/");
}

/// Elsewhere, a mount is a volume only when it comes from a `/dev/` device and holds a
/// storage file system.
pub proof fn law_other_mounts_need_device_and_storage(
    source: Seq<char>,
    mount_point: Seq<char>,
    fs_type: Seq<char>,
    root_disk_id: Option<Seq<char>>,
)
    ensures
        spec_is_volume_mount(source, mount_point, fs_type, root_disk_id) ==> (source.len() >= 5 && source.subrange(0, 5)
            == "/dev/"@) || is_storage_fs_type(fs_type),
        (spec_is_volume_mount(source, mount_point, fs_type, root_disk_id) && !has_prefix(mount_point, "/media/"@)
            && !has_prefix(mount_point, "/mnt/"@) && !has_prefix(mount_point, "/run/media/"@)) ==> (source.len()
            >= 5 && source.subrange(0, 5) == "/dev/"@) && is_storage_fs_type(fs_type),
{
    reveal_strlit("/dev/");
}

fn skipped_mount_point(m: &str) -> (r: bool)
    ensures
        r == is_skipped_mount_point(m@),
{
    str_eq(m, "/") || str_eq(m, "/boot") || str_eq(m, "/boot/firmware") || str_eq(m, "/proc") || str_eq(
        m,
        "/sys",
    ) || str_eq(m, "/dev") || str_eq(m, "/run") || str_eq(m, "/tmp") || str_eq(m, "/var") || str_eq(
        m,
        "/snap",
    )
}

fn skipped_fs_type(t: &str) -> (r: bool)
    ensures
        r == is_skipped_fs_type(t@),
{
    str_eq(t, "proc") || str_eq(t, "sysfs") || str_eq(t, "devtmpfs") || str_eq(t, "tmpfs") || str_eq(
        t,
        "devpts",
    ) || str_eq(t, "cgroup") || str_eq(t, "cgroup2") || str_eq(t, "pstore") || str_eq(t, "bpf")
        || str_eq(t, "tracefs") || str_eq(t, "debugfs") || str_eq(t, "securityfs") || str_eq(
        t,
        "configfs",
    ) || str_eq(t, "fusectl") || str_eq(t, "mqueue") || str_eq(t, "hugetlbfs") || str_eq(
        t,
        "binfmt_misc",
    ) || str_eq(t, "autofs") || str_eq(t, "overlay") || str_eq(t, "squashfs") || str_eq(
        t,
        "rpc_pipefs",
    )
}

fn storage_fs_type(t: &str) -> (r: bool)
    ensures
        r == is_storage_fs_type(t@),
{
    str_eq(t, "ext4") || str_eq(t, "ext3") || str_eq(t, "ext2") || str_eq(t, "vfat") || str_eq(t, "exfat")
        || str_eq(t, "ntfs") || str_eq(t, "ntfs3") || str_eq(t, "btrfs") || str_eq(t, "xfs") || str_eq(
        t,
        "f2fs",
    ) || str_eq(t, "hfsplus") || str_eq(t, "ufs") || str_eq(t, "msdos") || str_eq(t, "fuseblk")
}

/// Whether a mount is a storage volume to show.
pub fn is_volume_mount(source: &str, mount_point: &str, fs_type: &str, root_disk_id: Option<&str>) -> (r: bool)
    ensures
        r == spec_is_volume_mount(
            source@,
            mount_point@,
            fs_type@,
            match root_disk_id {
                Some(x) => Some(x@),
                None => None,
            },
        ),
{
    if skipped_fs_type(fs_type) {
        return false;
    }
    if is_on_root_disk(source, root_disk_id) {
        return false;
    }
    if skipped_mount_point(mount_point) {
        return false;
    }
    let under_media = starts_with(mount_point, "/media/") || starts_with(mount_point, "/mnt/") || starts_with(
        mount_point,
        "/run/media/",
    );
    if under_media {
        return starts_with(source, "/dev/") || storage_fs_type(fs_type);
    }
    starts_with(source, "/dev/") && storage_fs_type(fs_type)
}

/// The name shown for a volume: the last component of its mount point, else the mount
/// point itself.
pub open spec fn spec_mount_display_name(mount_point: Seq<char>) -> Seq<char> {
    match spec_file_name(mount_point) {
        Some(n) => if n.len() > 0 {
            n
        } else {
            mount_point
        },
        None => mount_point,
    }
}

pub fn mount_display_name(mount_point: &str) -> (r: String)
    ensures
        r@ == spec_mount_display_name(mount_point@),
{
    match file_name(mount_point) {
        Some(n) => if char_len(n) > 0 {
            owned(n)
        } else {
            owned(mount_point)
        },
        None => owned(mount_point),
    }
}

// ---------------------------------------------------------------- the mount table as a whole

/// The disk of the root file system: that of the source of the first line mounted at `/`.
pub open spec fn root_disk_of_lines(lines: Seq<Seq<char>>) -> Option<Seq<char>>
    decreases lines.len(),
{
    if lines.len() == 0 {
        None
    } else {
        match spec_parse_mount_line(lines[0]) {
            Some((source, mount_point, _)) => if mount_point == "/"@ {
                spec_block_device_disk_id(source)
            } else {
                root_disk_of_lines(lines.drop_first())
            },
            None => root_disk_of_lines(lines.drop_first()),
        }
    }
}

/// The disk holding the root file system, read from the mount table.
pub fn root_disk_id_from_mounts(mounts: &str) -> (r: Option<String>)
    ensures
        match r {
            Some(d) => root_disk_of_lines(spec_lines(mounts@)) == Some(d@),
            None => root_disk_of_lines(spec_lines(mounts@)) is None,
        },
{
    let n = char_len(mounts);
    let ghost goal = root_disk_of_lines(spec_lines(mounts@));
    let mut pos: usize = 0;
    assert(mounts@.subrange(0, n as int) == mounts@);
    loop
        invariant
            n == mounts@.len(),
            pos <= n,
            goal == root_disk_of_lines(spec_lines(mounts@)),
            root_disk_of_lines(spec_lines(mounts@.subrange(pos as int, n as int))) == goal,
        decreases n - pos,
    {
        let rest = slice_chars(mounts, pos, n);
        let ghost text = rest@;
        proof {
            lemma_first_index_of(text, '\n');
        }
        let (line, next) = match find_char(rest, '\n') {
            Some(k) => (slice_chars(rest, 0, k), Some(pos + k + 1)),
            None => (rest, None),
        };
        let ghost ls = spec_lines(text);
        assert(ls.len() > 0 && ls[0] == line@);
        assert(root_disk_of_lines(ls) == match spec_parse_mount_line(line@) {
            Some((source, mount_point, _)) => if mount_point == "/"@ {
                spec_block_device_disk_id(source)
            } else {
                root_disk_of_lines(ls.drop_first())
            },
            None => root_disk_of_lines(ls.drop_first()),
        });
        match parse_mount_line(line) {
            Some((source, mount_point, _)) => {
                if str_eq(mount_point.as_str(), "/") {
                    return block_device_disk_id(source.as_str());
                }
            },
            None => {},
        }
        match next {
            Some(p) => {
                assert(text.subrange(first_index_of(text, '\n') + 1, text.len() as int)
                    == mounts@.subrange(p as int, n as int));
                assert(ls.drop_first() == spec_lines(mounts@.subrange(p as int, n as int)));
                pos = p;
            },
            None => {
                assert(ls.drop_first().len() == 0);
                return None;
            },
        }
    }
}

/// The volume candidates among the lines: for each line that parses and is a volume
/// mount, its display name and mount point, in order.
pub open spec fn volume_lines(lines: Seq<Seq<char>>, root: Option<Seq<char>>) -> Seq<(Seq<char>, Seq<char>)>
    decreases lines.len(),
{
    if lines.len() == 0 {
        seq![]
    } else {
        let rest = volume_lines(lines.drop_first(), root);
        match spec_parse_mount_line(lines[0]) {
            Some((source, mount_point, fs_type)) => if spec_is_volume_mount(source, mount_point, fs_type, root) {
                seq![(spec_mount_display_name(mount_point), mount_point)] + rest
            } else {
                rest
            },
            None => rest,
        }
    }
}

/// The mounts of the mount table that are storage volumes, in table order, before the
/// check that each mount point is a directory.
pub fn mount_candidates(mounts: &str) -> (r: Vec<VolumeRoot>)
    ensures
        volume_views(r@) == volume_lines(spec_lines(mounts@), root_disk_of_lines(spec_lines(mounts@))),
{
    let root = root_disk_id_from_mounts(mounts);
    let ghost root_v = root_disk_of_lines(spec_lines(mounts@));
    let root_ref: Option<&str> = match &root {
        Some(d) => Some(d.as_str()),
        None => None,
    };
    let n = char_len(mounts);
    let ghost goal = volume_lines(spec_lines(mounts@), root_v);
    let mut out: Vec<VolumeRoot> = Vec::new();
    let mut pos: usize = 0;
    assert(mounts@.subrange(0, n as int) == mounts@);
    loop
        invariant
            n == mounts@.len(),
            pos <= n,
            root_v == match root_ref {
                Some(x) => Some(x@),
                None => None,
            },
            goal == volume_lines(spec_lines(mounts@), root_v),
            root_v == root_disk_of_lines(spec_lines(mounts@)),
            volume_views(out@) + volume_lines(spec_lines(mounts@.subrange(pos as int, n as int)), root_v) == goal,
        decreases n - pos,
    {
        let rest = slice_chars(mounts, pos, n);
        let ghost text = rest@;
        proof {
            lemma_first_index_of(text, '\n');
        }
        let (line, next) = match find_char(rest, '\n') {
            Some(k) => (slice_chars(rest, 0, k), Some(pos + k + 1)),
            None => (rest, None),
        };
        let ghost ls = spec_lines(text);
        assert(ls.len() > 0 && ls[0] == line@);
        assert(volume_lines(ls, root_v) == match spec_parse_mount_line(line@) {
            Some((source, mount_point, fs_type)) => if spec_is_volume_mount(source, mount_point, fs_type, root_v) {
                seq![(spec_mount_display_name(mount_point), mount_point)] + volume_lines(ls.drop_first(), root_v)
            } else {
                volume_lines(ls.drop_first(), root_v)
            },
            None => volume_lines(ls.drop_first(), root_v),
        });
        let ghost before = out@;
        match parse_mount_line(line) {
            Some((source, mount_point, fs_type)) => {
                if is_volume_mount(source.as_str(), mount_point.as_str(), fs_type.as_str(), root_ref) {
                    let name = mount_display_name(mount_point.as_str());
                    out.push(VolumeRoot { name, path: mount_point });
                    assert(volume_views(out@) == volume_views(before).push(
                        (spec_mount_display_name(mount_point@), mount_point@),
                    ));
                }
            },
            None => {},
        }
        match next {
            Some(p) => {
                assert(text.subrange(first_index_of(text, '\n') + 1, text.len() as int)
                    == mounts@.subrange(p as int, n as int));
                assert(ls.drop_first() == spec_lines(mounts@.subrange(p as int, n as int)));
                pos = p;
            },
            None => {
                assert(ls.drop_first().len() == 0);
                assert(volume_views(out@) == goal);
                return out;
            },
        }
    }
}

/// `s` with each run of consecutive volumes on the same path reduced to its first.
pub open spec fn dedup_paths(s: Seq<VolumeRoot>) -> Seq<VolumeRoot>
    decreases s.len(),
{
    if s.len() == 0 {
        s
    } else {
        let r = dedup_paths(s.drop_last());
        if r.len() > 0 && r.last().path@ == s.last().path@ {
            r
        } else {
            r.push(s.last())
        }
    }
}

/// Sorts the volumes by path and keeps one volume per path, the first of its run.
pub fn dedupe_by_path(volumes: Vec<VolumeRoot>) -> (r: Vec<VolumeRoot>)
    ensures
        r@ == dedup_paths(sort_by_key::<ByPath, VolumeRoot>(volumes@)),
{
    let mut sorted = volumes;
    sort_by_key_in::<ByPath, VolumeRoot>(&mut sorted);
    let ghost s0 = sorted@;
    let mut out: Vec<VolumeRoot> = Vec::new();
    let mut pending: Vec<VolumeRoot> = Vec::new();
    std::mem::swap(&mut pending, &mut sorted);
    let n = pending.len();
    let mut k: usize = 0;
    while pending.len() > 0
        invariant
            n == s0.len(),
            0 <= k <= n,
            pending@ == s0.subrange(k as int, n as int),
            out@ == dedup_paths(s0.subrange(0, k as int)),
        decreases pending@.len(),
    {
        let v = pending.remove(0);
        assert(v == s0[k as int]);
        assert(s0.subrange(0, k + 1).drop_last() == s0.subrange(0, k as int));
        let same = out.len() > 0 && str_eq(out[out.len() - 1].path.as_str(), v.path.as_str());
        if !same {
            out.push(v);
        }
        k = k + 1;
        assert(pending@ == s0.subrange(k as int, n as int));
    }
    assert(s0.subrange(0, n as int) == s0);
    out
}

/// No two volumes share a mount path.
pub open spec fn paths_distinct(r: Seq<VolumeRoot>) -> bool {
    forall|i: int, j: int| 0 <= i < j < r.len() ==> (#[trigger] r[i]).path@ != (#[trigger] r[j]).path@
}

proof fn lemma_dedup_sorted(s: Seq<VolumeRoot>)
    requires
        sorted_by_key::<ByPath, VolumeRoot>(s),
    ensures
        sorted_by_key::<ByPath, VolumeRoot>(dedup_paths(s)),
        paths_distinct(dedup_paths(s)),
        s.len() > 0 ==> dedup_paths(s).len() > 0 && dedup_paths(s).last().path@ == s.last().path@,
    decreases s.len(),
{
    if s.len() > 0 {
        let d = s.drop_last();
        let x = s.last();
        assert(sorted_by_key::<ByPath, VolumeRoot>(d)) by {
            assert forall|i: int, j: int| 0 <= i < j < d.len() implies lex_le(
                #[trigger] <VolumeRoot as Keyed<ByPath>>::key(&d[i]),
                #[trigger] <VolumeRoot as Keyed<ByPath>>::key(&d[j]),
            ) by {
                assert(d[i] == s[i] && d[j] == s[j]);
            }
        }
        lemma_dedup_sorted(d);
        let r = dedup_paths(d);
        if !(r.len() > 0 && r.last().path@ == x.path@) {
            let t = r.push(x);
            if r.len() > 0 {
                assert(lex_le(d.last().path@, x.path@)) by {
                    assert(d.last() == s[s.len() - 2]);
                    assert(lex_le(<VolumeRoot as Keyed<ByPath>>::key(&s[s.len() - 2]), <VolumeRoot as Keyed<ByPath>>::key(&s[s.len() - 1])));
                }
            }
            assert forall|i: int| 0 <= i < r.len() implies lex_le(#[trigger] r[i].path@, x.path@) by {
                if i < r.len() - 1 {
                    assert(lex_le(<VolumeRoot as Keyed<ByPath>>::key(&r[i]), <VolumeRoot as Keyed<ByPath>>::key(&r[r.len() - 1])));
                    lemma_lex_le_trans(r[i].path@, r.last().path@, x.path@);
                }
            }
            assert forall|i: int, j: int| 0 <= i < j < t.len() implies lex_le(
                #[trigger] <VolumeRoot as Keyed<ByPath>>::key(&t[i]),
                #[trigger] <VolumeRoot as Keyed<ByPath>>::key(&t[j]),
            ) by {
                if j < r.len() {
                    assert(t[i] == r[i] && t[j] == r[j]);
                } else {
                    assert(t[i] == r[i] && t[j] == x);
                }
            }
            assert forall|i: int, j: int| 0 <= i < j < t.len() implies (#[trigger] t[i]).path@ != (#[trigger] t[j]).path@ by {
                if j < r.len() {
                    assert(t[i] == r[i] && t[j] == r[j]);
                } else {
                    assert(t[i] == r[i] && t[j] == x);
                    if r[i].path@ == x.path@ {
                        assert(lex_le(<VolumeRoot as Keyed<ByPath>>::key(&r[i]), <VolumeRoot as Keyed<ByPath>>::key(&r[r.len() - 1])) || i == r.len() - 1);
                        if i < r.len() - 1 {
                            lemma_lex_le_antisym(r.last().path@, x.path@);
                        }
                    }
                }
            }
        }
    }
}

/// After deduplication no two volumes share a mount path, and they come in path order.
pub proof fn law_dedupe_leaves_distinct_paths(volumes: Seq<VolumeRoot>)
    ensures
        paths_distinct(dedup_paths(sort_by_key::<ByPath, VolumeRoot>(volumes))),
        sorted_by_key::<ByPath, VolumeRoot>(dedup_paths(sort_by_key::<ByPath, VolumeRoot>(volumes))),
{
    lemma_sort_by_key_sorted::<ByPath, VolumeRoot>(volumes);
    lemma_dedup_sorted(sort_by_key::<ByPath, VolumeRoot>(volumes));
}

} // verus!
