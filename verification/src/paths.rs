//! Canonical paths used as keys of per-file state, and the file paths of a tree.

use vstd::prelude::*;
use crate::structs::{FileNode, FolderNode, lemma_child_smaller};
use crate::volumes::spec_contains;
use crate::text::{char_at, char_len, push_char, str_eq};

verus! {

// ------------------------------------------------------------------ path equality

/// A piece of a path between separators closes a component when it is neither empty nor
/// `.`: repeated separators and `.` pieces carry no component.
pub open spec fn close_piece(acc: Seq<Seq<char>>, cur: Seq<char>) -> Seq<Seq<char>> {
    if cur.len() > 0 && cur != seq!['.'] {
        acc.push(cur)
    } else {
        acc
    }
}

/// Reading the first `i` characters of a path: the components closed so far and the
/// piece being read.
pub open spec fn pieces_upto(p: Seq<char>, i: int) -> (Seq<Seq<char>>, Seq<char>)
    decreases i,
{
    if i <= 0 || i > p.len() {
        (seq![], seq![])
    } else {
        let (acc, cur) = pieces_upto(p, i - 1);
        if p[i - 1] == '/' {
            (close_piece(acc, cur), seq![])
        } else {
            (acc, cur.push(p[i - 1]))
        }
    }
}

/// The leading component of a path: the root `/` when it starts with a separator, `.`
/// when its first piece is `.`, else none.
pub open spec fn path_head(p: Seq<char>) -> Seq<Seq<char>> {
    if p.len() > 0 && p[0] == '/' {
        seq![seq!['/']]
    } else if p.len() > 0 && p[0] == '.' && (p.len() == 1 || p[1] == '/') {
        seq![seq!['.']]
    } else {
        seq![]
    }
}

/// The components of a path, as `Path::components` reads them on Unix: the root (written
/// `/`) or a leading `.`, then the named components; repeated separators, `.` pieces and
/// a trailing separator carry none.
pub open spec fn path_components(p: Seq<char>) -> Seq<Seq<char>> {
    let (acc, cur) = pieces_upto(p, p.len() as int);
    path_head(p) + close_piece(acc, cur)
}

/// Two paths are the same path when they have the same components, as `Path` compares
/// them.
pub open spec fn same_path(a: Seq<char>, b: Seq<char>) -> bool {
    path_components(a) == path_components(b)
}

fn piece_closes(cur: &String) -> (r: bool)
    ensures
        r == (cur@.len() > 0 && cur@ != seq!['.']),
{
    let n = char_len(cur.as_str());
    if n == 0 {
        return false;
    }
    if n == 1 && char_at(cur.as_str(), 0) == '.' {
        assert(cur@ == seq!['.']);
        return false;
    }
    assert(cur@.len() == 1 ==> cur@[0] != '.');
    true
}

/// The components of a path.
pub fn components_of(p: &str) -> (r: Vec<String>)
    ensures
        r@.map_values(|c: String| c@) == path_components(p@),
{
    let n = char_len(p);
    let mut head: Vec<String> = Vec::new();
    if n > 0 && char_at(p, 0) == '/' {
        let mut root = String::new();
        push_char(&mut root, '/');
        head.push(root);
    } else if n > 0 && char_at(p, 0) == '.' && (n == 1 || char_at(p, 1) == '/') {
        let mut dot = String::new();
        push_char(&mut dot, '.');
        head.push(dot);
    }
    assert(head@.map_values(|c: String| c@) == path_head(p@));
    let mut acc: Vec<String> = Vec::new();
    let mut cur = String::new();
    let mut i: usize = 0;
    while i < n
        invariant
            n == p@.len(),
            0 <= i <= n,
            pieces_upto(p@, i as int) == (acc@.map_values(|c: String| c@), cur@),
        decreases n - i,
    {
        let c = char_at(p, i);
        let ghost before = acc@;
        if c == '/' {
            if piece_closes(&cur) {
                acc.push(cur);
                assert(acc@.map_values(|c: String| c@) == before.map_values(|c: String| c@).push(cur@));
            }
            cur = String::new();
        } else {
            push_char(&mut cur, c);
        }
        i = i + 1;
    }
    let ghost before = acc@;
    if piece_closes(&cur) {
        acc.push(cur);
        assert(acc@.map_values(|c: String| c@) == before.map_values(|c: String| c@).push(cur@));
    }
    let ghost h = head@;
    let ghost a = acc@;
    head.append(&mut acc);
    assert(head@ == h + a);
    assert(head@.map_values(|c: String| c@) == h.map_values(|c: String| c@) + a.map_values(|c: String| c@));
    head
}

/// Whether two paths are the same path, as `Path` compares them: component by component.
pub fn paths_equal(a: &str, b: &str) -> (r: bool)
    ensures
        r == same_path(a@, b@),
{
    let ca = components_of(a);
    let cb = components_of(b);
    let ghost va = ca@.map_values(|c: String| c@);
    let ghost vb = cb@.map_values(|c: String| c@);
    assert(va == path_components(a@) && vb == path_components(b@));
    if ca.len() != cb.len() {
        assert(va.len() != vb.len());
        return false;
    }
    let mut i: usize = 0;
    while i < ca.len()
        invariant
            ca@.len() == cb@.len(),
            va == ca@.map_values(|c: String| c@),
            vb == cb@.map_values(|c: String| c@),
            0 <= i <= ca@.len(),
            forall|j: int| 0 <= j < i ==> va[j] == vb[j],
            va == path_components(a@),
            vb == path_components(b@),
        decreases ca@.len() - i,
    {
        if !str_eq(ca[i].as_str(), cb[i].as_str()) {
            assert(va[i as int] != vb[i as int]);
            return false;
        }
        i = i + 1;
    }
    assert(va =~= vb);
    true
}

/// An absolute path in normal form: it starts at the root and has no `.` or `..`
/// component.
pub open spec fn is_canonical_form(p: Seq<char>) -> bool {
    &&& p.len() > 0
    &&& p[0] == '/'
    &&& !spec_contains(p.push('/'), "/./"@)
    &&& !spec_contains(p.push('/'), "/../"@)
}

/// `Path::canonicalize`: the absolute path with every component normalized and symbolic
/// links resolved, when the filesystem gives one. Stated: a path that comes back is
/// absolute and has no `.` or `..` component. Which path comes back, and whether one
/// does, depends on the filesystem and is not stated.
#[verifier::external_body]
fn canonicalize(path: &str) -> (r: Option<String>)
    ensures
        match r {
            Some(c) => is_canonical_form(c@),
            None => true,
        },
{
    match std::path::Path::new(path).canonicalize() {
        Ok(p) => Some(p.to_string_lossy().into_owned()),
        Err(_) => None,
    }
}

/// Canonical absolute path string used as the key of per-file state: the canonical form
/// when the filesystem gives one, and otherwise the path itself.
pub fn normalize_path(path: &str) -> (r: String)
    ensures
        r@ == path@ || is_canonical_form(r@),
{
    let canonical = canonicalize(path);
    normalized_or_given(path, canonical)
}

/// The canonical form of a path when there is one, and otherwise the path itself.
pub fn normalized_or_given(path: &str, canonical: Option<String>) -> (r: String)
    ensures
        r@ == match canonical {
            Some(c) => c@,
            None => path@,
        },
{
    match canonical {
        Some(p) => p,
        None => crate::text::owned(path),
    }
}

/// The paths of every file of the tree: a folder's own files, then those of each
/// subfolder in order.
pub open spec fn tree_file_paths(f: FolderNode) -> Seq<Seq<char>>
    decreases f, 0int,
{
    f.files@.map_values(|x: FileNode| x.path@) + folders_file_paths(
        f.subfolders@,
        f.subfolders@.len() as int,
    )
}

pub open spec fn folders_file_paths(s: Seq<FolderNode>, n: int) -> Seq<Seq<char>>
    decreases s, n,
{
    if n <= 0 || n > s.len() {
        seq![]
    } else {
        folders_file_paths(s, n - 1) + tree_file_paths(s[n - 1])
    }
}

fn collect_raw_paths(folder: &FolderNode, out: &mut Vec<String>)
    ensures
        final(out)@.map_values(|p: String| p@) == old(out)@.map_values(|p: String| p@)
            + tree_file_paths(*folder),
    decreases *folder,
{
    let ghost o0 = out@.map_values(|p: String| p@);
    let mut i: usize = 0;
    while i < folder.files.len()
        invariant
            0 <= i <= folder.files@.len(),
            o0 == old(out)@.map_values(|p: String| p@),
            out@.map_values(|p: String| p@) == o0 + folder.files@.subrange(0, i as int).map_values(
                |x: FileNode| x.path@,
            ),
        decreases folder.files@.len() - i,
    {
        let ghost prev = out@;
        out.push(folder.files[i].path.clone());
        assert(out@ == prev.push(folder.files@[i as int].path));
        assert(out@.map_values(|p: String| p@) == prev.map_values(|p: String| p@).push(
            folder.files@[i as int].path@,
        ));
        assert(folder.files@.subrange(0, i + 1).map_values(|x: FileNode| x.path@)
            == folder.files@.subrange(0, i as int).map_values(|x: FileNode| x.path@).push(
            folder.files@[i as int].path@,
        ));
        assert(out@.map_values(|p: String| p@) == o0 + folder.files@.subrange(0, i + 1).map_values(
            |x: FileNode| x.path@,
        ));
        i = i + 1;
    }
    assert(folder.files@.subrange(0, folder.files@.len() as int) == folder.files@);
    let ghost o1 = out@.map_values(|p: String| p@);
    let mut j: usize = 0;
    while j < folder.subfolders.len()
        invariant
            0 <= j <= folder.subfolders@.len(),
            o1 == o0 + folder.files@.map_values(|x: FileNode| x.path@),
            o0 == old(out)@.map_values(|p: String| p@),
            out@.map_values(|p: String| p@) == o1 + folders_file_paths(folder.subfolders@, j as int),
        decreases folder.subfolders@.len() - j,
    {
        proof {
            lemma_child_smaller(*folder, j as int);
        }
        collect_raw_paths(&folder.subfolders[j], out);
        j = j + 1;
    }
}

/// The path of every file of the tree, in order.
pub fn collect_tree_file_paths(tree: &FolderNode) -> (r: Vec<String>)
    ensures
        r@.map_values(|p: String| p@) == tree_file_paths(*tree),
{
    let mut out = Vec::new();
    collect_raw_paths(tree, &mut out);
    assert(out@.map_values(|p: String| p@) == Seq::<String>::empty().map_values(|p: String| p@)
        + tree_file_paths(*tree));
    out
}

/// Walk the library tree and collect every video file path, normalized: the file paths
/// of the tree in order, each one itself or its canonical form.
pub fn collect_file_paths(tree: &FolderNode) -> (r: Vec<String>)
    ensures
        r@.len() == tree_file_paths(*tree).len(),
        forall|i: int|
            0 <= i < r@.len() ==> (#[trigger] r@[i])@ == tree_file_paths(*tree)[i] || is_canonical_form(r@[i]@),
{
    let raw = collect_tree_file_paths(tree);
    let ghost want = tree_file_paths(*tree);
    let mut out: Vec<String> = Vec::new();
    let mut i: usize = 0;
    while i < raw.len()
        invariant
            0 <= i <= raw@.len(),
            out@.len() == i,
            raw@.map_values(|p: String| p@) == want,
            forall|j: int| 0 <= j < i ==> (#[trigger] out@[j])@ == want[j] || is_canonical_form(out@[j]@),
        decreases raw@.len() - i,
    {
        let p = normalize_path(raw[i].as_str());
        assert(raw@[i as int]@ == want[i as int]);
        out.push(p);
        i = i + 1;
    }
    out
}

} // verus!
