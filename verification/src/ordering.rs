//! Case-insensitive alphabetical order of folder and file names.

use vstd::prelude::*;
use crate::text::{ascii_lower, char_at, char_len, char_to_ascii_lowercase};
use crate::structs::{FileNode, FolderNode, Stat, file_stat, files_stat, folders_stat, tree_stat, stats_filled, stored_stat};
use crate::library::no_empty_subfolders;

verus! {

/// Lexicographic order on character sequences (code point by code point), as `str`
/// comparison orders UTF-8 text.
pub open spec fn lex_le(a: Seq<char>, b: Seq<char>) -> bool
    decreases a.len(),
{
    if a.len() == 0 {
        true
    } else if b.len() == 0 {
        false
    } else if a[0] != b[0] {
        (a[0] as int) < (b[0] as int)
    } else {
        lex_le(a.subrange(1, a.len() as int), b.subrange(1, b.len() as int))
    }
}

/// The sort key of a name: its ASCII lower-case form.
pub open spec fn name_key(s: Seq<char>) -> Seq<char> {
    s.map_values(|c: char| ascii_lower(c))
}

/// `a` sorts no later than `b`, ignoring ASCII case.
pub open spec fn name_le(a: Seq<char>, b: Seq<char>) -> bool {
    lex_le(name_key(a), name_key(b))
}

pub proof fn lemma_lex_le_total(a: Seq<char>, b: Seq<char>)
    ensures
        lex_le(a, b) || lex_le(b, a),
    decreases a.len(),
{
    if a.len() > 0 && b.len() > 0 && a[0] != b[0] {
        assert((a[0] as int) != (b[0] as int));
    }
    if a.len() > 0 && b.len() > 0 && a[0] == b[0] {
        lemma_lex_le_total(a.subrange(1, a.len() as int), b.subrange(1, b.len() as int));
    }
}

/// `lex_le` is transitive.
pub proof fn lemma_lex_le_trans(a: Seq<char>, b: Seq<char>, c: Seq<char>)
    requires
        lex_le(a, b),
        lex_le(b, c),
    ensures
        lex_le(a, c),
    decreases a.len(),
{
    if a.len() > 0 && b.len() > 0 && c.len() > 0 {
        if a[0] != c[0] {
            assert((a[0] as int) != (c[0] as int));
        }
        if a[0] != b[0] {
            assert((a[0] as int) != (b[0] as int));
        }
        if b[0] != c[0] {
            assert((b[0] as int) != (c[0] as int));
        }
        if a[0] == b[0] && b[0] == c[0] {
            lemma_lex_le_trans(
                a.subrange(1, a.len() as int),
                b.subrange(1, b.len() as int),
                c.subrange(1, c.len() as int),
            );
        }
    }
}

/// `lex_le` is antisymmetric.
pub proof fn lemma_lex_le_antisym(a: Seq<char>, b: Seq<char>)
    requires
        lex_le(a, b),
        lex_le(b, a),
    ensures
        a == b,
    decreases a.len(),
{
    if a.len() > 0 && b.len() > 0 {
        if a[0] != b[0] {
            assert((a[0] as int) != (b[0] as int));
        } else {
            let ta = a.subrange(1, a.len() as int);
            let tb = b.subrange(1, b.len() as int);
            lemma_lex_le_antisym(ta, tb);
            assert(a == seq![a[0]] + ta);
            assert(b == seq![b[0]] + tb);
        }
    }
}

/// The case-insensitive name order is transitive.
pub proof fn lemma_name_le_trans(a: Seq<char>, b: Seq<char>, c: Seq<char>)
    requires
        name_le(a, b),
        name_le(b, c),
    ensures
        name_le(a, c),
{
    lemma_lex_le_trans(name_key(a), name_key(b), name_key(c));
}

/// Any two names are ordered one way or the other, ignoring case.
pub proof fn lemma_name_le_total(a: Seq<char>, b: Seq<char>)
    ensures
        name_le(a, b) || name_le(b, a),
{
    lemma_lex_le_total(name_key(a), name_key(b));
}

/// Compares two names ignoring ASCII case: `true` when `a` sorts no later than `b`.
pub fn names_in_order(a: &str, b: &str) -> (r: bool)
    ensures
        r == name_le(a@, b@),
{
    let na = char_len(a);
    let nb = char_len(b);
    let mut i: usize = 0;
    let ghost ka = name_key(a@);
    let ghost kb = name_key(b@);
    assert(ka.subrange(0, ka.len() as int) == ka);
    assert(kb.subrange(0, kb.len() as int) == kb);
    while i < na && i < nb
        invariant
            na == a@.len(),
            nb == b@.len(),
            ka == name_key(a@),
            kb == name_key(b@),
            0 <= i <= na,
            i <= nb,
            lex_le(ka.subrange(i as int, na as int), kb.subrange(i as int, nb as int)) == lex_le(ka, kb),
        decreases na - i,
    {
        let ca = char_to_ascii_lowercase(char_at(a, i));
        let cb = char_to_ascii_lowercase(char_at(b, i));
        let ghost sa = ka.subrange(i as int, na as int);
        let ghost sb = kb.subrange(i as int, nb as int);
        assert(sa[0] == ca);
        assert(sb[0] == cb);
        if ca != cb {
            return (ca as u32) < (cb as u32);
        }
        assert(sa.subrange(1, sa.len() as int) == ka.subrange(i + 1, na as int));
        assert(sb.subrange(1, sb.len() as int) == kb.subrange(i + 1, nb as int));
        i = i + 1;
    }
    i == na
}


/// Compares two strings code point by code point: `true` when `a` sorts no later than `b`,
/// as `str` comparison orders them.
pub fn strs_in_order(a: &str, b: &str) -> (r: bool)
    ensures
        r == lex_le(a@, b@),
{
    let na = char_len(a);
    let nb = char_len(b);
    let mut i: usize = 0;
    assert(a@.subrange(0, na as int) == a@);
    assert(b@.subrange(0, nb as int) == b@);
    while i < na && i < nb
        invariant
            na == a@.len(),
            nb == b@.len(),
            0 <= i <= na,
            i <= nb,
            lex_le(a@.subrange(i as int, na as int), b@.subrange(i as int, nb as int)) == lex_le(a@, b@),
        decreases na - i,
    {
        let ca = char_at(a, i);
        let cb = char_at(b, i);
        let ghost sa = a@.subrange(i as int, na as int);
        let ghost sb = b@.subrange(i as int, nb as int);
        assert(sa[0] == ca);
        assert(sb[0] == cb);
        if ca != cb {
            return (ca as u32) < (cb as u32);
        }
        assert(sa.subrange(1, sa.len() as int) == a@.subrange(i + 1, na as int));
        assert(sb.subrange(1, sb.len() as int) == b@.subrange(i + 1, nb as int));
        i = i + 1;
    }
    i == na
}

// ------------------------------------------------------------------ sorting by name

/// Marker of the order by case-insensitive display name.
pub struct ByName;

/// Something sorted by a key under the order `K`: `key` is the character sequence that
/// the order compares, code point by code point.
pub trait Keyed<K> {
    spec fn key(&self) -> Seq<char>;

    fn key_le(&self, other: &Self) -> (r: bool)
        ensures
            r == lex_le(self.key(), other.key()),
    ;
}

impl Keyed<ByName> for FileNode {
    open spec fn key(&self) -> Seq<char> {
        name_key(self.name@)
    }

    fn key_le(&self, other: &Self) -> (r: bool) {
        names_in_order(self.name.as_str(), other.name.as_str())
    }
}

impl Keyed<ByName> for FolderNode {
    open spec fn key(&self) -> Seq<char> {
        name_key(self.name@)
    }

    fn key_le(&self, other: &Self) -> (r: bool) {
        names_in_order(self.name.as_str(), other.name.as_str())
    }
}

/// Where `x` goes in `s`: after every leading item whose key sorts no later than its own.
pub open spec fn insert_pos<K, T: Keyed<K>>(s: Seq<T>, x: T) -> int
    decreases s.len(),
{
    if s.len() == 0 {
        0
    } else if lex_le(s[0].key(), x.key()) {
        1 + insert_pos(s.subrange(1, s.len() as int), x)
    } else {
        0
    }
}

/// `s` with `x` inserted after the leading items that sort no later than it.
pub open spec fn insert_by_key<K, T: Keyed<K>>(s: Seq<T>, x: T) -> Seq<T> {
    s.insert(insert_pos(s, x), x)
}

/// Stable sort by key: each item, in input order, is inserted after every item already
/// placed whose key sorts no later than its own.
pub open spec fn sort_by_key<K, T: Keyed<K>>(s: Seq<T>) -> Seq<T>
    decreases s.len(),
{
    if s.len() == 0 {
        s
    } else {
        insert_by_key(sort_by_key(s.drop_last()), s.last())
    }
}

/// Every item's key sorts no later than the keys of the items after it.
pub open spec fn sorted_by_key<K, T: Keyed<K>>(s: Seq<T>) -> bool {
    forall|i: int, j: int|
        0 <= i < j < s.len() ==> lex_le(#[trigger] s[i].key(), #[trigger] s[j].key())
}

pub proof fn lemma_insert_pos_bounds<K, T: Keyed<K>>(s: Seq<T>, x: T)
    ensures
        0 <= insert_pos(s, x) <= s.len(),
        forall|k: int| 0 <= k < insert_pos(s, x) ==> lex_le(#[trigger] s[k].key(), x.key()),
        insert_pos(s, x) < s.len() ==> !lex_le(s[insert_pos(s, x)].key(), x.key()),
    decreases s.len(),
{
    if s.len() > 0 && lex_le(s[0].key(), x.key()) {
        let t = s.subrange(1, s.len() as int);
        lemma_insert_pos_bounds(t, x);
        assert forall|k: int| 0 <= k < insert_pos(s, x) implies lex_le(#[trigger] s[k].key(), x.key()) by {
            if k > 0 {
                assert(s[k] == t[k - 1]);
            }
        }
    }
}

/// The place found by a scan is the one that `insert_pos` names.
pub proof fn lemma_insert_pos_unique<K, T: Keyed<K>>(s: Seq<T>, x: T, p: int)
    requires
        0 <= p <= s.len(),
        forall|k: int| 0 <= k < p ==> lex_le(#[trigger] s[k].key(), x.key()),
        p < s.len() ==> !lex_le(s[p].key(), x.key()),
    ensures
        insert_pos(s, x) == p,
    decreases s.len(),
{
    if p > 0 {
        let t = s.subrange(1, s.len() as int);
        assert(lex_le(s[0].key(), x.key()));
        assert forall|k: int| 0 <= k < p - 1 implies lex_le(#[trigger] t[k].key(), x.key()) by {
            assert(t[k] == s[k + 1]);
        }
        if p - 1 < t.len() {
            assert(t[p - 1] == s[p]);
        }
        lemma_insert_pos_unique(t, x, p - 1);
    }
}

/// Sorting keeps the items: the result is a permutation of the input.
pub proof fn lemma_sort_by_key_permutes<K, T: Keyed<K>>(s: Seq<T>)
    ensures
        sort_by_key(s).to_multiset() == s.to_multiset(),
        sort_by_key(s).len() == s.len(),
    decreases s.len(),
{
    broadcast use vstd::seq_lib::to_multiset_insert, vstd::seq_lib::to_multiset_build;
    if s.len() > 0 {
        let r = sort_by_key(s.drop_last());
        lemma_sort_by_key_permutes(s.drop_last());
        lemma_insert_pos_bounds(r, s.last());
        assert(s.drop_last().push(s.last()) == s);
    }
}

/// Sorting orders the items by key.
pub proof fn lemma_sort_by_key_sorted<K, T: Keyed<K>>(s: Seq<T>)
    ensures
        sorted_by_key(sort_by_key(s)),
    decreases s.len(),
{
    if s.len() > 0 {
        let r = sort_by_key(s.drop_last());
        let x = s.last();
        lemma_sort_by_key_sorted(s.drop_last());
        lemma_insert_pos_bounds(r, x);
        let p = insert_pos(r, x);
        let t = r.insert(p, x);
        if p < r.len() {
            lemma_lex_le_total(r[p].key(), x.key());
        }
        assert forall|i: int, j: int| 0 <= i < j < t.len() implies lex_le(
            #[trigger] t[i].key(),
            #[trigger] t[j].key(),
        ) by {
            if i < p && j < p {
                assert(t[i] == r[i] && t[j] == r[j]);
            } else if i < p && j == p {
                assert(t[i] == r[i]);
            } else if i < p {
                assert(t[i] == r[i] && t[j] == r[j - 1]);
            } else if i == p {
                assert(t[j] == r[j - 1]);
                if j - 1 > p {
                    assert(lex_le(r[p].key(), r[j - 1].key()));
                    lemma_lex_le_trans(x.key(), r[p].key(), r[j - 1].key());
                }
            } else {
                assert(t[i] == r[i - 1] && t[j] == r[j - 1]);
            }
        }
    }
}

/// Inserts `x` into `out` after the leading items whose keys sort no later than its own.
fn insert_by_key_in<K, T: Keyed<K>>(out: &mut Vec<T>, x: T)
    ensures
        final(out)@ == insert_by_key(old(out)@, x),
{
    let n = out.len();
    let mut pos: usize = 0;
    while pos < n
        invariant
            n == out@.len(),
            0 <= pos <= n,
            forall|k: int| 0 <= k < pos ==> lex_le(#[trigger] out@[k].key(), x.key()),
        ensures
            0 <= pos <= n,
            forall|k: int| 0 <= k < pos ==> lex_le(#[trigger] out@[k].key(), x.key()),
            pos < n ==> !lex_le(out@[pos as int].key(), x.key()),
        decreases n - pos,
    {
        if !out[pos].key_le(&x) {
            break;
        }
        pos = pos + 1;
    }
    proof {
        lemma_insert_pos_unique(out@, x, pos as int);
    }
    out.insert(pos, x);
}

/// Sorts `v` in place by key, keeping the input order of equal keys.
pub fn sort_by_key_in<K, T: Keyed<K>>(v: &mut Vec<T>)
    ensures
        final(v)@ == sort_by_key(old(v)@),
{
    let ghost s0 = v@;
    let mut pending: Vec<T> = Vec::new();
    std::mem::swap(&mut pending, v);
    let n = pending.len();
    let mut k: usize = 0;
    assert(s0.subrange(0, 0).len() == 0);
    while pending.len() > 0
        invariant
            n == s0.len(),
            0 <= k <= n,
            pending@ == s0.subrange(k as int, n as int),
            v@ == sort_by_key(s0.subrange(0, k as int)),
        decreases pending@.len(),
    {
        let x = pending.remove(0);
        assert(x == s0[k as int]);
        assert(s0.subrange(0, k + 1).drop_last() == s0.subrange(0, k as int));
        insert_by_key_in(v, x);
        k = k + 1;
        assert(pending@ == s0.subrange(k as int, n as int));
    }
    assert(s0.subrange(0, n as int) == s0);
}

// ------------------------------------------------------------------ sorting a tree

/// `b` is `a` with the files and subfolders of every folder sorted by name.
pub open spec fn children_sorted(a: FolderNode, b: FolderNode) -> bool
    decreases a, 1int,
{
    &&& b.path == a.path
    &&& b.name == a.name
    &&& b.reduced_number_of_file == a.reduced_number_of_file
    &&& b.reduced_size_of_files == a.reduced_size_of_files
    &&& b.reduced_duration_of_files == a.reduced_duration_of_files
    &&& b.files@ == sort_by_key(a.files@)
    &&& exists|mid: Seq<FolderNode>| subs_sorted(a, mid) && b.subfolders@ == #[trigger] sort_by_key(mid)
}

/// `mid` holds, in order, the subfolders of `a` each with its own children sorted.
pub open spec fn subs_sorted(a: FolderNode, mid: Seq<FolderNode>) -> bool
    decreases a, 0int,
{
    &&& mid.len() == a.subfolders@.len()
    &&& forall|i: int|
        0 <= i < a.subfolders@.len() ==> children_sorted(#[trigger] a.subfolders@[i], mid[i])
}

impl FolderNode {
    /// Sorts the subfolders and files of every folder alphabetically by display name,
    /// ignoring ASCII case.
    pub fn sort_children(&mut self)
        ensures
            children_sorted(*old(self), *final(self)),
        decreases *old(self),
    {
        let ghost f0 = *self;
        let n = self.subfolders.len();
        let mut i: usize = 0;
        while i < n
            invariant
                *old(self) == f0,
                n == f0.subfolders@.len(),
                0 <= i <= n,
                self.path == f0.path,
                self.name == f0.name,
                self.files == f0.files,
                self.reduced_number_of_file == f0.reduced_number_of_file,
                self.reduced_size_of_files == f0.reduced_size_of_files,
                self.reduced_duration_of_files == f0.reduced_duration_of_files,
                self.subfolders@.len() == n,
                forall|t: int| 0 <= t < i ==> children_sorted(f0.subfolders@[t], #[trigger] self.subfolders@[t]),
                forall|t: int| i <= t < n ==> #[trigger] self.subfolders@[t] == f0.subfolders@[t],
            decreases n - i,
        {
            proof {
                crate::structs::lemma_child_smaller(f0, i as int);
            }
            self.subfolders[i].sort_children();
            i = i + 1;
        }
        let ghost mid = self.subfolders@;
        sort_by_key_in(&mut self.subfolders);
        sort_by_key_in(&mut self.files);
        assert(subs_sorted(f0, mid));
        assert(self.subfolders@ == sort_by_key(mid));
    }
}


// ------------------------------------------------------------------ what sorting keeps

/// Every folder of the tree has its files and subfolders in name order.
pub open spec fn tree_sorted(f: FolderNode) -> bool
    decreases f,
{
    &&& sorted_by_key(f.files@)
    &&& sorted_by_key(f.subfolders@)
    &&& forall|i: int| 0 <= i < f.subfolders@.len() ==> tree_sorted(#[trigger] f.subfolders@[i])
}

/// Each subfolder after sorting is the sorted form of some subfolder before.
pub proof fn lemma_sorted_sub_origin(a: FolderNode, b: FolderNode, j: int) -> (i: int)
    requires
        children_sorted(a, b),
        0 <= j < b.subfolders@.len(),
    ensures
        0 <= i < a.subfolders@.len(),
        children_sorted(a.subfolders@[i], b.subfolders@[j]),
{
    broadcast use vstd::seq_lib::to_multiset_contains;
    let mid = choose|mid: Seq<FolderNode>| subs_sorted(a, mid) && b.subfolders@ == #[trigger] sort_by_key(mid);
    lemma_sort_by_key_permutes(mid);
    let x = b.subfolders@[j];
    assert(sort_by_key(mid).contains(x));
    assert(sort_by_key(mid).to_multiset().count(x) > 0);
    assert(mid.to_multiset().count(x) > 0);
    assert(mid.contains(x));
    let i = choose|i: int| 0 <= i < mid.len() && mid[i] == x;
    assert(children_sorted(a.subfolders@[i], mid[i]));
    i
}

proof fn lemma_files_stat_prefix(s: Seq<FileNode>, t: Seq<FileNode>, n: int, k: Stat)
    requires
        0 <= n <= s.len(),
        n <= t.len(),
        forall|i: int| 0 <= i < n ==> s[i] == t[i],
    ensures
        files_stat(s, n, k) == files_stat(t, n, k),
    decreases n,
{
    if n > 0 {
        lemma_files_stat_prefix(s, t, n - 1, k);
    }
}

pub proof fn lemma_folders_stat_prefix(s: Seq<FolderNode>, t: Seq<FolderNode>, n: int, k: Stat)
    requires
        0 <= n <= s.len(),
        n <= t.len(),
        forall|i: int| 0 <= i < n ==> s[i] == t[i],
    ensures
        folders_stat(s, n, k) == folders_stat(t, n, k),
    decreases n,
{
    if n > 0 {
        lemma_folders_stat_prefix(s, t, n - 1, k);
    }
}

proof fn lemma_files_stat_insert(s: Seq<FileNode>, p: int, x: FileNode, k: Stat)
    requires
        0 <= p <= s.len(),
    ensures
        files_stat(s.insert(p, x), s.len() as int + 1, k) == files_stat(s, s.len() as int, k) + file_stat(x, k),
    decreases s.len(),
{
    let t = s.insert(p, x);
    let n = s.len() as int;
    if p == n {
        lemma_files_stat_prefix(t, s, n, k);
    } else {
        let d = s.drop_last();
        let u = d.insert(p, x);
        lemma_files_stat_insert(d, p, x, k);
        lemma_files_stat_prefix(t, u, n, k);
        lemma_files_stat_prefix(s, d, n - 1, k);
    }
}

proof fn lemma_folders_stat_insert(s: Seq<FolderNode>, p: int, x: FolderNode, k: Stat)
    requires
        0 <= p <= s.len(),
    ensures
        folders_stat(s.insert(p, x), s.len() as int + 1, k) == folders_stat(s, s.len() as int, k) + tree_stat(x, k),
    decreases s.len(),
{
    let t = s.insert(p, x);
    let n = s.len() as int;
    if p == n {
        lemma_folders_stat_prefix(t, s, n, k);
    } else {
        let d = s.drop_last();
        let u = d.insert(p, x);
        lemma_folders_stat_insert(d, p, x, k);
        lemma_folders_stat_prefix(t, u, n, k);
        lemma_folders_stat_prefix(s, d, n - 1, k);
    }
}

proof fn lemma_files_stat_sort(s: Seq<FileNode>, k: Stat)
    ensures
        files_stat(sort_by_key(s), s.len() as int, k) == files_stat(s, s.len() as int, k),
    decreases s.len(),
{
    if s.len() > 0 {
        let d = s.drop_last();
        let r = sort_by_key(d);
        lemma_files_stat_sort(d, k);
        lemma_sort_by_key_permutes(d);
        lemma_insert_pos_bounds(r, s.last());
        lemma_files_stat_insert(r, insert_pos(r, s.last()), s.last(), k);
        lemma_files_stat_prefix(s, d, s.len() - 1, k);
    }
}

proof fn lemma_folders_stat_sort(s: Seq<FolderNode>, k: Stat)
    ensures
        folders_stat(sort_by_key(s), s.len() as int, k) == folders_stat(s, s.len() as int, k),
    decreases s.len(),
{
    if s.len() > 0 {
        let d = s.drop_last();
        let r = sort_by_key(d);
        lemma_folders_stat_sort(d, k);
        lemma_sort_by_key_permutes(d);
        lemma_insert_pos_bounds(r, s.last());
        lemma_folders_stat_insert(r, insert_pos(r, s.last()), s.last(), k);
        lemma_folders_stat_prefix(s, d, s.len() - 1, k);
    }
}

proof fn lemma_folders_stat_pointwise(s: Seq<FolderNode>, t: Seq<FolderNode>, n: int, k: Stat)
    requires
        0 <= n <= s.len(),
        s.len() == t.len(),
        forall|i: int| 0 <= i < s.len() ==> tree_stat(#[trigger] s[i], k) == tree_stat(t[i], k),
    ensures
        folders_stat(s, n, k) == folders_stat(t, n, k),
    decreases n,
{
    if n > 0 {
        lemma_folders_stat_pointwise(s, t, n - 1, k);
        assert(tree_stat(s[n - 1], k) == tree_stat(t[n - 1], k));
    }
}

/// Sorting a tree changes none of its totals.
pub proof fn law_sort_keeps_totals(a: FolderNode, b: FolderNode, k: Stat)
    requires
        children_sorted(a, b),
    ensures
        tree_stat(b, k) == tree_stat(a, k),
    decreases a,
{
    let mid = choose|mid: Seq<FolderNode>| subs_sorted(a, mid) && b.subfolders@ == #[trigger] sort_by_key(mid);
    lemma_sort_by_key_permutes(a.files@);
    lemma_files_stat_sort(a.files@, k);
    lemma_sort_by_key_permutes(mid);
    lemma_folders_stat_sort(mid, k);
    assert forall|i: int| 0 <= i < a.subfolders@.len() implies tree_stat(#[trigger] a.subfolders@[i], k) == tree_stat(mid[i], k) by {
        crate::structs::lemma_child_smaller(a, i);
        law_sort_keeps_totals(a.subfolders@[i], mid[i], k);
    }
    lemma_folders_stat_pointwise(a.subfolders@, mid, a.subfolders@.len() as int, k);
}

/// After sorting, every folder of the tree lists its files and subfolders in name order.
pub proof fn law_sort_orders_tree(a: FolderNode, b: FolderNode)
    requires
        children_sorted(a, b),
    ensures
        tree_sorted(b),
    decreases a,
{
    let mid = choose|mid: Seq<FolderNode>| subs_sorted(a, mid) && b.subfolders@ == #[trigger] sort_by_key(mid);
    lemma_sort_by_key_sorted(a.files@);
    lemma_sort_by_key_sorted(mid);
    assert forall|j: int| 0 <= j < b.subfolders@.len() implies tree_sorted(#[trigger] b.subfolders@[j]) by {
        let i = lemma_sorted_sub_origin(a, b, j);
        crate::structs::lemma_child_smaller(a, i);
        law_sort_orders_tree(a.subfolders@[i], b.subfolders@[j]);
    }
}

/// Sorting keeps every stored total true.
pub proof fn law_sort_keeps_stats_filled(a: FolderNode, b: FolderNode)
    requires
        children_sorted(a, b),
        stats_filled(a),
    ensures
        stats_filled(b),
    decreases a,
{
    law_sort_keeps_totals(a, b, Stat::Count);
    law_sort_keeps_totals(a, b, Stat::Size);
    law_sort_keeps_totals(a, b, Stat::Duration);
    assert forall|j: int| 0 <= j < b.subfolders@.len() implies stats_filled(#[trigger] b.subfolders@[j]) by {
        let i = lemma_sorted_sub_origin(a, b, j);
        crate::structs::lemma_child_smaller(a, i);
        assert(stats_filled(a.subfolders@[i]));
        law_sort_keeps_stats_filled(a.subfolders@[i], b.subfolders@[j]);
    }
}

/// Sorting brings back no empty subfolder.
pub proof fn law_sort_keeps_no_empty(a: FolderNode, b: FolderNode)
    requires
        children_sorted(a, b),
        no_empty_subfolders(a),
    ensures
        no_empty_subfolders(b),
    decreases a,
{
    assert forall|j: int| 0 <= j < b.subfolders@.len() implies (#[trigger] b.subfolders@[j]).reduced_number_of_file > 0
        && no_empty_subfolders(b.subfolders@[j]) by {
        let i = lemma_sorted_sub_origin(a, b, j);
        crate::structs::lemma_child_smaller(a, i);
        assert(a.subfolders@[i].reduced_number_of_file > 0 && no_empty_subfolders(a.subfolders@[i]));
        law_sort_keeps_no_empty(a.subfolders@[i], b.subfolders@[j]);
    }
}

} // verus!
