//! Properties of browsing that span several calls.

use vstd::prelude::*;
use crate::structs::FolderNode;
use crate::tree_view::{RowSrc, row_path, row_shape, flat_rows, volume_rows, open_rows, subs_rows, contents_rows, paths_view};
use crate::browsing::{
    BrowsingState, chain_to, chain_in, stack_for, shows, selection_marked, selection_in_range,
    same_except_selection, first_row_with_path, row_index_of, lemma_first_row_with_path, stack_index,
};
use crate::tree_view::TreeItem;
use crate::paths::same_path;

verus! {

/// Moving the selection keeps the list consistent, as long as the new selection is a row.
pub proof fn law_reselect_keeps_display(a: BrowsingState, b: BrowsingState, sel: usize)
    requires
        a.displayed(),
        BrowsingState::reselected(a, b, sel),
        selection_in_range(a.visible_view().len(), sel),
    ensures
        b.displayed(),
{
    crate::browsing::lemma_selection_change_keeps(
        a.visible_view(),
        b.visible_view(),
        flat_rows(a.tree, paths_view(a.stack@)),
        a.resume_view(),
        a.tree,
    );
}

/// Moving the selection down and then up again gives back the same rows and selection.
pub proof fn law_up_undoes_down(a: BrowsingState, b: BrowsingState, c: BrowsingState)
    requires
        a.displayed(),
        a.selected < usize::MAX,
        BrowsingState::reselected(a, b, (a.selected + 1) as usize),
        BrowsingState::reselected(b, c, a.selected),
    ensures
        c.tree == a.tree,
        c.stack == a.stack,
        c.selected == a.selected,
        c.visible_view() == a.visible_view(),
        c.resume_view() == a.resume_view(),
{
    let va = a.visible_view();
    let vb = b.visible_view();
    let vc = c.visible_view();
    assert forall|i: int| 0 <= i < va.len() implies #[trigger] vc[i] == va[i] by {
        assert((TreeItem { selected: false, ..va[i] }) == (TreeItem { selected: false, ..vb[i] }));
        assert((TreeItem { selected: false, ..vb[i] }) == (TreeItem { selected: false, ..vc[i] }));
        assert(va[i].selected == (i == a.selected));
        assert(vc[i].selected == (i == a.selected));
    }
    assert(vc =~= va);
}

/// Some row of `rows` stands for the path `t`.
pub open spec fn has_row_path(rows: Seq<RowSrc>, t: Seq<char>) -> bool {
    exists|i: int| 0 <= i < rows.len() && row_path(#[trigger] rows[i]) == t
}

proof fn lemma_has_row_concat(a: Seq<RowSrc>, b: Seq<RowSrc>, t: Seq<char>)
    ensures
        (has_row_path(a, t) || has_row_path(b, t)) ==> has_row_path(a + b, t),
{
    if has_row_path(a, t) {
        let i = choose|i: int| 0 <= i < a.len() && row_path(#[trigger] a[i]) == t;
        assert((a + b)[i] == a[i]);
    } else if has_row_path(b, t) {
        let i = choose|i: int| 0 <= i < b.len() && row_path(#[trigger] b[i]) == t;
        assert((a + b)[a.len() + i] == b[i]);
    }
}

proof fn lemma_subs_rows_prefix(s: Seq<FolderNode>, k: int, n: int, tail: Seq<Seq<char>>, indent: int, t: Seq<char>)
    requires
        0 <= k <= n <= s.len(),
        has_row_path(subs_rows(s, k, tail, indent), t),
    ensures
        has_row_path(subs_rows(s, n, tail, indent), t),
    decreases n,
{
    if k < n {
        lemma_subs_rows_prefix(s, k, n - 1, tail, indent, t);
        let sub = s[n - 1];
        let on_path = tail.len() > 0 && tail[0] == sub.path@;
        let extra = if on_path {
            open_rows(sub, tail.subrange(1, tail.len() as int), indent)
        } else {
            seq![]
        };
        lemma_has_row_concat(subs_rows(s, n - 1, tail, indent), seq![RowSrc::Folder(sub, indent, on_path)], t);
        lemma_has_row_concat(subs_rows(s, n - 1, tail, indent) + seq![RowSrc::Folder(sub, indent, on_path)], extra, t);
    }
}

proof fn lemma_volume_rows_prefix(s: Seq<FolderNode>, k: int, n: int, st: Seq<Seq<char>>, t: Seq<char>)
    requires
        0 <= k <= n <= s.len(),
        has_row_path(volume_rows(s, k, st), t),
    ensures
        has_row_path(volume_rows(s, n, st), t),
    decreases n,
{
    if k < n {
        lemma_volume_rows_prefix(s, k, n - 1, st, t);
        let v = s[n - 1];
        let on_path = st.len() > 0 && st[0] == v.path@;
        let extra = if on_path {
            open_rows(v, st.subrange(1, st.len() as int), 0)
        } else {
            seq![]
        };
        lemma_has_row_concat(volume_rows(s, n - 1, st), seq![RowSrc::Volume(v, on_path)], t);
        lemma_has_row_concat(volume_rows(s, n - 1, st) + seq![RowSrc::Volume(v, on_path)], extra, t);
    }
}

/// Index of the first of the first `n` folders whose chain reaches `t`.
proof fn lemma_chain_in_witness(s: Seq<FolderNode>, n: int, t: Seq<char>) -> (k: int)
    requires
        0 <= n <= s.len(),
        chain_in(s, n, t) is Some,
    ensures
        0 <= k < n,
        chain_in(s, n, t) == chain_to(s[k], t),
        chain_in(s, k, t) is None,
    decreases n,
{
    if chain_in(s, n - 1, t) is Some {
        lemma_chain_in_witness(s, n - 1, t)
    } else {
        n - 1
    }
}

/// Closing a folder that was opened (so that the open path is the one leading to it, and
/// ends at its path as written in the tree) selects the row of that folder.
pub proof fn law_back_selects_closed_folder(a: BrowsingState, b: BrowsingState, t: Seq<char>)
    requires
        stack_for(a.tree, t) == Some(paths_view(a.stack@)),
        paths_view(a.stack@).len() > 0,
        paths_view(a.stack@).last() == t,
        BrowsingState::reopened(a, b, paths_view(a.stack@).drop_last(), t),
    ensures
        b.selected < b.visible_view().len(),
        b.visible_view()[b.selected as int].path@ == t,
{
    let c = paths_view(a.stack@);
    lemma_flat_rows_show_chain(a.tree, t, c.len() - 1, c.len() - 1);
    assert(c.subrange(0, c.len() - 1) =~= c.drop_last());
    lemma_selects_shown_row(b, t);
}

/// Along any part of the chain from the subfolders of `f` to `t`, opened below `f`, the
/// rows show every folder of the chain up to one below the deepest open one.
proof fn lemma_open_rows_show_chain(f: FolderNode, r: Seq<Seq<char>>, t: Seq<char>, indent: int, j: int, m: int)
    requires
        chain_in(f.subfolders@, f.subfolders@.len() as int, t) == Some(r),
        0 <= j < r.len(),
        j <= m <= r.len(),
    ensures
        has_row_path(open_rows(f, r.subrange(0, m), indent), r[j]),
    decreases f, 0int,
{
    let subs = f.subfolders@;
    let k = lemma_chain_in_witness(subs, subs.len() as int, t);
    let sub = subs[k];
    crate::structs::lemma_child_smaller(f, k);
    let tail = r.subrange(0, m);
    if same_path(sub.path@, t) {
        assert(r == seq![sub.path@]);
    } else {
        let rest = chain_in(sub.subfolders@, sub.subfolders@.len() as int, t)->0;
        assert(r == seq![sub.path@] + rest);
    }
    assert(r[0] == sub.path@);
    if m == 0 {
        assert(j == 0);
        assert(tail.len() == 0);
        let rows = contents_rows(f, indent + 1);
        assert(rows[k] == RowSrc::Folder(sub, indent + 1, false));
        assert(row_path(rows[k]) == r[j]);
    } else {
        assert(tail[0] == sub.path@);
        let before = subs_rows(subs, k, tail, indent + 1);
        let here = seq![RowSrc::Folder(sub, indent + 1, true)];
        let below = open_rows(sub, tail.subrange(1, tail.len() as int), indent + 1);
        assert(subs_rows(subs, k + 1, tail, indent + 1) == before + here + below);
        if j == 0 {
            assert(row_path(here[0]) == r[j]);
            lemma_has_row_concat(before, here, r[j]);
            lemma_has_row_concat(before + here, below, r[j]);
        } else {
            assert(!same_path(sub.path@, t));
            let rest = chain_in(sub.subfolders@, sub.subfolders@.len() as int, t)->0;
            lemma_open_rows_show_chain(sub, rest, t, indent + 1, j - 1, m - 1);
            assert(tail.subrange(1, tail.len() as int) =~= rest.subrange(0, m - 1));
            assert(r[j] == rest[j - 1]);
            lemma_has_row_concat(before + here, below, r[j]);
        }
        lemma_subs_rows_prefix(subs, k + 1, subs.len() as int, tail, indent + 1, r[j]);
    }
}

/// Along any part of the open path that leads to `t`, the rows of the library show every
/// folder of that path up to one below the deepest open one.
proof fn lemma_flat_rows_show_chain(library: FolderNode, t: Seq<char>, j: int, m: int)
    requires
        stack_for(library, t) is Some,
        0 <= j < stack_for(library, t)->0.len(),
        j <= m <= stack_for(library, t)->0.len(),
    ensures
        has_row_path(flat_rows(library, stack_for(library, t)->0.subrange(0, m)), stack_for(library, t)->0[j]),
{
    let vols = library.subfolders@;
    let c = stack_for(library, t)->0;
    let k = lemma_chain_in_witness(vols, vols.len() as int, t);
    let v = vols[k];
    let st = c.subrange(0, m);
    if same_path(v.path@, t) {
        assert(c == seq![v.path@]);
    } else {
        let rest = chain_in(v.subfolders@, v.subfolders@.len() as int, t)->0;
        assert(c == seq![v.path@] + rest);
    }
    assert(c[0] == v.path@);
    let on_path = st.len() > 0 && st[0] == v.path@;
    let before = volume_rows(vols, k, st);
    let here = seq![RowSrc::Volume(v, on_path)];
    let below = if on_path {
        open_rows(v, st.subrange(1, st.len() as int), 0)
    } else {
        Seq::<RowSrc>::empty()
    };
    assert(volume_rows(vols, k + 1, st) == before + here + below);
    if j == 0 {
        assert(row_path(here[0]) == c[j]);
        lemma_has_row_concat(before, here, c[j]);
        lemma_has_row_concat(before + here, below, c[j]);
    } else {
        assert(!same_path(v.path@, t));
        let rest = chain_in(v.subfolders@, v.subfolders@.len() as int, t)->0;
        assert(on_path);
        lemma_open_rows_show_chain(v, rest, t, 0, j - 1, m - 1);
        assert(st.subrange(1, st.len() as int) =~= rest.subrange(0, m - 1));
        assert(c[j] == rest[j - 1]);
        lemma_has_row_concat(before + here, below, c[j]);
    }
    lemma_volume_rows_prefix(vols, k + 1, vols.len() as int, st, c[j]);
}

proof fn lemma_selects_shown_row(b: BrowsingState, t: Seq<char>)
    requires
        shows(b.visible_view(), flat_rows(b.tree, paths_view(b.stack@))),
        has_row_path(flat_rows(b.tree, paths_view(b.stack@)), t),
        b.selected as int == row_index_of(b.visible_view(), t),
    ensures
        b.selected < b.visible_view().len(),
        b.visible_view()[b.selected as int].path@ == t,
{
    let rows = flat_rows(b.tree, paths_view(b.stack@));
    let items = b.visible_view();
    let i = choose|i: int| 0 <= i < rows.len() && row_path(#[trigger] rows[i]) == t;
    assert(row_shape(items[i], rows[i]));
    assert(items[i].path@ == t);
    lemma_first_row_with_path(items, t);
    let f = first_row_with_path(items, t);
    assert(f >= 0);
    assert(row_index_of(items, t) == f);
}

/// Opening a folder along the path that leads to it selects the row of that folder, when
/// the path ends at the folder's path as written in the tree.
pub proof fn law_open_selects_opened_folder(a: BrowsingState, b: BrowsingState, t: Seq<char>)
    requires
        stack_for(a.tree, t) is Some,
        stack_for(a.tree, t)->0.len() > 0,
        stack_for(a.tree, t)->0.last() == t,
        BrowsingState::reopened(a, b, stack_for(a.tree, t)->0, t),
    ensures
        b.selected < b.visible_view().len(),
        b.visible_view()[b.selected as int].path@ == t,
{
    let c = stack_for(a.tree, t)->0;
    lemma_flat_rows_show_chain(a.tree, t, c.len() - 1, c.len() as int);
    assert(c.subrange(0, c.len() as int) =~= c);
    lemma_selects_shown_row(b, t);
}

/// Opening a folder that is already open, while the open path is the one leading to the
/// deepest open folder, closes it and keeps its row selected, when the open path holds
/// the folder's path as written.
pub proof fn law_collapse_keeps_folder_selected(a: BrowsingState, b: BrowsingState, t: Seq<char>)
    requires
        a.stack@.len() > 0,
        stack_for(a.tree, a.stack@.last()@) == Some(paths_view(a.stack@)),
        stack_index(paths_view(a.stack@), t, 0) >= 0,
        paths_view(a.stack@)[stack_index(paths_view(a.stack@), t, 0)] == t,
        BrowsingState::reopened(
            a,
            b,
            paths_view(a.stack@).subrange(0, stack_index(paths_view(a.stack@), t, 0)),
            t,
        ),
    ensures
        b.selected < b.visible_view().len(),
        b.visible_view()[b.selected as int].path@ == t,
{
    let st = paths_view(a.stack@);
    let k = stack_index(st, t, 0);
    lemma_stack_index_found(st, t, 0);
    lemma_flat_rows_show_chain(a.tree, a.stack@.last()@, k, k);
    lemma_selects_shown_row(b, t);
}

proof fn lemma_stack_index_found(st: Seq<Seq<char>>, t: Seq<char>, i: int)
    requires
        stack_index(st, t, i) >= 0,
    ensures
        0 <= stack_index(st, t, i) < st.len(),
    decreases st.len() - i,
{
    if !(i < 0 || i >= st.len()) && !same_path(st[i], t) {
        lemma_stack_index_found(st, t, i + 1);
    }
}

} // verus!
