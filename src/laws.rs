use vstd::prelude::*;
use crate::errors::FsError;
use crate::file::open_nodes;
use crate::ops::{lemma_write_open, spec_read, spec_write, write_options};
use crate::tree::{
    EntryView, FsView, Nodes, created_dirs, dirs_from, is_file, lookup, spec_create_dir, spec_remove_dir, walk,
    well_formed, below, lemma_ancestor_is_dir, lemma_dirs_from_bounds, lemma_file_has_no_children,
    lemma_outside_well_formed, lemma_push_well_formed, lemma_replace_well_formed, lemma_walk_dirs,
};

verus! {

proof fn lemma_dirs_reach_limit(m: Nodes, p: Seq<Seq<char>>, i: int, limit: int)
    requires
        0 <= i <= limit,
        forall|j: int| i <= j < limit ==> lookup(m, #[trigger] p.take(j + 1)) == Some(EntryView::Directory),
    ensures
        dirs_from(m, p, i, limit) == limit,
    decreases limit - i,
{
    if i < limit {
        lemma_dirs_reach_limit(m, p, i + 1, limit);
    }
}

/// Appending the missing directories of a path one at a time keeps the nodes
/// well formed and makes each of them a directory.
proof fn lemma_chain(m: Nodes, p: Seq<Seq<char>>, k: int, j: int)
    requires
        well_formed(m),
        0 <= k < p.len() - 1,
        k <= j <= p.len(),
        forall|t: int| k < t <= p.len() ==> lookup(m, #[trigger] p.take(t)) is None,
        k > 0 ==> lookup(m, p.take(k)) == Some(EntryView::Directory),
    ensures
        well_formed(m + created_dirs(p, k).take(j - k)),
        forall|t: int| 1 <= t <= k ==> #[trigger] lookup(m + created_dirs(p, k).take(j - k), p.take(t)) == lookup(m, p.take(t)),
        forall|t: int| k < t <= j ==> #[trigger] lookup(m + created_dirs(p, k).take(j - k), p.take(t)) == Some(EntryView::Directory),
        forall|t: int| j < t <= p.len() ==> #[trigger] lookup(m + created_dirs(p, k).take(j - k), p.take(t)) is None,
    decreases j - k,
{
    if j == k {
        assert(m + created_dirs(p, k).take(0) =~= m);
    } else {
        lemma_chain(m, p, k, j - 1);
        let prev = m + created_dirs(p, k).take(j - 1 - k);
        let x = (p.take(j), EntryView::Directory);
        assert(prev + seq![x] =~= m + created_dirs(p, k).take(j - k));
        assert(prev.push(x) == prev + seq![x]);
        assert(p.take(j).drop_last() =~= p.take(j - 1));
        lemma_push_well_formed(prev, x);
        assert forall|t: int| 1 <= t <= p.len() && t != j implies p.take(t) != p.take(j) by {
            assert(p.take(t).len() != p.take(j).len());
        }
    }
}

/// Creating directories recursively twice: the second call succeeds and
/// changes nothing.
pub proof fn lemma_create_dir_all_idempotent(v: FsView, p: Seq<Seq<char>>)
    requires
        well_formed(v.nodes),
        spec_create_dir(v, p, true) is Ok,
    ensures
        spec_create_dir(FsView { nodes: spec_create_dir(v, p, true)->Ok_0, ..v }, p, true)
            == Ok::<Nodes, FsError>(spec_create_dir(v, p, true)->Ok_0),
{
    let m = v.nodes;
    let n = p.len() as int;
    let m1 = spec_create_dir(v, p, true)->Ok_0;
    if n > 0 {
        let k = walk(m, p, n - 1);
        lemma_dirs_from_bounds(m, p, 0, n - 1);
        assert(p.take(n) =~= p);
        if k < n - 1 {
            assert forall|j: int| 0 <= j < k implies lookup(m, #[trigger] p.take(j + 1)) == Some(EntryView::Directory) by {
                assert(dirs_from(m, p, 0, n - 1) == k);
                lemma_walk_prefix(m, p, 0, k, n - 1, j);
            }
            assert forall|t: int| k < t <= n implies lookup(m, #[trigger] p.take(t)) is None by {
                if t > k + 1 && lookup(m, p.take(t)) is Some {
                    lemma_ancestor_is_dir(m, p.take(t), k + 1);
                    assert(p.take(t).take(k + 1) =~= p.take(k + 1));
                }
            }
            if k > 0 {
                assert(p.take((k - 1) + 1) == p.take(k));
            }
            lemma_chain(m, p, k, n);
            assert(created_dirs(p, k).take(n - k) =~= created_dirs(p, k));
            assert forall|j: int| 0 <= j < n - 1 implies lookup(m1, #[trigger] p.take(j + 1)) == Some(EntryView::Directory) by {
                if j + 1 <= k {
                    assert(lookup(m1, p.take(j + 1)) == lookup(m, p.take(j + 1)));
                }
            }
            lemma_dirs_reach_limit(m1, p, 0, n - 1);
        } else {
            lemma_walk_dirs(m, p, 0, n - 1);
            if lookup(m, p) is None {
                if n > 1 {
                    assert(p.take((n - 2) + 1) =~= p.drop_last());
                }
                lemma_push_well_formed(m, (p, EntryView::Directory));
                assert forall|j: int| 0 <= j < n - 1 implies lookup(m1, #[trigger] p.take(j + 1)) == Some(EntryView::Directory) by {
                    assert(p.take(j + 1).len() != p.len());
                }
            }
            lemma_dirs_reach_limit(m1, p, 0, n - 1);
        }
    }
}

proof fn lemma_walk_prefix(m: Nodes, p: Seq<Seq<char>>, i: int, k: int, limit: int, j: int)
    requires
        0 <= i <= j < k <= limit,
        dirs_from(m, p, i, limit) == k,
    ensures
        lookup(m, p.take(j + 1)) == Some(EntryView::Directory),
    decreases j - i,
{
    if lookup(m, p.take(i + 1)) == Some(EntryView::Directory) {
        if i < j {
            lemma_walk_prefix(m, p, i + 1, k, limit, j);
        }
    }
}

/// Writing `c` to a path and then reading that path gives `c`.
pub proof fn lemma_write_then_read(v: FsView, p: Seq<Seq<char>>, c: Seq<u8>)
    requires
        well_formed(v.nodes),
        spec_write(v, p, c) is Ok,
    ensures
        spec_read(spec_write(v, p, c)->Ok_0, p) == Ok::<Seq<u8>, FsError>(c),
{
    lemma_write_open(v, p);
    let m = open_nodes(v, p, write_options());
    let b = crate::file::spec_open(v, p, write_options())->Ok_0;
    lemma_file_has_no_children(m, p);
    lemma_replace_well_formed(m, p, EntryView::File(b + c));
    assert(b + c =~= c);
}

/// Removing an existing directory with its contents leaves nothing at its
/// path.
pub proof fn lemma_remove_dir_all_removes(v: FsView, p: Seq<Seq<char>>)
    requires
        well_formed(v.nodes),
        !v.read_only,
        lookup(v.nodes, p) == Some(EntryView::Directory),
    ensures
        spec_remove_dir(v, p, true) is Ok,
        lookup(spec_remove_dir(v, p, true)->Ok_0, p) is None,
{
    let m = v.nodes;
    let n = p.len() as int;
    let i = choose|i: int| 0 <= i < m.len() && m[i].0 == p;
    assert(m[i].0.len() >= 1);
    assert forall|j: int| 0 <= j < n - 1 implies lookup(m, #[trigger] p.take(j + 1)) == Some(EntryView::Directory) by {
        lemma_ancestor_is_dir(m, p, j + 1);
    }
    lemma_dirs_reach_limit(m, p, 0, n - 1);
    lemma_outside_well_formed(m, p, false);
    assert(below(p, p)) by {
        assert(p.take(p.len() as int) =~= p);
    }
}

/// Removing a directory with its contents where nothing has that path, and
/// no file stands on the way (the empty path included), fails `NotFound`.
pub proof fn lemma_remove_dir_all_missing(v: FsView, p: Seq<Seq<char>>)
    requires
        well_formed(v.nodes),
        !v.read_only,
        lookup(v.nodes, p) is None,
        forall|t: int| 1 <= t < p.len() ==> !is_file(lookup(v.nodes, #[trigger] p.take(t))),
    ensures
        spec_remove_dir(v, p, true) == Err::<Nodes, FsError>(FsError::NotFound),
{
    let m = v.nodes;
    let n = p.len() as int;
    if n > 0 {
        lemma_dirs_from_bounds(m, p, 0, n - 1);
        let k = walk(m, p, n - 1);
        if k < n - 1 {
            lemma_dirs_stop(m, p, 0, n - 1);
            assert(!is_file(lookup(m, p.take(k + 1))));
        }
    }
}

proof fn lemma_dirs_stop(m: Nodes, p: Seq<Seq<char>>, i: int, limit: int)
    requires
        0 <= i <= limit,
        dirs_from(m, p, i, limit) < limit,
    ensures
        lookup(m, p.take(dirs_from(m, p, i, limit) + 1)) != Some(EntryView::Directory),
    decreases limit - i,
{
    if i < limit && lookup(m, p.take(i + 1)) == Some(EntryView::Directory) {
        lemma_dirs_stop(m, p, i + 1, limit);
    }
}

} // verus!
