use vstd::prelude::*;
use crate::errors::FsError;
use crate::path::{path_view, segments, joined, resolve_path, join_path};

verus! {

/// What a path resolves to.
#[derive(Debug)]
pub enum FileSystemEntry {
    Directory,
    File(Vec<u8>),
}

/// The value of an entry: a directory, or a file with its bytes.
pub enum EntryView {
    Directory,
    File(Seq<u8>),
}

impl View for FileSystemEntry {
    type V = EntryView;

    open spec fn view(&self) -> EntryView {
        match self {
            FileSystemEntry::Directory => EntryView::Directory,
            FileSystemEntry::File(b) => EntryView::File(b@),
        }
    }
}

/// The entries of a file system, each with its full path, in the order in
/// which they were created.
pub type Nodes = Seq<(Seq<Seq<char>>, EntryView)>;

/// The abstract state of a file system.
pub struct FsView {
    pub nodes: Nodes,
    pub working_directory: Seq<Seq<char>>,
    pub read_only: bool,
}

/// The entry at path `p`, if there is one.
pub open spec fn lookup(m: Nodes, p: Seq<Seq<char>>) -> Option<EntryView> {
    if exists|i: int| 0 <= i < m.len() && m[i].0 == p {
        Some(m[choose|i: int| 0 <= i < m.len() && m[i].0 == p].1)
    } else {
        None
    }
}

pub open spec fn is_file(e: Option<EntryView>) -> bool {
    e matches Some(EntryView::File(_))
}

/// Every entry has a non-empty path, no two entries share a path, and the
/// parent of every nested entry is a directory.
pub open spec fn well_formed(m: Nodes) -> bool {
    &&& forall|i: int| 0 <= i < m.len() ==> (#[trigger] m[i]).0.len() >= 1
    &&& unique_paths(m)
    &&& forall|i: int| 0 <= i < m.len() && (#[trigger] m[i]).0.len() > 1
        ==> lookup(m, m[i].0.drop_last()) == Some(EntryView::Directory)
}

/// No two entries share a path.
pub open spec fn unique_paths(m: Nodes) -> bool {
    forall|i: int, j: int| 0 <= i < m.len() && 0 <= j < m.len() && i != j ==> (#[trigger] m[i]).0 != (#[trigger] m[j]).0
}

/// `q` is `p` or lies below it.
pub open spec fn below(p: Seq<Seq<char>>, q: Seq<Seq<char>>) -> bool {
    p.len() <= q.len() && q.take(p.len() as int) == p
}

/// `q` lies strictly below `p`.
pub open spec fn strictly_below(p: Seq<Seq<char>>, q: Seq<Seq<char>>) -> bool {
    p.len() < q.len() && q.take(p.len() as int) == p
}

/// `q` names a direct child of `p`.
pub open spec fn is_child(p: Seq<Seq<char>>, q: Seq<Seq<char>>) -> bool {
    q.len() == p.len() + 1 && q.take(p.len() as int) == p
}

/// The directory at `p` holds at least one entry.
pub open spec fn has_children(m: Nodes, p: Seq<Seq<char>>) -> bool {
    exists|i: int| 0 <= i < m.len() && is_child(p, #[trigger] m[i].0)
}

/// The nodes that lie outside `p`'s subtree (`p` itself included unless
/// `strict`), in order.
pub open spec fn outside(m: Nodes, p: Seq<Seq<char>>, strict: bool) -> Nodes {
    m.filter(|x: (Seq<Seq<char>>, EntryView)| !(if strict { strictly_below(p, x.0) } else { below(p, x.0) }))
}

/// The nodes after creating a file at `p`, or the error. An existing entry is
/// kept as it is unless `replace`, which makes it an empty file.
pub open spec fn spec_create_file(v: FsView, p: Seq<Seq<char>>, replace: bool) -> Result<Nodes, FsError> {
    let m = v.nodes;
    let n = p.len() as int;
    let k = walk(m, p, n - 1);
    if v.read_only {
        Err(FsError::ReadOnlyFilesystem)
    } else if n == 0 {
        Err(FsError::NotFound)
    } else if k < n - 1 {
        if lookup(m, p.take(k + 1)) is Some {
            Err(FsError::NotADirectory)
        } else {
            Err(FsError::NotFound)
        }
    } else if lookup(m, p) is None {
        Ok(m.push((p, EntryView::File(Seq::empty()))))
    } else if replace {
        Ok(replaced(outside(m, p, true), p, EntryView::File(Seq::empty())))
    } else {
        Ok(m)
    }
}

/// The nodes after removing the directory at `p` (with everything in it), or
/// the error. Without `recursive` only an empty directory is removed.
pub open spec fn spec_remove_dir(v: FsView, p: Seq<Seq<char>>, recursive: bool) -> Result<Nodes, FsError> {
    let m = v.nodes;
    let n = p.len() as int;
    let k = walk(m, p, n - 1);
    if v.read_only {
        Err(FsError::ReadOnlyFilesystem)
    } else if n == 0 {
        Err(FsError::NotFound)
    } else if k < n - 1 {
        if lookup(m, p.take(k + 1)) is Some {
            Err(FsError::NotADirectory)
        } else {
            Err(FsError::NotFound)
        }
    } else {
        match lookup(m, p) {
            None => Err(FsError::NotFound),
            Some(EntryView::File(_)) => Err(FsError::NotADirectory),
            Some(EntryView::Directory) => if !recursive && has_children(m, p) {
                Err(FsError::DirectoryNotEmpty)
            } else {
                Ok(outside(m, p, false))
            },
        }
    }
}

/// The position of the first child of `p` at or after position `from`.
pub open spec fn next_child_from(m: Nodes, p: Seq<Seq<char>>, from: int) -> Option<int>
    decreases m.len() - from,
{
    if from < 0 || from >= m.len() {
        None
    } else if is_child(p, m[from].0) {
        Some(from)
    } else {
        next_child_from(m, p, from + 1)
    }
}

/// The position of the entry that follows the child `last` of the directory
/// at `p` (the first child where `last` is `None`), `None` where no child
/// follows, or the error: a missing directory or cursor entry is `NotFound`,
/// a file on the way is `NotADirectory`.
pub open spec fn spec_next_entry(m: Nodes, p: Seq<Seq<char>>, last: Option<Seq<char>>) -> Result<Option<int>, FsError> {
    let n = p.len() as int;
    let k = walk(m, p, n);
    if k < n {
        if lookup(m, p.take(k + 1)) is Some {
            Err(FsError::NotADirectory)
        } else {
            Err(FsError::NotFound)
        }
    } else {
        match last {
            None => Ok(next_child_from(m, p, 0)),
            Some(name) => if exists|i: int| 0 <= i < m.len() && m[i].0 == p.push(name) {
                Ok(next_child_from(m, p, (choose|i: int| 0 <= i < m.len() && m[i].0 == p.push(name)) + 1))
            } else {
                Err(FsError::NotFound)
            },
        }
    }
}

pub open spec fn option_view(o: Option<String>) -> Option<Seq<char>> {
    match o {
        Some(s) => Some(s@),
        None => None,
    }
}

/// The children of `p`, in creation order.
pub open spec fn children(m: Nodes, p: Seq<Seq<char>>) -> Nodes {
    m.filter(|x: (Seq<Seq<char>>, EntryView)| is_child(p, x.0))
}

/// The vertical continuation markers of an entry whose ancestors (below the
/// root) were, in turn, first children of their parents or not.
pub open spec fn indent(bits: Seq<bool>) -> Seq<char>
    decreases bits.len(),
{
    if bits.len() == 0 {
        Seq::empty()
    } else {
        indent(bits.drop_last()) + if bits.last() { "   "@ } else { "\u{2502}  "@ }
    }
}

/// One line of the rendering: markers, the branch (the terminal one for the
/// first child, which is drawn last), the name and `/` for a directory.
pub open spec fn entry_line(bits: Seq<bool>, first: bool, name: Seq<char>, dir: bool) -> Seq<char> {
    indent(bits) + (if first { "\u{2514}"@ } else { "\u{251c}"@ }) + "\u{2500} "@ + name + (if dir { "/"@ } else { ""@ })
        + "\n"@
}

/// The rendering of the children `idx - 1` down to `0` of `p`, each followed
/// by its own subtree (to at most `fuel` more levels).
pub open spec fn render_children(m: Nodes, p: Seq<Seq<char>>, bits: Seq<bool>, idx: int, fuel: nat) -> Seq<char>
    decreases fuel, idx,
{
    if idx <= 0 {
        Seq::empty()
    } else {
        let cs = children(m, p);
        let c = cs[idx - 1];
        let first = idx == 1;
        let line = entry_line(bits, first, c.0.last(), c.1 is Directory);
        let sub = if c.1 is Directory && fuel > 0 {
            render_children(m, c.0, bits.push(first), children(m, c.0).len() as int, (fuel - 1) as nat)
        } else {
            Seq::empty()
        };
        line + sub + render_children(m, p, bits, idx - 1, fuel)
    }
}

/// The whole tree as text: the root `/`, then the entries, the children of
/// each directory from the newest to the oldest.
pub open spec fn rendered(m: Nodes) -> Seq<char> {
    "\n/\n"@ + render_children(m, Seq::empty(), Seq::empty(), children(m, Seq::empty()).len() as int, m.len())
}

/// How many of the first `limit` proper prefixes of `p`, from index `i` on,
/// resolve to directories in a row.
pub open spec fn dirs_from(m: Nodes, p: Seq<Seq<char>>, i: int, limit: int) -> int
    decreases limit - i,
{
    if i < limit && lookup(m, p.take(i + 1)) == Some(EntryView::Directory) {
        dirs_from(m, p, i + 1, limit)
    } else {
        i
    }
}

pub proof fn lemma_dirs_from_bounds(m: Nodes, p: Seq<Seq<char>>, i: int, limit: int)
    requires
        i <= limit,
    ensures
        i <= dirs_from(m, p, i, limit) <= limit,
    decreases limit - i,
{
    if i < limit && lookup(m, p.take(i + 1)) == Some(EntryView::Directory) {
        lemma_dirs_from_bounds(m, p, i + 1, limit);
    }
}

/// The number of leading components of `p` (at most `limit`) that name
/// directories.
pub open spec fn walk(m: Nodes, p: Seq<Seq<char>>, limit: int) -> int {
    dirs_from(m, p, 0, limit)
}

/// The directories `p[..k+1]`, `p[..k+2]`, ..., `p` in that order.
pub open spec fn created_dirs(p: Seq<Seq<char>>, k: int) -> Nodes {
    Seq::new((p.len() - k) as nat, |j: int| (p.take(k + j + 1), EntryView::Directory))
}

/// The nodes after creating a directory at `p`, or the error.
pub open spec fn spec_create_dir(v: FsView, p: Seq<Seq<char>>, recursive: bool) -> Result<Nodes, FsError> {
    let m = v.nodes;
    let n = p.len() as int;
    let k = walk(m, p, n - 1);
    if v.read_only {
        Err(FsError::ReadOnlyFilesystem)
    } else if n == 0 {
        Ok(m)
    } else if k < n - 1 {
        if lookup(m, p.take(k + 1)) is Some {
            Err(FsError::NotADirectory)
        } else if recursive {
            Ok(m + created_dirs(p, k))
        } else {
            Err(FsError::NotFound)
        }
    } else if recursive && lookup(m, p) == Some(EntryView::Directory) {
        Ok(m)
    } else if lookup(m, p) is Some {
        Err(FsError::AlreadyExists)
    } else {
        Ok(m.push((p, EntryView::Directory)))
    }
}

/// The nodes with the entry at `p` replaced by `e`.
pub open spec fn replaced(m: Nodes, p: Seq<Seq<char>>, e: EntryView) -> Nodes {
    Seq::new(m.len(), |j: int| if m[j].0 == p { (p, e) } else { m[j] })
}

#[verifier::external_type_specification]
#[verifier::external_body]
#[verifier::reject_recursive_types(K)]
#[verifier::reject_recursive_types(V)]
#[verifier::reject_recursive_types(S)]
pub struct ExIndexMap<K, V, S>(indexmap::IndexMap<K, V, S>);

/// The entries held by a map from paths to entries, in the map's order.
pub uninterp spec fn entries_of(m: indexmap::IndexMap<Vec<String>, FileSystemEntry>) -> Nodes;

/// Relies on `IndexMap::new`: a new map is empty.
#[verifier::external_body]
fn entries_new() -> (r: indexmap::IndexMap<Vec<String>, FileSystemEntry>)
    ensures
        entries_of(r) == Seq::<(Seq<Seq<char>>, EntryView)>::empty(),
{
    indexmap::IndexMap::new()
}

/// Relies on `IndexMap::len`: the number of entries.
#[verifier::external_body]
fn entries_len(m: &indexmap::IndexMap<Vec<String>, FileSystemEntry>) -> (r: usize)
    ensures
        r == entries_of(*m).len(),
{
    m.len()
}

/// Relies on `IndexMap::get_index_of`: the position of the entry whose key
/// equals `key` (names compared by their characters), if there is one.
#[verifier::external_body]
fn entries_index_of(m: &indexmap::IndexMap<Vec<String>, FileSystemEntry>, key: &Vec<String>) -> (r: Option<usize>)
    ensures
        match r {
            Some(i) => i < entries_of(*m).len() && entries_of(*m)[i as int].0 == path_view(key@),
            None => forall|i: int| 0 <= i < entries_of(*m).len() ==> entries_of(*m)[i].0 != path_view(key@),
        },
{
    m.get_index_of(key)
}

/// Relies on `IndexMap::get_index`: the key and value at position `i`, for
/// a position within the map.
#[verifier::external_body]
fn entries_get_index(m: &indexmap::IndexMap<Vec<String>, FileSystemEntry>, i: usize) -> (r: Option<(&Vec<String>, &FileSystemEntry)>)
    ensures
        i < entries_of(*m).len() <==> r is Some,
        r matches Some(kv) ==> path_view(kv.0@) == entries_of(*m)[i as int].0 && kv.1@ == entries_of(*m)[i as int].1,
{
    m.get_index(i)
}

/// Relies on `IndexMap::insert`: an existing key keeps its place and takes
/// the new value; a new key goes last.
#[verifier::external_body]
fn entries_insert(m: &mut indexmap::IndexMap<Vec<String>, FileSystemEntry>, key: Vec<String>, value: FileSystemEntry)
    ensures
        forall|i: int| 0 <= i < entries_of(*old(m)).len() && entries_of(*old(m))[i].0 == path_view(key@)
            ==> entries_of(*final(m)) == entries_of(*old(m)).update(i, (path_view(key@), value@)),
        (forall|i: int| 0 <= i < entries_of(*old(m)).len() ==> entries_of(*old(m))[i].0 != path_view(key@))
            ==> entries_of(*final(m)) == entries_of(*old(m)).push((path_view(key@), value@)),
{
    m.insert(key, value);
}

/// Relies on `IndexMap::retain`: the entries whose key the closure keeps
/// stay, in their order; the closure drops `p`'s subtree.
#[verifier::external_body]
fn entries_retain_outside(m: &mut indexmap::IndexMap<Vec<String>, FileSystemEntry>, p: &Vec<String>, strict: bool)
    ensures
        entries_of(*final(m)) == outside(entries_of(*old(m)), path_view(p@), strict),
{
    m.retain(|k, _| stays_outside(k, p, strict));
}

/// A virtual in-memory file system: entries in creation order, a working
/// directory and a read-only flag.
pub struct FileSystem {
    nodes: indexmap::IndexMap<Vec<String>, FileSystemEntry>,
    working_directory: Vec<String>,
    read_only: bool,
}

impl View for FileSystem {
    type V = FsView;

    closed spec fn view(&self) -> FsView {
        FsView {
            nodes: entries_of(self.nodes),
            working_directory: path_view(self.working_directory@),
            read_only: self.read_only,
        }
    }
}

pub proof fn lemma_lookup_at(m: Nodes, i: int)
    requires
        unique_paths(m),
        0 <= i < m.len(),
    ensures
        lookup(m, m[i].0) == Some(m[i].1),
{
    let p = m[i].0;
    assert(exists|j: int| 0 <= j < m.len() && m[j].0 == p);
    let j = choose|j: int| 0 <= j < m.len() && m[j].0 == p;
    assert(m[j].0 == m[i].0);
}

/// An entry's proper prefixes all name directories.
pub proof fn lemma_ancestor_is_dir(m: Nodes, p: Seq<Seq<char>>, len: int)
    requires
        well_formed(m),
        lookup(m, p) is Some,
        1 <= len < p.len(),
    ensures
        lookup(m, p.take(len)) == Some(EntryView::Directory),
    decreases p.len() - len,
{
    let i = choose|i: int| 0 <= i < m.len() && m[i].0 == p;
    assert(m[i].0.len() > 1);
    let q = p.drop_last();
    assert(lookup(m, q) == Some(EntryView::Directory));
    if len < p.len() - 1 {
        lemma_ancestor_is_dir(m, q, len);
        assert(q.take(len) =~= p.take(len));
    } else {
        assert(q =~= p.take(len));
    }
}

/// Adding an entry whose path is new and whose parent is a directory keeps
/// the nodes well formed, and changes the lookup at that path alone.
pub proof fn lemma_push_well_formed(m: Nodes, x: (Seq<Seq<char>>, EntryView))
    requires
        well_formed(m),
        x.0.len() >= 1,
        lookup(m, x.0) is None,
        x.0.len() > 1 ==> lookup(m, x.0.drop_last()) == Some(EntryView::Directory),
    ensures
        well_formed(m.push(x)),
        forall|q: Seq<Seq<char>>| #[trigger] lookup(m.push(x), q) == if q == x.0 { Some(x.1) } else { lookup(m, q) },
{
    let m2 = m.push(x);
    assert forall|q: Seq<Seq<char>>| #[trigger] lookup(m2, q) == if q == x.0 { Some(x.1) } else { lookup(m, q) } by {
        if q == x.0 {
            assert(m2[m.len() as int].0 == q);
            let j = choose|j: int| 0 <= j < m2.len() && m2[j].0 == q;
            if j < m.len() {
                assert(m[j].0 == q);
            }
        } else {
            if exists|i: int| 0 <= i < m.len() && m[i].0 == q {
                let i = choose|i: int| 0 <= i < m.len() && m[i].0 == q;
                assert(m2[i].0 == q);
                let j = choose|j: int| 0 <= j < m2.len() && m2[j].0 == q;
                assert(j < m.len());
                assert(m[j].0 == q);
                lemma_lookup_at(m, i);
                lemma_lookup_at(m, j);
            } else {
                if exists|j: int| 0 <= j < m2.len() && m2[j].0 == q {
                    let j = choose|j: int| 0 <= j < m2.len() && m2[j].0 == q;
                    assert(m[j].0 == q);
                }
            }
        }
    }
    assert forall|i: int| 0 <= i < m2.len() && (#[trigger] m2[i]).0.len() > 1
        implies lookup(m2, m2[i].0.drop_last()) == Some(EntryView::Directory) by {
        if i < m.len() {
            assert(m2[i] == m[i]);
            let q = m[i].0.drop_last();
            assert(lookup(m, q) is Some);
            if q == x.0 {
                let j = choose|j: int| 0 <= j < m.len() && m[j].0 == q;
                assert(false);
            }
        }
    }
    assert forall|i: int, j: int| 0 <= i < m2.len() && 0 <= j < m2.len() && i != j
        implies (#[trigger] m2[i]).0 != (#[trigger] m2[j]).0 by {
        if i == m.len() as int {
            assert(m2[j] == m[j]);
        } else if j == m.len() as int {
            assert(m2[i] == m[i]);
        } else {
            assert(m2[i] == m[i] && m2[j] == m[j]);
        }
    }
}

proof fn lemma_filter_from(m: Nodes, keep: spec_fn((Seq<Seq<char>>, EntryView)) -> bool)
    ensures
        forall|j: int| 0 <= j < m.filter(keep).len() ==>
            exists|i: int| 0 <= i < m.len() && #[trigger] m.filter(keep)[j] == m[i] && keep(m[i]),
        unique_paths(m) ==> unique_paths(m.filter(keep)),
    decreases m.len(),
{
    reveal(Seq::filter);
    if m.len() > 0 {
        let m1 = m.drop_last();
        lemma_filter_from(m1, keep);
        let f1 = m1.filter(keep);
        let f = m.filter(keep);
        assert forall|j: int| 0 <= j < f.len() implies
            exists|i: int| 0 <= i < m.len() && #[trigger] f[j] == m[i] && keep(m[i]) by {
            if j < f1.len() {
                let i = choose|i: int| 0 <= i < m1.len() && f1[j] == m1[i] && keep(m1[i]);
                assert(f[j] == m[i]);
            } else {
                assert(f[j] == m[m.len() - 1]);
            }
        }
        if unique_paths(m) {
            assert(unique_paths(m1)) by {
                assert forall|i: int, j: int| 0 <= i < m1.len() && 0 <= j < m1.len() && i != j
                    implies (#[trigger] m1[i]).0 != (#[trigger] m1[j]).0 by {
                    assert(m1[i] == m[i] && m1[j] == m[j]);
                }
            }
            assert forall|a: int, b: int| 0 <= a < f.len() && 0 <= b < f.len() && a != b
                implies (#[trigger] f[a]).0 != (#[trigger] f[b]).0 by {
                if a < f1.len() && b < f1.len() {
                    assert(f[a] == f1[a] && f[b] == f1[b]);
                } else if a < f1.len() {
                    let i = choose|i: int| 0 <= i < m1.len() && f1[a] == m1[i] && keep(m1[i]);
                    assert(f[a] == m[i]);
                    assert(f[b] == m[m.len() - 1]);
                } else {
                    let i = choose|i: int| 0 <= i < m1.len() && f1[b] == m1[i] && keep(m1[i]);
                    assert(f[b] == m[i]);
                    assert(f[a] == m[m.len() - 1]);
                }
            }
        }
    }
}

/// Keeping the nodes outside a subtree keeps the nodes well formed and
/// removes exactly the subtree from the lookup.
pub proof fn lemma_outside_well_formed(m: Nodes, p: Seq<Seq<char>>, strict: bool)
    requires
        well_formed(m),
    ensures
        well_formed(outside(m, p, strict)),
        forall|q: Seq<Seq<char>>| #[trigger] lookup(outside(m, p, strict), q)
            == if (if strict { strictly_below(p, q) } else { below(p, q) }) { None } else { lookup(m, q) },
{
    let keep = |x: (Seq<Seq<char>>, EntryView)| !(if strict { strictly_below(p, x.0) } else { below(p, x.0) });
    let f = outside(m, p, strict);
    assert(f == m.filter(keep));
    lemma_filter_from(m, keep);
    broadcast use Seq::lemma_filter_contains;
    assert forall|q: Seq<Seq<char>>| #[trigger] lookup(f, q)
        == if !keep((q, EntryView::Directory)) { None } else { lookup(m, q) } by {
        if exists|j: int| 0 <= j < f.len() && f[j].0 == q {
            let j = choose|j: int| 0 <= j < f.len() && f[j].0 == q;
            let i = choose|i: int| 0 <= i < m.len() && f[j] == m[i] && keep(m[i]);
            lemma_lookup_at(f, j);
            lemma_lookup_at(m, i);
        } else if keep((q, EntryView::Directory)) && exists|i: int| 0 <= i < m.len() && m[i].0 == q {
            let i = choose|i: int| 0 <= i < m.len() && m[i].0 == q;
            assert(keep(m[i]));
            assert(f.contains(m[i]));
            assert(false);
        }
    }
    assert forall|j: int| 0 <= j < f.len() && (#[trigger] f[j]).0.len() > 1
        implies lookup(f, f[j].0.drop_last()) == Some(EntryView::Directory) by {
        let i = choose|i: int| 0 <= i < m.len() && f[j] == m[i] && keep(m[i]);
        let q = m[i].0;
        let par = q.drop_last();
        if !keep((par, EntryView::Directory)) {
            assert(q.take(p.len() as int) =~= par.take(p.len() as int));
            assert(!keep(m[i]));
        }
    }
    assert forall|j: int| 0 <= j < f.len() implies (#[trigger] f[j]).0.len() >= 1 by {
        let i = choose|i: int| 0 <= i < m.len() && f[j] == m[i] && keep(m[i]);
    }
}

/// Replacing the entry at an existing path by a file, where nothing lies
/// below it, keeps the nodes well formed.
pub proof fn lemma_replace_well_formed(m: Nodes, p: Seq<Seq<char>>, e: EntryView)
    requires
        well_formed(m),
        lookup(m, p) is Some,
        e is Directory || !has_children(m, p),
    ensures
        well_formed(replaced(m, p, e)),
        forall|q: Seq<Seq<char>>| #[trigger] lookup(replaced(m, p, e), q) == if q == p { Some(e) } else { lookup(m, q) },
{
    let r = replaced(m, p, e);
    assert forall|j: int| 0 <= j < m.len() implies (#[trigger] r[j]).0 == m[j].0 by {}
    assert(unique_paths(r)) by {
        assert forall|i: int, j: int| 0 <= i < r.len() && 0 <= j < r.len() && i != j
            implies (#[trigger] r[i]).0 != (#[trigger] r[j]).0 by {
            assert(r[i].0 == m[i].0 && r[j].0 == m[j].0);
        }
    }
    assert forall|q: Seq<Seq<char>>| #[trigger] lookup(r, q) == if q == p { Some(e) } else { lookup(m, q) } by {
        if exists|j: int| 0 <= j < m.len() && m[j].0 == q {
            let j = choose|j: int| 0 <= j < m.len() && m[j].0 == q;
            assert(r[j].0 == q);
            lemma_lookup_at(r, j);
            lemma_lookup_at(m, j);
        } else {
            if exists|j: int| 0 <= j < r.len() && r[j].0 == q {
                let j = choose|j: int| 0 <= j < r.len() && r[j].0 == q;
                assert(m[j].0 == q);
            }
            if q == p {
                let j = choose|j: int| 0 <= j < m.len() && m[j].0 == q;
            }
        }
    }
    assert forall|i: int| 0 <= i < r.len() && (#[trigger] r[i]).0.len() > 1
        implies lookup(r, r[i].0.drop_last()) == Some(EntryView::Directory) by {
        assert(r[i].0 == m[i].0);
        let par = m[i].0.drop_last();
        if par == p && e is File {
            assert(is_child(p, m[i].0)) by {
                assert(m[i].0.take(p.len() as int) =~= par);
            }
            assert(has_children(m, p));
        }
    }
    assert forall|i: int| 0 <= i < r.len() implies (#[trigger] r[i]).0.len() >= 1 by {
        assert(r[i].0 == m[i].0);
    }
}

/// Where every checked prefix is a directory, each one of them is.
pub proof fn lemma_walk_dirs(m: Nodes, p: Seq<Seq<char>>, i: int, limit: int)
    requires
        0 <= i <= limit,
        dirs_from(m, p, i, limit) == limit,
    ensures
        forall|j: int| i <= j < limit ==> lookup(m, #[trigger] p.take(j + 1)) == Some(EntryView::Directory),
    decreases limit - i,
{
    if i < limit {
        if lookup(m, p.take(i + 1)) == Some(EntryView::Directory) {
            lemma_walk_dirs(m, p, i + 1, limit);
        }
    }
}

/// A file holds no entries.
pub proof fn lemma_file_has_no_children(m: Nodes, p: Seq<Seq<char>>)
    requires
        well_formed(m),
        is_file(lookup(m, p)),
    ensures
        !has_children(m, p),
{
    if has_children(m, p) {
        let i = choose|i: int| 0 <= i < m.len() && is_child(p, #[trigger] m[i].0);
        assert(m[i].0.drop_last() =~= p);
    }
}

/// Creating a file keeps the nodes well formed and leaves an entry at `p`:
/// a new empty file where there was none.
pub proof fn lemma_create_file_result(v: FsView, p: Seq<Seq<char>>, replace: bool)
    requires
        well_formed(v.nodes),
        spec_create_file(v, p, replace) is Ok,
    ensures
        ({
            let m1 = spec_create_file(v, p, replace)->Ok_0;
            &&& well_formed(m1)
            &&& lookup(m1, p) is Some
            &&& lookup(v.nodes, p) is None ==> lookup(m1, p) == Some(EntryView::File(Seq::empty()))
            &&& lookup(v.nodes, p) is Some && !replace ==> m1 == v.nodes
        }),
{
    let m = v.nodes;
    let n = p.len() as int;
    lemma_dirs_from_bounds(m, p, 0, n - 1);
    if lookup(m, p) is None {
        lemma_walk_dirs(m, p, 0, n - 1);
        if n > 1 {
            assert(p.take((n - 2) + 1) =~= p.drop_last());
        }
        lemma_push_well_formed(m, (p, EntryView::File(Seq::empty())));
    } else if replace {
        lemma_outside_well_formed(m, p, true);
        let f = outside(m, p, true);
        assert(!strictly_below(p, p));
        if has_children(f, p) {
            let i = choose|i: int| 0 <= i < f.len() && is_child(p, #[trigger] f[i].0);
            assert(f[i].0.len() >= 1);
            assert(lookup(f, f[i].0) is Some) by { lemma_lookup_at(f, i); }
        }
        lemma_replace_well_formed(f, p, EntryView::File(Seq::empty()));
    }
}

fn starts_with(a: &Vec<String>, p: &Vec<String>, strict: bool) -> (r: bool)
    ensures
        r == (if strict { strictly_below(path_view(p@), path_view(a@)) } else { below(path_view(p@), path_view(a@)) }),
{
    if a.len() < p.len() || (strict && a.len() == p.len()) {
        return false;
    }
    let mut i: usize = 0;
    while i < p.len()
        invariant
            a.len() >= p.len(),
            i <= p.len(),
            forall|k: int| 0 <= k < i ==> a@[k]@ == p@[k]@,
        decreases p.len() - i,
    {
        if a[i] != p[i] {
            assert(path_view(a@).take(p.len() as int)[i as int] != path_view(p@)[i as int]);
            return false;
        }
        i = i + 1;
    }
    assert(path_view(a@).take(p.len() as int) =~= path_view(p@));
    true
}

/// Whether the path `a` lies outside `p`'s subtree (`p` itself counting as
/// inside unless `strict`).
fn stays_outside(a: &Vec<String>, p: &Vec<String>, strict: bool) -> (r: bool)
    ensures
        r == !(if strict { strictly_below(path_view(p@), path_view(a@)) } else { below(path_view(p@), path_view(a@)) }),
{
    !starts_with(a, p, strict)
}

fn prefix_of(p: &Vec<String>, len: usize) -> (r: Vec<String>)
    requires
        len <= p.len(),
    ensures
        path_view(r@) == path_view(p@).take(len as int),
{
    let mut r: Vec<String> = Vec::new();
    let mut i: usize = 0;
    while i < len
        invariant
            len <= p.len(),
            i <= len,
            r.len() == i,
            path_view(r@) == path_view(p@).take(i as int),
        decreases len - i,
    {
        let s = p[i].clone();
        proof {
            assert(s == p@[i as int]);
            assert(path_view(r@.push(s)).len() == i + 1);
            assert forall|k: int| 0 <= k < i + 1 implies path_view(r@.push(s))[k] == path_view(p@).take(i + 1)[k] by {
                if k < i {
                    assert(path_view(r@)[k] == path_view(p@).take(i as int)[k]);
                }
            }
            assert(path_view(r@.push(s)) =~= path_view(p@).take(i + 1));
        }
        r.push(s);
        i = i + 1;
    }
    r
}

impl FileSystem {
    fn push_node(&mut self, path: Vec<String>, entry: FileSystemEntry)
        requires
            old(self).inv(),
            path.len() >= 1,
            lookup(old(self)@.nodes, path_view(path@)) is None,
            path.len() > 1 ==> lookup(old(self)@.nodes, path_view(path@).drop_last()) == Some(EntryView::Directory),
        ensures
            final(self).inv(),
            final(self)@.nodes == old(self)@.nodes.push((path_view(path@), entry@)),
            final(self)@.working_directory == old(self)@.working_directory,
            final(self)@.read_only == old(self)@.read_only,
            forall|q: Seq<Seq<char>>| #[trigger] lookup(final(self)@.nodes, q)
                == if q == path_view(path@) { Some(entry@) } else { lookup(old(self)@.nodes, q) },
    {
        let ghost x = (path_view(path@), entry@);
        proof {
            lemma_push_well_formed(self@.nodes, x);
            assert forall|i: int| 0 <= i < self@.nodes.len() implies self@.nodes[i].0 != x.0 by {
                if self@.nodes[i].0 == x.0 {
                    lemma_lookup_at(self@.nodes, i);
                }
            }
        }
        entries_insert(&mut self.nodes, path, entry);
    }

    /// The entries are well formed.
    pub open spec fn inv(&self) -> bool {
        well_formed(self@.nodes)
    }

    /// An empty, writable file system whose working directory is the root.
    pub fn new() -> (r: FileSystem)
        ensures
            r.inv(),
            r@.nodes.len() == 0,
            r@.working_directory.len() == 0,
            !r@.read_only,
    {
        FileSystem { nodes: entries_new(), working_directory: Vec::new(), read_only: false }
    }

    /// The position of the entry whose path is the first `len` names of `p`.
    fn find(&self, p: &Vec<String>, len: usize) -> (r: Option<usize>)
        requires
            len <= p.len(),
        ensures
            match r {
                Some(i) => i < self@.nodes.len() && self@.nodes[i as int].0 == path_view(p@).take(len as int),
                None => forall|i: int| 0 <= i < self@.nodes.len() ==> self@.nodes[i].0 != path_view(p@).take(len as int),
            },
    {
        let key = prefix_of(p, len);
        entries_index_of(&self.nodes, &key)
    }

    /// The number of entries.
    fn node_count(&self) -> (r: usize)
        ensures
            r == self@.nodes.len(),
    {
        entries_len(&self.nodes)
    }

    /// The path and the entry at position `i`.
    fn node_at(&self, i: usize) -> (r: (&Vec<String>, &FileSystemEntry))
        requires
            i < self@.nodes.len(),
        ensures
            path_view(r.0@) == self@.nodes[i as int].0,
            r.1@ == self@.nodes[i as int].1,
    {
        match entries_get_index(&self.nodes, i) {
            Some(kv) => kv,
            None => {
                // `i` lies within the map, so this arm is never taken.
                assert(false);
                (&self.working_directory, &FileSystemEntry::Directory)
            },
        }
    }

    /// Whether `p` resolves to an entry of any kind.
    pub fn has(&self, p: &Vec<String>) -> (r: bool)
        requires
            self.inv(),
        ensures
            r == (lookup(self@.nodes, path_view(p@)) is Some),
    {
        assert(path_view(p@).take(p.len() as int) =~= path_view(p@));
        match self.find(p, p.len()) {
            Some(i) => {
                proof { lemma_lookup_at(self@.nodes, i as int); }
                true
            },
            None => false,
        }
    }

    /// The entry at `p`; `NotFound` where no entry has that path (including
    /// the empty path, and a path that passes through a file).
    pub fn get(&self, p: &Vec<String>) -> (r: Result<FileSystemEntry, FsError>)
        requires
            self.inv(),
        ensures
            match lookup(self@.nodes, path_view(p@)) {
                Some(e) => r matches Ok(x) && x@ == e,
                None => r == Err::<FileSystemEntry, FsError>(FsError::NotFound),
            },
    {
        assert(path_view(p@).take(p.len() as int) =~= path_view(p@));
        match self.find(p, p.len()) {
            Some(i) => {
                proof { lemma_lookup_at(self@.nodes, i as int); }
                let e = match self.node_at(i).1 {
                    FileSystemEntry::Directory => FileSystemEntry::Directory,
                    FileSystemEntry::File(b) => FileSystemEntry::File(b.clone()),
                };
                Ok(e)
            },
            None => Err(FsError::NotFound),
        }
    }
}

/// An entry met while listing a directory: its path.
pub struct DirEntry {
    path: Vec<String>,
}

impl View for DirEntry {
    type V = Seq<Seq<char>>;

    closed spec fn view(&self) -> Seq<Seq<char>> {
        path_view(self.path@)
    }
}

impl DirEntry {
    pub fn new(path: Vec<String>) -> (r: DirEntry)
        ensures
            r@ == path_view(path@),
    {
        DirEntry { path }
    }

    /// The entry's path, its names joined by `/`.
    pub fn path(&self) -> (r: String)
        ensures
            r@ == joined(self@),
    {
        join_path(&self.path)
    }

    /// The last name of the entry's path.
    pub fn file_name(&self) -> (r: String)
        ensures
            self@.len() == 0 ==> r@.len() == 0,
            self@.len() > 0 ==> r@ == self@.last(),
    {
        if self.path.len() == 0 {
            String::new()
        } else {
            self.path[self.path.len() - 1].clone()
        }
    }
}

impl FileSystem {
    /// Whether the file system refuses creation and removal.
    pub fn is_read_only(&self) -> (r: bool)
        ensures
            r == self@.read_only,
    {
        self.read_only
    }

    /// Sets whether creation and removal are refused. Writing back the
    /// buffer of a file that is already open is not affected.
    pub fn set_read_only(&mut self, read_only: bool)
        requires
            old(self).inv(),
        ensures
            final(self).inv(),
            final(self)@ == (FsView { read_only, ..old(self)@ }),
    {
        self.read_only = read_only;
    }

    /// Stores the components of `path` as the working directory; the
    /// directory is not checked or created.
    pub fn set_working_directory(&mut self, path: &str)
        requires
            old(self).inv(),
        ensures
            final(self).inv(),
            final(self)@ == (FsView { working_directory: segments(path@), ..old(self)@ }),
    {
        self.working_directory = resolve_path(path);
    }

    /// The working directory, its names joined by `/`.
    pub fn working_directory(&self) -> (r: String)
        ensures
            r@ == joined(self@.working_directory),
    {
        join_path(&self.working_directory)
    }

    /// Steps a listing of the directory at `p`: `last_entry` names the child
    /// returned last, if any. The directory is looked up afresh on each
    /// call, and children come in the order in which they were created.
    pub fn next_entry(&self, p: &Vec<String>, last_entry: &mut Option<String>) -> (r: Result<Option<DirEntry>, FsError>)
        requires
            self.inv(),
        ensures
            match spec_next_entry(self@.nodes, path_view(p@), option_view(*old(last_entry))) {
                Err(e) => r == Err::<Option<DirEntry>, FsError>(e) && *final(last_entry) == *old(last_entry),
                Ok(None) => r matches Ok(None) && *final(last_entry) == *old(last_entry),
                Ok(Some(i)) => r matches Ok(Some(d)) && d@ == self@.nodes[i].0
                    && option_view(*final(last_entry)) == Some(self@.nodes[i].0.last()),
            },
    {
        let ghost m = self@.nodes;
        let ghost pv = path_view(p@);
        let n = p.len();
        match self.check_parents(p, n) {
            Err(e) => {
                return Err(e);
            },
            Ok(()) => {},
        }
        assert(walk(m, pv, n as int) == n);
        let mut i: usize = 0;
        match &*last_entry {
            None => {},
            Some(name) => {
                let mut child = prefix_of(p, n);
                let ghost before = child@;
                let name2 = name.clone();
                child.push(name2);
                assert(child@ == before.push(name2));
                assert(name2@ == name@);
                assert(path_view(before) == pv.take(n as int));
                assert(pv.take(n as int) =~= pv);
                assert forall|k: int| 0 <= k < n + 1 implies path_view(child@)[k] == pv.push(name@)[k] by {
                    if k < n {
                        assert(child@[k] == before[k]);
                        assert(path_view(before)[k] == pv[k]);
                    }
                }
                assert(path_view(child@) =~= pv.push(name@));
                assert(path_view(child@).take(child.len() as int) =~= path_view(child@));
                match self.find(&child, child.len()) {
                    None => {
                        return Err(FsError::NotFound);
                    },
                    Some(idx) => {
                        proof {
                            assert(m[idx as int].0 == pv.push(name@));
                            let c = choose|c: int| 0 <= c < m.len() && m[c].0 == pv.push(name@);
                            assert(unique_paths(m));
                            assert(c == idx);
                        }
                        let count = self.node_count();
                        assert(idx < count);
                        i = idx + 1;
                    },
                }
            },
        }
        while i < self.node_count()
            invariant
                i <= self@.nodes.len(),
                m == self@.nodes,
                pv == path_view(p@),
                n == p.len(),
                spec_next_entry(m, pv, option_view(*old(last_entry))) == Ok::<Option<int>, FsError>(next_child_from(m, pv, i as int)),
                *last_entry == *old(last_entry),
            decreases self@.nodes.len() - i,
        {
            let path = self.node_at(i).0;
            if path.len() > n && path.len() - 1 == n && starts_with(path, p, true) {
                assert(is_child(pv, m[i as int].0));
                assert(next_child_from(m, pv, i as int) == Some(i as int));
                let name = path[n].clone();
                assert(m[i as int].0.last() == name@);
                let entry_path = prefix_of(path, path.len());
                assert(path_view(path@).take(path.len() as int) =~= m[i as int].0);
                *last_entry = Some(name);
                return Ok(Some(DirEntry { path: entry_path }));
            }
            assert(!is_child(pv, m[i as int].0));
            i = i + 1;
        }
        assert(next_child_from(m, pv, i as int) == None::<int>);
        Ok(None)
    }
}

fn indent_of(bits: &Vec<bool>) -> (r: String)
    ensures
        r@ == indent(bits@),
{
    let mut out = String::new();
    let mut i: usize = 0;
    while i < bits.len()
        invariant
            i <= bits.len(),
            out@ == indent(bits@.take(i as int)),
        decreases bits.len() - i,
    {
        assert(bits@.take(i + 1).drop_last() =~= bits@.take(i as int));
        if bits[i] {
            out.append("   ");
        } else {
            out.append("\u{2502}  ");
        }
        i = i + 1;
    }
    assert(bits@.take(bits.len() as int) =~= bits@);
    out
}

fn with_bit(bits: &Vec<bool>, b: bool) -> (r: Vec<bool>)
    ensures
        r@ == bits@.push(b),
{
    let mut r: Vec<bool> = Vec::new();
    let mut i: usize = 0;
    while i < bits.len()
        invariant
            i <= bits.len(),
            r@ == bits@.take(i as int),
        decreases bits.len() - i,
    {
        r.push(bits[i]);
        assert(r@ =~= bits@.take(i + 1));
        i = i + 1;
    }
    r.push(b);
    assert(r@ =~= bits@.push(b));
    r
}

impl FileSystem {
    /// The positions of the children of `p`, in creation order.
    fn child_positions(&self, p: &Vec<String>) -> (r: Vec<usize>)
        ensures
            r.len() == children(self@.nodes, path_view(p@)).len(),
            forall|k: int| 0 <= k < r.len() ==> #[trigger] r@[k] < self@.nodes.len()
                && self@.nodes[r@[k] as int] == children(self@.nodes, path_view(p@))[k],
    {
        let ghost m = self@.nodes;
        let ghost pv = path_view(p@);
        let mut r: Vec<usize> = Vec::new();
        let mut i: usize = 0;
        while i < self.node_count()
            invariant
                i <= self@.nodes.len(),
                m == self@.nodes,
                pv == path_view(p@),
                r.len() == children(m.take(i as int), pv).len(),
                forall|k: int| 0 <= k < r.len() ==> #[trigger] r@[k] < m.len() && m[r@[k] as int] == children(m.take(i as int), pv)[k],
            decreases self@.nodes.len() - i,
        {
            assert(m.take(i + 1).drop_last() =~= m.take(i as int));
            assert(m.take(i + 1).last() == m[i as int]);
            proof { reveal(Seq::filter); }
            let ghost old_r = r@;
            let ghost f0 = children(m.take(i as int), pv);
            let ghost f1 = children(m.take(i + 1), pv);
            let path = self.node_at(i).0;
            if path.len() > p.len() && path.len() - 1 == p.len() && starts_with(path, p, true) {
                assert(is_child(pv, m[i as int].0));
                assert(f1 == f0.push(m[i as int]));
                r.push(i);
                assert forall|k: int| 0 <= k < r.len() implies #[trigger] r@[k] < m.len() && m[r@[k] as int] == f1[k] by {
                    if k < old_r.len() {
                        assert(r@[k] == old_r[k]);
                        assert(f1[k] == f0[k]);
                    }
                }
            } else {
                assert(!is_child(pv, m[i as int].0));
                assert(f1 == f0);
            }
            i = i + 1;
        }
        assert(m.take(m.len() as int) =~= m);
        assert(children(m.take(i as int), pv) == children(m, pv));
        r
    }

    #[verifier::rlimit(80)]
    #[verifier::spinoff_prover]
    fn render_level(&self, p: &Vec<String>, bits: &Vec<bool>, fuel: usize) -> (r: String)
        ensures
            r@ == render_children(self@.nodes, path_view(p@), bits@, children(self@.nodes, path_view(p@)).len() as int, fuel as nat),
        decreases fuel,
    {
        let ghost m = self@.nodes;
        let ghost pv = path_view(p@);
        let cs = self.child_positions(p);
        let mut out = String::new();
        let mut idx: usize = cs.len();
        while idx > 0
            invariant
                idx <= cs.len(),
                m == self@.nodes,
                pv == path_view(p@),
                cs.len() == children(m, pv).len(),
                forall|k: int| 0 <= k < cs.len() ==> #[trigger] cs@[k] < m.len() && m[cs@[k] as int] == children(m, pv)[k],
                out@ + render_children(m, pv, bits@, idx as int, fuel as nat)
                    == render_children(m, pv, bits@, cs.len() as int, fuel as nat),
            decreases idx,
        {
            let j = cs[idx - 1];
            let ghost c = children(m, pv)[idx - 1];
            assert(m[j as int] == c);
            let first = idx == 1;
            let (node_path, node_entry) = self.node_at(j);
            let is_dir = match node_entry {
                FileSystemEntry::Directory => true,
                FileSystemEntry::File(_) => false,
            };
            assert(is_dir == (c.1 is Directory));
            let ghost before = out@;
            out.append(indent_of(bits).as_str());
            if first {
                out.append("\u{2514}");
            } else {
                out.append("\u{251c}");
            }
            out.append("\u{2500} ");
            if node_path.len() > 0 {
                out.append(node_path[node_path.len() - 1].as_str());
            }
            proof {
                assert(c.0.len() >= 1) by {
                    assert(children(m, pv)[idx - 1] == c);
                    broadcast use Seq::lemma_filter_pred;
                    assert(is_child(pv, c.0));
                }
            }
            if is_dir {
                out.append("/");
            } else {
                out.append("");
            }
            out.append("\n");
            assert(out@ == before + entry_line(bits@, first, c.0.last(), c.1 is Directory));
            if is_dir && fuel > 0 {
                let sub_bits = with_bit(bits, first);
                let sub = self.render_level(node_path, &sub_bits, fuel - 1);
                out.append(sub.as_str());
            }
            assert(out@ + render_children(m, pv, bits@, idx - 1, fuel as nat)
                =~= before + render_children(m, pv, bits@, idx as int, fuel as nat));
            idx = idx - 1;
        }
        assert(out@ =~= out@ + render_children(m, pv, bits@, 0, fuel as nat));
        out
    }

    /// The whole tree as text, as `rendered` gives it.
    pub fn render(&self) -> (r: String)
        ensures
            r@ == rendered(self@.nodes),
    {
        let root: Vec<String> = Vec::new();
        let bits: Vec<bool> = Vec::new();
        assert(path_view(root@) =~= Seq::<Seq<char>>::empty());
        let mut out = String::new();
        out.append("\n/\n");
        let body = self.render_level(&root, &bits, self.node_count());
        out.append(body.as_str());
        out
    }

    /// Checks that the first `limit` proper prefixes of `p` are directories.
    fn check_parents(&self, p: &Vec<String>, limit: usize) -> (r: Result<(), FsError>)
        requires
            self.inv(),
            limit <= p.len(),
        ensures
            ({
                let m = self@.nodes;
                let pv = path_view(p@);
                let k = walk(m, pv, limit as int);
                &&& 0 <= k <= limit
                &&& (k == limit as int) == (r is Ok)
                &&& r is Ok ==> forall|j: int| 0 <= j < limit ==> lookup(m, #[trigger] pv.take(j + 1)) == Some(EntryView::Directory)
                &&& k < limit ==> r == Err::<(), FsError>(if lookup(m, pv.take(k + 1)) is Some { FsError::NotADirectory } else { FsError::NotFound })
            }),
    {
        let ghost m = self@.nodes;
        let ghost pv = path_view(p@);
        proof { lemma_dirs_from_bounds(m, pv, 0, limit as int); }
        let mut i: usize = 0;
        while i < limit
            invariant
                self.inv(),
                m == self@.nodes,
                pv == path_view(p@),
                limit <= p.len(),
                i <= limit,
                dirs_from(m, pv, i as int, limit as int) == walk(m, pv, limit as int),
                forall|j: int| 0 <= j < i ==> lookup(m, #[trigger] pv.take(j + 1)) == Some(EntryView::Directory),
            decreases limit - i,
        {
            match self.find(p, i + 1) {
                Some(idx) => {
                    proof { lemma_lookup_at(m, idx as int); }
                    match self.node_at(idx).1 {
                        FileSystemEntry::Directory => {
                            i = i + 1;
                        },
                        FileSystemEntry::File(_) => {
                            assert(dirs_from(m, pv, i as int, limit as int) == i);
                            return Err(FsError::NotADirectory);
                        },
                    }
                },
                None => {
                    assert(dirs_from(m, pv, i as int, limit as int) == i);
                    return Err(FsError::NotFound);
                },
            }
        }
        assert(dirs_from(m, pv, i as int, limit as int) == i);
        Ok(())
    }

    /// Drops every node of the subtree at `p` (`p` itself too unless
    /// `strict`), keeping the order of the others.
    fn retain_outside(&mut self, p: &Vec<String>, strict: bool)
        requires
            old(self).inv(),
        ensures
            final(self).inv(),
            final(self)@.nodes == outside(old(self)@.nodes, path_view(p@), strict),
            final(self)@.working_directory == old(self)@.working_directory,
            final(self)@.read_only == old(self)@.read_only,
    {
        let ghost m = self@.nodes;
        let ghost pv = path_view(p@);
        entries_retain_outside(&mut self.nodes, p, strict);
        proof { lemma_outside_well_formed(m, pv, strict); }
    }

    /// Sets the entry at `p`, which exists, to `entry`.
    fn replace_entry(&mut self, p: &Vec<String>, entry: FileSystemEntry)
        requires
            old(self).inv(),
            lookup(old(self)@.nodes, path_view(p@)) is Some,
            entry is Directory || !has_children(old(self)@.nodes, path_view(p@)),
        ensures
            final(self).inv(),
            final(self)@.nodes == replaced(old(self)@.nodes, path_view(p@), entry@),
            final(self)@.working_directory == old(self)@.working_directory,
            final(self)@.read_only == old(self)@.read_only,
    {
        let ghost m = self@.nodes;
        let ghost pv = path_view(p@);
        assert(pv.take(p.len() as int) =~= pv);
        let idx = match self.find(p, p.len()) {
            Some(idx) => idx,
            None => {
                assert(false);
                0
            },
        };
        proof { lemma_replace_well_formed(m, pv, entry@); }
        let path = prefix_of(p, p.len());
        let ghost e = entry@;
        assert(m[idx as int].0 == path_view(path@));
        entries_insert(&mut self.nodes, path, entry);
        assert(self@.nodes == m.update(idx as int, (pv, e)));
        assert forall|j: int| 0 <= j < m.len() implies self@.nodes[j] == replaced(m, pv, e)[j] by {
            if j != idx {
                assert(m[j].0 != pv) by {
                    assert(unique_paths(m));
                }
            }
        }
        assert(self@.nodes =~= replaced(m, pv, e));
    }

    /// Overwrites the bytes of the file at `p`.
    pub fn update(&mut self, p: &Vec<String>, buffer: Vec<u8>)
        requires
            old(self).inv(),
            is_file(lookup(old(self)@.nodes, path_view(p@))),
        ensures
            final(self).inv(),
            final(self)@.nodes == replaced(old(self)@.nodes, path_view(p@), EntryView::File(buffer@)),
            final(self)@.working_directory == old(self)@.working_directory,
            final(self)@.read_only == old(self)@.read_only,
    {
        self.replace_entry(p, FileSystemEntry::File(buffer));
    }

    /// Creates an empty file at `p`. An existing entry is left as it is,
    /// unless `replace`, which makes it an empty file.
    pub fn create_file(&mut self, p: &Vec<String>, replace: bool) -> (r: Result<(), FsError>)
        requires
            old(self).inv(),
        ensures
            final(self).inv(),
            final(self)@.working_directory == old(self)@.working_directory,
            final(self)@.read_only == old(self)@.read_only,
            match spec_create_file(old(self)@, path_view(p@), replace) {
                Ok(m) => r is Ok && final(self)@.nodes == m,
                Err(e) => r == Err::<(), FsError>(e) && final(self)@ == old(self)@,
            },
    {
        let ghost m = self@.nodes;
        let ghost pv = path_view(p@);
        if self.read_only {
            return Err(FsError::ReadOnlyFilesystem);
        }
        let n = p.len();
        if n == 0 {
            return Err(FsError::NotFound);
        }
        match self.check_parents(p, n - 1) {
            Err(e) => {
                assert(walk(m, pv, n - 1) < n - 1);
                return Err(e);
            },
            Ok(()) => {},
        }
        assert(pv.take(n as int) =~= pv);
        if self.find(p, n).is_none() {
            if n > 1 {
                assert(pv.drop_last() =~= pv.take(n - 1));
                assert(pv.take((n - 2) + 1) == pv.take(n - 1));
            }
            let path = prefix_of(p, n);
            self.push_node(path, FileSystemEntry::File(Vec::new()));
            return Ok(());
        }
        if replace {
            self.retain_outside(p, true);
            proof {
                lemma_outside_well_formed(m, pv, true);
                let f = outside(m, pv, true);
                assert(!strictly_below(pv, pv));
                if has_children(f, pv) {
                    let i = choose|i: int| 0 <= i < f.len() && is_child(pv, #[trigger] f[i].0);
                    assert(f[i].0.len() >= 1);
                    assert(lookup(f, f[i].0) is Some) by { lemma_lookup_at(f, i); }
                }
            }
            self.replace_entry(p, FileSystemEntry::File(Vec::new()));
            return Ok(());
        }
        Ok(())
    }

    /// Removes the directory at `p`. With `recursive`, everything in it goes
    /// too; without, a directory that holds entries is not removed.
    pub fn remove_dir(&mut self, p: &Vec<String>, recursive: bool) -> (r: Result<(), FsError>)
        requires
            old(self).inv(),
        ensures
            final(self).inv(),
            final(self)@.working_directory == old(self)@.working_directory,
            final(self)@.read_only == old(self)@.read_only,
            match spec_remove_dir(old(self)@, path_view(p@), recursive) {
                Ok(m) => r is Ok && final(self)@.nodes == m,
                Err(e) => r == Err::<(), FsError>(e) && final(self)@ == old(self)@,
            },
    {
        let ghost m = self@.nodes;
        let ghost pv = path_view(p@);
        if self.read_only {
            return Err(FsError::ReadOnlyFilesystem);
        }
        let n = p.len();
        if n == 0 {
            return Err(FsError::NotFound);
        }
        match self.check_parents(p, n - 1) {
            Err(e) => {
                assert(walk(m, pv, n - 1) < n - 1);
                return Err(e);
            },
            Ok(()) => {},
        }
        assert(pv.take(n as int) =~= pv);
        let idx = match self.find(p, n) {
            None => {
                return Err(FsError::NotFound);
            },
            Some(idx) => idx,
        };
        proof { lemma_lookup_at(m, idx as int); }
        match self.node_at(idx).1 {
            FileSystemEntry::File(_) => {
                return Err(FsError::NotADirectory);
            },
            FileSystemEntry::Directory => {},
        }
        if !recursive && self.holds_children(p) {
            return Err(FsError::DirectoryNotEmpty);
        }
        self.retain_outside(p, false);
        Ok(())
    }

    /// Appends the directories `p[..k+1]`, ..., `p`, none of which exists.
    #[verifier::rlimit(80)]
    #[verifier::spinoff_prover]
    fn create_chain(&mut self, p: &Vec<String>, k: usize)
        requires
            old(self).inv(),
            k < p.len() - 1,
            forall|t: int| k < t <= p.len() ==> lookup(old(self)@.nodes, #[trigger] path_view(p@).take(t)) is None,
            k > 0 ==> lookup(old(self)@.nodes, path_view(p@).take(k as int)) == Some(EntryView::Directory),
        ensures
            final(self).inv(),
            final(self)@.nodes == old(self)@.nodes + created_dirs(path_view(p@), k as int),
            final(self)@.working_directory == old(self)@.working_directory,
            final(self)@.read_only == old(self)@.read_only,
    {
        let ghost m = self@.nodes;
        let ghost pv = path_view(p@);
        let n = p.len();
        let mut j: usize = k;
        while j < n
            invariant
                self.inv(),
                pv == path_view(p@),
                n == p.len(),
                k <= j <= n,
                k < n - 1,
                self@.working_directory == old(self)@.working_directory,
                self@.read_only == old(self)@.read_only,
                self@.nodes == m + created_dirs(pv, k as int).take(j - k),
                forall|t: int| j < t <= n ==> lookup(self@.nodes, #[trigger] pv.take(t)) is None,
                j > k ==> lookup(self@.nodes, pv.take(j as int)) == Some(EntryView::Directory),
                j == k && k > 0 ==> lookup(self@.nodes, pv.take(k as int)) == Some(EntryView::Directory),
            decreases n - j,
        {
            let ghost before = self@.nodes;
            let path = prefix_of(p, j + 1);
            assert(pv.take(j + 1).drop_last() =~= pv.take(j as int));
            if j == k && k > 0 {
                assert(pv.take((k - 1) + 1) == pv.take(k as int));
            }
            self.push_node(path, FileSystemEntry::Directory);
            assert(m + created_dirs(pv, k as int).take(j + 1 - k) =~= before.push((pv.take(j + 1), EntryView::Directory)));
            assert forall|t: int| j + 1 < t <= n implies lookup(self@.nodes, #[trigger] pv.take(t)) is None by {
                assert(pv.take(t).len() != pv.take(j + 1).len());
            }
            j = j + 1;
        }
        assert(created_dirs(pv, k as int).take(n - k) =~= created_dirs(pv, k as int));
    }

    /// Whether some entry is a direct child of `p`.
    fn holds_children(&self, p: &Vec<String>) -> (r: bool)
        ensures
            r == has_children(self@.nodes, path_view(p@)),
    {
        let mut i: usize = 0;
        while i < self.node_count()
            invariant
                i <= self@.nodes.len(),
                forall|k: int| 0 <= k < i ==> !is_child(path_view(p@), #[trigger] self@.nodes[k].0),
            decreases self@.nodes.len() - i,
        {
            let path = self.node_at(i).0;
            if path.len() > p.len() && path.len() - 1 == p.len() && starts_with(path, p, true) {
                assert(is_child(path_view(p@), self@.nodes[i as int].0));
                return true;
            }
            i = i + 1;
        }
        false
    }

    /// Creates a directory at `p`. With `recursive`, missing intermediate
    /// directories are created too, and an existing directory at `p` is no
    /// error. The empty path succeeds and changes nothing.
    #[verifier::rlimit(40)]
    pub fn create_dir(&mut self, p: &Vec<String>, recursive: bool) -> (r: Result<(), FsError>)
        requires
            old(self).inv(),
        ensures
            final(self).inv(),
            final(self)@.working_directory == old(self)@.working_directory,
            final(self)@.read_only == old(self)@.read_only,
            match spec_create_dir(old(self)@, path_view(p@), recursive) {
                Ok(m) => r is Ok && final(self)@.nodes == m,
                Err(e) => r == Err::<(), FsError>(e) && final(self)@ == old(self)@,
            },
    {
        let ghost m = self@.nodes;
        let ghost pv = path_view(p@);
        if self.read_only {
            return Err(FsError::ReadOnlyFilesystem);
        }
        let n = p.len();
        if n == 0 {
            return Ok(());
        }
        let mut i: usize = 0;
        let mut missing = false;
        while i < n - 1
            invariant_except_break
                !missing,
            invariant
                self@ == old(self)@,
                !self@.read_only,
                self.inv(),
                m == self@.nodes,
                pv == path_view(p@),
                n == p.len(),
                n >= 1,
                i <= n - 1,
                dirs_from(m, pv, i as int, n - 1) == walk(m, pv, n - 1),
                forall|j: int| 0 <= j < i ==> lookup(m, #[trigger] pv.take(j + 1)) == Some(EntryView::Directory),
            ensures
                missing ==> i < n - 1 && lookup(m, pv.take(i + 1)) is None && recursive,
                !missing ==> i == n - 1,
            decreases n - 1 - i,
        {
            match self.find(p, i + 1) {
                Some(idx) => {
                    proof { lemma_lookup_at(m, idx as int); }
                    match self.node_at(idx).1 {
                        FileSystemEntry::Directory => {
                            i = i + 1;
                        },
                        FileSystemEntry::File(_) => {
                            assert(dirs_from(m, pv, i as int, n - 1) == i);
                            return Err(FsError::NotADirectory);
                        },
                    }
                },
                None => {
                    assert(lookup(m, pv.take(i + 1)) is None);
                    assert(dirs_from(m, pv, i as int, n - 1) == i);
                    if !recursive {
                        return Err(FsError::NotFound);
                    }
                    missing = true;
                    break;
                },
            }
        }
        let k = i;
        if !missing {
            assert(dirs_from(m, pv, i as int, n - 1) == i);
            assert(pv.take(n as int) =~= pv);
            if let Some(idx) = self.find(p, n) {
                proof { lemma_lookup_at(m, idx as int); }
                if recursive {
                    match self.node_at(idx).1 {
                        FileSystemEntry::Directory => {
                            return Ok(());
                        },
                        FileSystemEntry::File(_) => {},
                    }
                }
                return Err(FsError::AlreadyExists);
            }
            if n > 1 {
                assert(pv.drop_last() =~= pv.take(n - 1));
                assert(pv.take((n - 2) + 1) == pv.take(n - 1));
            }
            let leaf = prefix_of(p, n);
            self.push_node(leaf, FileSystemEntry::Directory);
            return Ok(());
        }
        assert(dirs_from(m, pv, k as int, n - 1) == k);
        assert(walk(m, pv, n - 1) == k);
        if k > 0 {
            assert(pv.take((k - 1) + 1) == pv.take(k as int));
        }
        assert forall|t: int| k < t <= n implies lookup(m, #[trigger] pv.take(t)) is None by {
            if t > k + 1 && lookup(m, pv.take(t)) is Some {
                lemma_ancestor_is_dir(m, pv.take(t), k + 1);
                assert(pv.take(t).take(k + 1) =~= pv.take(k + 1));
            }
        }
        self.create_chain(p, k);
        Ok(())
    }
}

} // verus!
