use vstd::prelude::*;
use crate::errors::FsError;
use crate::file::{OpenOptions, OptionsView, open_nodes, spec_open};
use crate::path::{resolve_path, segments};
use crate::tree::{EntryView, FileSystem, FileSystemEntry, FsView, Nodes, is_file, lookup, replaced, spec_create_dir, spec_create_file, spec_remove_dir, well_formed, lemma_create_file_result, lemma_file_has_no_children, lemma_replace_well_formed};

verus! {

/// What reading the entry at `p` gives.
pub open spec fn spec_read(m: Nodes, p: Seq<Seq<char>>) -> Result<Seq<u8>, FsError> {
    match lookup(m, p) {
        None => Err(FsError::NotFound),
        Some(EntryView::Directory) => Err(FsError::IsADirectory),
        Some(EntryView::File(b)) => Ok(b),
    }
}

/// The options that `write` opens with.
pub open spec fn write_options() -> OptionsView {
    OptionsView { read: false, write: true, append: false, truncate: true, create: true, create_new: false }
}

/// The nodes after writing `c` as the whole contents of the file at `p`, or
/// the error.
pub open spec fn spec_write(v: FsView, p: Seq<Seq<char>>, c: Seq<u8>) -> Result<Nodes, FsError> {
    match spec_open(v, p, write_options()) {
        Err(e) => Err(e),
        Ok(b) => Ok(replaced(open_nodes(v, p, write_options()), p, EntryView::File(b + c))),
    }
}

/// Opening for `write` leaves an empty file at `p` in well-formed nodes.
pub proof fn lemma_write_open(v: FsView, p: Seq<Seq<char>>)
    requires
        well_formed(v.nodes),
        spec_open(v, p, write_options()) is Ok,
    ensures
        spec_open(v, p, write_options())->Ok_0 == Seq::<u8>::empty(),
        well_formed(open_nodes(v, p, write_options())),
        lookup(open_nodes(v, p, write_options()), p) == Some(EntryView::File(Seq::empty())),
{
    let o = write_options();
    lemma_create_file_result(v, p, false);
    let m1 = spec_create_file(v, p, false)->Ok_0;
    if is_file(lookup(m1, p)) {
        lemma_file_has_no_children(m1, p);
        lemma_replace_well_formed(m1, p, EntryView::File(Seq::empty()));
    }
}

/// Reads the whole contents of the file at `path`.
pub fn read(fs: &FileSystem, path: &str) -> (r: Result<Vec<u8>, FsError>)
    requires
        fs.inv(),
    ensures
        match spec_read(fs@.nodes, segments(path@)) {
            Ok(b) => r matches Ok(x) && x@ == b,
            Err(e) => r == Err::<Vec<u8>, FsError>(e),
        },
{
    let p = resolve_path(path);
    match fs.get(&p) {
        Err(e) => Err(e),
        Ok(entry) => try_file(entry),
    }
}

/// The bytes of a file entry; `IsADirectory` for a directory.
pub fn try_file(entry: FileSystemEntry) -> (r: Result<Vec<u8>, FsError>)
    ensures
        match entry {
            FileSystemEntry::Directory => r == Err::<Vec<u8>, FsError>(FsError::IsADirectory),
            FileSystemEntry::File(b) => r == Ok::<Vec<u8>, FsError>(b),
        },
{
    match entry {
        FileSystemEntry::Directory => Err(FsError::IsADirectory),
        FileSystemEntry::File(b) => Ok(b),
    }
}

/// Makes `contents` the whole contents of the file at `path`, creating the
/// file where it is missing.
pub fn write(fs: &mut FileSystem, path: &str, contents: &[u8]) -> (r: Result<(), FsError>)
    requires
        old(fs).inv(),
    ensures
        final(fs).inv(),
        final(fs)@.working_directory == old(fs)@.working_directory,
        final(fs)@.read_only == old(fs)@.read_only,
        match spec_write(old(fs)@, segments(path@), contents@) {
            Ok(m) => r is Ok && final(fs)@.nodes == m,
            Err(e) => r == Err::<(), FsError>(e) && final(fs)@.nodes == open_nodes(old(fs)@, segments(path@), write_options()),
        },
{
    let ghost v = fs@;
    let ghost p = segments(path@);
    let options = OpenOptions::new().write(true).create(true).truncate(true);
    let mut file = match options.open(fs, path) {
        Err(e) => {
            return Err(e);
        },
        Ok(f) => f,
    };
    proof { lemma_write_open(v, p); }
    let len = contents.len();
    assert(contents@.len() == len);
    file.write_all(contents);
    match file.flush(fs) {
        Ok(()) => Ok(()),
        Err(e) => {
            assert(false);
            Err(e)
        },
    }
}

/// Copies the contents of the file at `from` to the file at `to`.
pub fn copy(fs: &mut FileSystem, from: &str, to: &str) -> (r: Result<(), FsError>)
    requires
        old(fs).inv(),
    ensures
        final(fs).inv(),
        final(fs)@.working_directory == old(fs)@.working_directory,
        final(fs)@.read_only == old(fs)@.read_only,
        match spec_read(old(fs)@.nodes, segments(from@)) {
            Err(e) => r == Err::<(), FsError>(e) && final(fs)@ == old(fs)@,
            Ok(b) => match spec_write(old(fs)@, segments(to@), b) {
                Ok(m) => r is Ok && final(fs)@.nodes == m,
                Err(e) => r == Err::<(), FsError>(e) && final(fs)@.nodes == open_nodes(old(fs)@, segments(to@), write_options()),
            },
        },
{
    let data = match read(fs, from) {
        Err(e) => {
            return Err(e);
        },
        Ok(d) => d,
    };
    write(fs, to, data.as_slice())
}

/// Creates the directory at `path`; its parent must exist.
pub fn create_dir(fs: &mut FileSystem, path: &str) -> (r: Result<(), FsError>)
    requires
        old(fs).inv(),
    ensures
        final(fs).inv(),
        final(fs)@.working_directory == old(fs)@.working_directory,
        final(fs)@.read_only == old(fs)@.read_only,
        match spec_create_dir(old(fs)@, segments(path@), false) {
            Ok(m) => r is Ok && final(fs)@.nodes == m,
            Err(e) => r == Err::<(), FsError>(e) && final(fs)@ == old(fs)@,
        },
{
    let p = resolve_path(path);
    fs.create_dir(&p, false)
}

/// Creates the directory at `path` and every missing directory above it;
/// an existing directory is no error.
pub fn create_dir_all(fs: &mut FileSystem, path: &str) -> (r: Result<(), FsError>)
    requires
        old(fs).inv(),
    ensures
        final(fs).inv(),
        final(fs)@.working_directory == old(fs)@.working_directory,
        final(fs)@.read_only == old(fs)@.read_only,
        match spec_create_dir(old(fs)@, segments(path@), true) {
            Ok(m) => r is Ok && final(fs)@.nodes == m,
            Err(e) => r == Err::<(), FsError>(e) && final(fs)@ == old(fs)@,
        },
{
    let p = resolve_path(path);
    fs.create_dir(&p, true)
}

/// Removes the empty directory at `path`.
pub fn remove_dir(fs: &mut FileSystem, path: &str) -> (r: Result<(), FsError>)
    requires
        old(fs).inv(),
    ensures
        final(fs).inv(),
        final(fs)@.working_directory == old(fs)@.working_directory,
        final(fs)@.read_only == old(fs)@.read_only,
        match spec_remove_dir(old(fs)@, segments(path@), false) {
            Ok(m) => r is Ok && final(fs)@.nodes == m,
            Err(e) => r == Err::<(), FsError>(e) && final(fs)@ == old(fs)@,
        },
{
    let p = resolve_path(path);
    fs.remove_dir(&p, false)
}

/// Removes the directory at `path` with everything in it.
pub fn remove_dir_all(fs: &mut FileSystem, path: &str) -> (r: Result<(), FsError>)
    requires
        old(fs).inv(),
    ensures
        final(fs).inv(),
        final(fs)@.working_directory == old(fs)@.working_directory,
        final(fs)@.read_only == old(fs)@.read_only,
        match spec_remove_dir(old(fs)@, segments(path@), true) {
            Ok(m) => r is Ok && final(fs)@.nodes == m,
            Err(e) => r == Err::<(), FsError>(e) && final(fs)@ == old(fs)@,
        },
{
    let p = resolve_path(path);
    fs.remove_dir(&p, true)
}

/// Whether `path` names an entry.
pub fn try_exists(fs: &FileSystem, path: &str) -> (r: Result<bool, FsError>)
    requires
        fs.inv(),
    ensures
        r == Ok::<bool, FsError>(lookup(fs@.nodes, segments(path@)) is Some),
{
    let p = resolve_path(path);
    Ok(fs.has(&p))
}

} // verus!
