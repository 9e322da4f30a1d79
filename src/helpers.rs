use vstd::prelude::*;
use crate::errors::FsError;
use crate::ops::spec_read;
use crate::path::{joined, resolve_path, segments};
use crate::tree::{EntryView, FileSystem, FileSystemEntry, FsView, rendered, replaced};

verus! {

/// The contents with byte `i` replaced by the low byte of `noise[i]`, where
/// there is one.
pub open spec fn corrupted(b: Seq<u8>, noise: Seq<u32>) -> Seq<u8> {
    Seq::new(b.len(), |i: int| if i < noise.len() { (noise[i] % 256) as u8 } else { b[i] })
}

/// The whole file system as an ASCII tree.
pub fn file_system_view(fs: &FileSystem) -> (r: String)
    ensures
        r@ == rendered(fs@.nodes),
{
    fs.render()
}

/// Overwrites the bytes of the file at `path` with bytes drawn from a random
/// source: byte `i` becomes the low byte of `noise[i]`. Bytes past the end of
/// `noise` stay as they are.
pub fn corrupt_file(fs: &mut FileSystem, path: &str, noise: &Vec<u32>) -> (r: Result<(), FsError>)
    requires
        old(fs).inv(),
    ensures
        final(fs).inv(),
        match spec_read(old(fs)@.nodes, segments(path@)) {
            Err(e) => r == Err::<(), FsError>(e) && final(fs)@ == old(fs)@,
            Ok(b) => r is Ok && final(fs)@ == (FsView {
                nodes: replaced(old(fs)@.nodes, segments(path@), EntryView::File(corrupted(b, noise@))),
                ..old(fs)@
            }),
        },
{
    let p = resolve_path(path);
    let mut buffer = match fs.get(&p) {
        Err(e) => {
            return Err(e);
        },
        Ok(FileSystemEntry::Directory) => {
            return Err(FsError::IsADirectory);
        },
        Ok(FileSystemEntry::File(b)) => b,
    };
    let ghost b = buffer@;
    let mut i: usize = 0;
    while i < buffer.len() && i < noise.len()
        invariant
            i <= buffer.len(),
            buffer@.len() == b.len(),
            forall|k: int| 0 <= k < i ==> buffer@[k] == corrupted(b, noise@)[k],
            forall|k: int| i <= k < b.len() ==> buffer@[k] == b[k],
        decreases buffer.len() - i,
    {
        let byte = (noise[i] % 256) as u8;
        buffer.set(i, byte);
        i = i + 1;
    }
    assert(buffer@ =~= corrupted(b, noise@));
    fs.update(&p, buffer);
    Ok(())
}

/// Sets the working directory; the directory is not created.
pub fn set_working_directory(fs: &mut FileSystem, path: &str)
    requires
        old(fs).inv(),
    ensures
        final(fs).inv(),
        final(fs)@ == (FsView { working_directory: segments(path@), ..old(fs)@ }),
{
    fs.set_working_directory(path)
}

/// The working directory, its names joined by `/`.
pub fn working_directory(fs: &FileSystem) -> (r: String)
    ensures
        r@ == joined(fs@.working_directory),
{
    fs.working_directory()
}

/// Sets whether the file system refuses creation and removal.
pub fn set_file_system_read_only(fs: &mut FileSystem, read_only: bool)
    requires
        old(fs).inv(),
    ensures
        final(fs).inv(),
        final(fs)@ == (FsView { read_only, ..old(fs)@ }),
{
    fs.set_read_only(read_only)
}

} // verus!
