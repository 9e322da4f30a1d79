use vstd::prelude::*;
use crate::errors::FsError;
use crate::path::{path_view, resolve_path, segments};
use crate::tree::{DirEntry, FileSystem, option_view, spec_next_entry};

verus! {

/// A listing of one directory in progress: its path and the name of the
/// child returned last.
pub struct ReadDir {
    path: Vec<String>,
    current: Option<String>,
}

pub struct ReadDirView {
    pub path: Seq<Seq<char>>,
    pub current: Option<Seq<char>>,
}

impl View for ReadDir {
    type V = ReadDirView;

    closed spec fn view(&self) -> ReadDirView {
        ReadDirView { path: path_view(self.path@), current: option_view(self.current) }
    }
}

/// Starts a listing of the directory at `path`; the directory is looked up
/// at each step, not here.
pub fn read_dir(path: &str) -> (r: Result<ReadDir, FsError>)
    ensures
        r matches Ok(d) && d@ == (ReadDirView { path: segments(path@), current: None }),
{
    Ok(ReadDir { path: resolve_path(path), current: None })
}

impl ReadDir {
    /// The next entry of the listing, `None` once every child has come.
    pub fn poll_next_entry(&mut self, fs: &FileSystem) -> (r: Result<Option<DirEntry>, FsError>)
        requires
            fs.inv(),
        ensures
            final(self)@.path == old(self)@.path,
            match spec_next_entry(fs@.nodes, old(self)@.path, old(self)@.current) {
                Err(e) => r == Err::<Option<DirEntry>, FsError>(e) && final(self)@ == old(self)@,
                Ok(None) => r matches Ok(None) && final(self)@ == old(self)@,
                Ok(Some(i)) => r matches Ok(Some(d)) && d@ == fs@.nodes[i].0
                    && final(self)@.current == Some(fs@.nodes[i].0.last()),
            },
    {
        fs.next_entry(&self.path, &mut self.current)
    }

    /// The next entry of the listing, `None` once every child has come.
    pub fn next_entry(&mut self, fs: &FileSystem) -> (r: Result<Option<DirEntry>, FsError>)
        requires
            fs.inv(),
        ensures
            final(self)@.path == old(self)@.path,
            match spec_next_entry(fs@.nodes, old(self)@.path, old(self)@.current) {
                Err(e) => r == Err::<Option<DirEntry>, FsError>(e) && final(self)@ == old(self)@,
                Ok(None) => r matches Ok(None) && final(self)@ == old(self)@,
                Ok(Some(i)) => r matches Ok(Some(d)) && d@ == fs@.nodes[i].0
                    && final(self)@.current == Some(fs@.nodes[i].0.last()),
            },
    {
        self.poll_next_entry(fs)
    }
}

} // verus!
