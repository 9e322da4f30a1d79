use vstd::prelude::*;
use crate::errors::FsError;
use crate::path::{resolve_path, segments};
use crate::tree::{FileSystem, spec_create_dir};

verus! {

/// Creates directories, recursively or not.
#[derive(Clone, Copy, Debug)]
pub struct DirBuilder {
    pub recursive: bool,
}

impl DirBuilder {
    pub fn new() -> (r: DirBuilder)
        ensures
            !r.recursive,
    {
        DirBuilder { recursive: false }
    }

    /// Sets whether missing parents are created too.
    pub fn recursive(self, recursive: bool) -> (r: DirBuilder)
        ensures
            r.recursive == recursive,
    {
        DirBuilder { recursive }
    }

    /// Creates the directory at `path`.
    pub fn create(&self, fs: &mut FileSystem, path: &str) -> (r: Result<(), FsError>)
        requires
            old(fs).inv(),
        ensures
            final(fs).inv(),
            final(fs)@.working_directory == old(fs)@.working_directory,
            final(fs)@.read_only == old(fs)@.read_only,
            match spec_create_dir(old(fs)@, segments(path@), self.recursive) {
                Ok(m) => r is Ok && final(fs)@.nodes == m,
                Err(e) => r == Err::<(), FsError>(e) && final(fs)@ == old(fs)@,
            },
    {
        let p = resolve_path(path);
        fs.create_dir(&p, self.recursive)
    }
}

} // verus!
