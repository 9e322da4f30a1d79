use vstd::prelude::*;

verus! {

/// The kinds of failure that file system operations report, mirroring the
/// operating system's own error kinds.
#[derive(Clone, Copy, Debug, PartialEq, Eq, Structural)]
pub enum FsError {
    NotFound,
    AlreadyExists,
    IsADirectory,
    NotADirectory,
    ReadOnlyFilesystem,
    DirectoryNotEmpty,
}

pub open spec fn message_of(e: FsError) -> Seq<char> {
    match e {
        FsError::NotFound => "No such file or directory"@,
        FsError::AlreadyExists => "File exists"@,
        FsError::IsADirectory => "Is a directory"@,
        FsError::NotADirectory => "Not a directory"@,
        FsError::ReadOnlyFilesystem => "Read-only file system"@,
        FsError::DirectoryNotEmpty => "Directory not empty"@,
    }
}

impl FsError {
    /// The operating system's message for this kind of error.
    pub fn message(&self) -> (r: &'static str)
        ensures
            r@ == message_of(*self),
    {
        match self {
            FsError::NotFound => "No such file or directory",
            FsError::AlreadyExists => "File exists",
            FsError::IsADirectory => "Is a directory",
            FsError::NotADirectory => "Not a directory",
            FsError::ReadOnlyFilesystem => "Read-only file system",
            FsError::DirectoryNotEmpty => "Directory not empty",
        }
    }
}

pub fn not_found_file_or_directory() -> (r: FsError)
    ensures
        r == FsError::NotFound,
{
    FsError::NotFound
}

pub fn already_exists_file() -> (r: FsError)
    ensures
        r == FsError::AlreadyExists,
{
    FsError::AlreadyExists
}

pub fn is_a_directory() -> (r: FsError)
    ensures
        r == FsError::IsADirectory,
{
    FsError::IsADirectory
}

pub fn not_a_directory() -> (r: FsError)
    ensures
        r == FsError::NotADirectory,
{
    FsError::NotADirectory
}

pub fn read_only_filesystem() -> (r: FsError)
    ensures
        r == FsError::ReadOnlyFilesystem,
{
    FsError::ReadOnlyFilesystem
}

pub fn directory_not_empty() -> (r: FsError)
    ensures
        r == FsError::DirectoryNotEmpty,
{
    FsError::DirectoryNotEmpty
}

} // verus!
