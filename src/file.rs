use vstd::prelude::*;
use crate::errors::FsError;
use crate::path::{clone_path, path_view, resolve_path, segments};
use crate::tree::{EntryView, FileSystem, FileSystemEntry, FsView, Nodes, is_file, lookup, replaced, spec_create_file};

verus! {

/// The flags of an `OpenOptions`.
pub struct OptionsView {
    pub read: bool,
    pub write: bool,
    pub append: bool,
    pub truncate: bool,
    pub create: bool,
    pub create_new: bool,
}

/// How a file is to be opened. Only the generic flags have an effect; the
/// platform-specific settings are accepted and ignored.
#[derive(Clone, Copy, Debug)]
pub struct OpenOptions {
    read: bool,
    write: bool,
    append: bool,
    truncate: bool,
    create: bool,
    create_new: bool,
}

impl View for OpenOptions {
    type V = OptionsView;

    closed spec fn view(&self) -> OptionsView {
        OptionsView {
            read: self.read,
            write: self.write,
            append: self.append,
            truncate: self.truncate,
            create: self.create,
            create_new: self.create_new,
        }
    }
}

/// The nodes once the flags' creation and truncation have taken place, or
/// the error that stopped them.
pub open spec fn open_prepared(v: FsView, p: Seq<Seq<char>>, o: OptionsView) -> Result<Nodes, FsError> {
    if o.create_new {
        if lookup(v.nodes, p) is Some {
            Err(FsError::AlreadyExists)
        } else {
            spec_create_file(v, p, true)
        }
    } else {
        let created = if o.create { spec_create_file(v, p, false) } else { Ok(v.nodes) };
        match created {
            Err(e) => Err(e),
            Ok(m) => if o.truncate && is_file(lookup(m, p)) {
                Ok(replaced(m, p, EntryView::File(Seq::empty())))
            } else {
                Ok(m)
            },
        }
    }
}

/// The nodes after opening: those prepared, or the old ones on error.
pub open spec fn open_nodes(v: FsView, p: Seq<Seq<char>>, o: OptionsView) -> Nodes {
    match open_prepared(v, p, o) {
        Ok(m) => m,
        Err(_) => v.nodes,
    }
}

/// The contents that an opened file starts with, or the error.
pub open spec fn spec_open(v: FsView, p: Seq<Seq<char>>, o: OptionsView) -> Result<Seq<u8>, FsError> {
    match open_prepared(v, p, o) {
        Err(e) => Err(e),
        Ok(m) => match lookup(m, p) {
            None => Err(FsError::NotFound),
            Some(EntryView::Directory) => Err(FsError::IsADirectory),
            Some(EntryView::File(b)) => Ok(b),
        },
    }
}

/// The state of an open file.
pub struct FileView {
    pub buffer: Seq<u8>,
    pub cursor: nat,
    pub path: Seq<Seq<char>>,
    pub options: OptionsView,
}

/// An open file: a private copy of the contents, a read position, the
/// options it was opened with and its resolved path. Writes change the copy
/// alone; `flush` writes it back whole.
pub struct File {
    buffer: Vec<u8>,
    open_options: OpenOptions,
    cursor: usize,
    path: Vec<String>,
}

impl View for File {
    type V = FileView;

    closed spec fn view(&self) -> FileView {
        FileView {
            buffer: self.buffer@,
            cursor: self.cursor as nat,
            path: path_view(self.path@),
            options: self.open_options@,
        }
    }
}

impl OpenOptions {
    pub fn new() -> (r: OpenOptions)
        ensures
            r@ == (OptionsView { read: false, write: false, append: false, truncate: false, create: false, create_new: false }),
    {
        OpenOptions { read: false, write: false, append: false, truncate: false, create: false, create_new: false }
    }

    /// Asks for read access.
    pub fn read(self, read: bool) -> (r: OpenOptions)
        ensures
            r@ == (OptionsView { read, ..self@ }),
    {
        let mut s = self;
        s.read = read;
        s
    }

    /// Asks for write access.
    pub fn write(self, write: bool) -> (r: OpenOptions)
        ensures
            r@ == (OptionsView { write, ..self@ }),
    {
        let mut s = self;
        s.write = write;
        s
    }

    /// Asks for appending: reads start at the end. Appending implies writing.
    pub fn append(self, append: bool) -> (r: OpenOptions)
        ensures
            r@ == (OptionsView { append, write: append, ..self@ }),
    {
        let mut s = self;
        s.append = append;
        s.write = append;
        s
    }

    /// Asks for an existing file's contents to be dropped.
    pub fn truncate(self, truncate: bool) -> (r: OpenOptions)
        ensures
            r@ == (OptionsView { truncate, ..self@ }),
    {
        let mut s = self;
        s.truncate = truncate;
        s
    }

    /// Asks for the file to be created where it is missing.
    pub fn create(self, create: bool) -> (r: OpenOptions)
        ensures
            r@ == (OptionsView { create, ..self@ }),
    {
        let mut s = self;
        s.create = create;
        s
    }

    /// Asks for a new file: opening fails where the path exists.
    pub fn create_new(self, create_new: bool) -> (r: OpenOptions)
        ensures
            r@ == (OptionsView { create_new, ..self@ }),
    {
        let mut s = self;
        s.create_new = create_new;
        s
    }

    /// A platform-specific setting: accepted and ignored.
    pub fn mode(self, mode: u32) -> (r: OpenOptions)
        ensures
            r@ == self@,
    {
        self
    }

    /// A platform-specific setting: accepted and ignored.
    pub fn custom_flags(self, custom_flags: i32) -> (r: OpenOptions)
        ensures
            r@ == self@,
    {
        self
    }

    /// A platform-specific setting: accepted and ignored.
    pub fn access_mode(self, access_mode: u32) -> (r: OpenOptions)
        ensures
            r@ == self@,
    {
        self
    }

    /// A platform-specific setting: accepted and ignored.
    pub fn share_mode(self, share_mode: u32) -> (r: OpenOptions)
        ensures
            r@ == self@,
    {
        self
    }

    /// A platform-specific setting: accepted and ignored.
    pub fn attributes(self, attributes: u32) -> (r: OpenOptions)
        ensures
            r@ == self@,
    {
        self
    }

    /// A platform-specific setting: accepted and ignored.
    pub fn security_qos_flags(self, security_qos_flags: u32) -> (r: OpenOptions)
        ensures
            r@ == self@,
    {
        self
    }
}

impl OpenOptions {
    /// Opens the file at `path` in `fs`. With `create_new` an existing path
    /// is refused and a new empty file made; otherwise `create` makes a
    /// missing file and `truncate` empties an existing one. A directory
    /// cannot be opened. The handle starts at the end with `append`, at the
    /// start otherwise.
    pub fn open(&self, fs: &mut FileSystem, path: &str) -> (r: Result<File, FsError>)
        requires
            old(fs).inv(),
        ensures
            final(fs).inv(),
            final(fs)@.nodes == open_nodes(old(fs)@, segments(path@), self@),
            final(fs)@.working_directory == old(fs)@.working_directory,
            final(fs)@.read_only == old(fs)@.read_only,
            match spec_open(old(fs)@, segments(path@), self@) {
                Err(e) => r == Err::<File, FsError>(e),
                Ok(b) => r matches Ok(f) && f.inv() && f@ == (FileView {
                    buffer: b,
                    cursor: if self@.append { b.len() } else { 0 },
                    path: segments(path@),
                    options: self@,
                }),
            },
    {
        let p = resolve_path(path);
        if self.create_new {
            if fs.has(&p) {
                return Err(FsError::AlreadyExists);
            }
            match fs.create_file(&p, true) {
                Err(e) => {
                    return Err(e);
                },
                Ok(()) => {},
            }
        } else {
            if self.create {
                match fs.create_file(&p, false) {
                    Err(e) => {
                        return Err(e);
                    },
                    Ok(()) => {},
                }
            }
            if self.truncate {
                match fs.get(&p) {
                    Ok(FileSystemEntry::File(_)) => {
                        let empty: Vec<u8> = Vec::new();
                        assert(empty@ =~= Seq::<u8>::empty());
                        fs.update(&p, empty);
                    },
                    _ => {},
                }
            }
        }
        match fs.get(&p) {
            Err(e) => Err(e),
            Ok(FileSystemEntry::Directory) => Err(FsError::IsADirectory),
            Ok(FileSystemEntry::File(data)) => {
                let cursor = if self.append { data.len() } else { 0 };
                Ok(File::new(data, *self, cursor, p))
            },
        }
    }
}

impl File {
    /// The read position lies within the contents.
    pub open spec fn inv(&self) -> bool {
        self@.cursor <= self@.buffer.len()
    }

    /// A handle over `buffer`, read from `cursor` on, for the file at `path`.
    pub fn new(buffer: Vec<u8>, open_options: OpenOptions, cursor: usize, path: Vec<String>) -> (r: File)
        ensures
            r@ == (FileView { buffer: buffer@, cursor: cursor as nat, path: path_view(path@), options: open_options@ }),
    {
        File { buffer, open_options, cursor, path }
    }

    /// Opens `path` for creating it or emptying it.
    pub fn create(fs: &mut FileSystem, path: &str) -> (r: Result<File, FsError>)
        requires
            old(fs).inv(),
        ensures
            ({
                let o = OptionsView { read: false, write: false, append: false, truncate: true, create: true, create_new: false };
                &&& final(fs).inv()
                &&& final(fs)@.nodes == open_nodes(old(fs)@, segments(path@), o)
                &&& final(fs)@.working_directory == old(fs)@.working_directory
                &&& final(fs)@.read_only == old(fs)@.read_only
                &&& match spec_open(old(fs)@, segments(path@), o) {
                    Err(e) => r == Err::<File, FsError>(e),
                    Ok(b) => r matches Ok(f) && f.inv() && f@ == (FileView { buffer: b, cursor: 0, path: segments(path@), options: o }),
                }
            }),
    {
        OpenOptions::new().create(true).truncate(true).open(fs, path)
    }

    /// Opens the existing file at `path`.
    pub fn open(fs: &mut FileSystem, path: &str) -> (r: Result<File, FsError>)
        requires
            old(fs).inv(),
        ensures
            ({
                let o = OptionsView { read: false, write: false, append: false, truncate: false, create: false, create_new: false };
                &&& final(fs).inv()
                &&& final(fs)@ == old(fs)@
                &&& match spec_open(old(fs)@, segments(path@), o) {
                    Err(e) => r == Err::<File, FsError>(e),
                    Ok(b) => r matches Ok(f) && f.inv() && f@ == (FileView { buffer: b, cursor: 0, path: segments(path@), options: o }),
                }
            }),
    {
        OpenOptions::new().open(fs, path)
    }

    /// Fresh options, all flags off.
    pub fn options() -> (r: OpenOptions)
        ensures
            r@ == (OptionsView { read: false, write: false, append: false, truncate: false, create: false, create_new: false }),
    {
        OpenOptions::new()
    }

    /// A second handle with the same contents, position, options and path.
    pub fn try_clone(&self) -> (r: Result<File, FsError>)
        ensures
            r matches Ok(f) && f@ == self@,
    {
        Ok(File {
            buffer: self.buffer.clone(),
            open_options: self.open_options,
            cursor: self.cursor,
            path: clone_path(&self.path),
        })
    }

    /// Appends every byte from the read position on to `dst` and moves the
    /// position to the end; returns how many bytes came, `0` at the end.
    pub fn read(&mut self, dst: &mut Vec<u8>) -> (n: usize)
        requires
            old(self).inv(),
        ensures
            final(self).inv(),
            final(self)@ == (FileView { cursor: old(self)@.buffer.len(), ..old(self)@ }),
            n == old(self)@.buffer.len() - old(self)@.cursor,
            final(dst)@ == old(dst)@ + old(self)@.buffer.subrange(old(self)@.cursor as int, old(self)@.buffer.len() as int),
    {
        let start = self.cursor;
        let mut i = self.cursor;
        while i < self.buffer.len()
            invariant
                start <= i <= self.buffer.len(),
                self@ == old(self)@,
                start == old(self)@.cursor,
                dst@ == old(dst)@ + self.buffer@.subrange(start as int, i as int),
            decreases self.buffer.len() - i,
        {
            dst.push(self.buffer[i]);
            assert(dst@ =~= old(dst)@ + self.buffer@.subrange(start as int, i + 1));
            i = i + 1;
        }
        self.cursor = self.buffer.len();
        self.buffer.len() - start
    }

    /// Reads everything that is left: with one private buffer, one read
    /// yields it all.
    pub fn read_to_end(&mut self, dst: &mut Vec<u8>) -> (n: usize)
        requires
            old(self).inv(),
        ensures
            final(self).inv(),
            final(self)@ == (FileView { cursor: old(self)@.buffer.len(), ..old(self)@ }),
            n == old(self)@.buffer.len() - old(self)@.cursor,
            final(dst)@ == old(dst)@ + old(self)@.buffer.subrange(old(self)@.cursor as int, old(self)@.buffer.len() as int),
    {
        self.read(dst)
    }

    /// The length of the handle's contents.
    pub fn len(&self) -> (r: usize)
        ensures
            r == self@.buffer.len(),
    {
        self.buffer.len()
    }

    /// Appends `buf` to the contents, whatever the position and the
    /// options; nothing reaches the file system before `flush`.
    pub fn write(&mut self, buf: &[u8]) -> (n: usize)
        requires
            old(self).inv(),
            old(self)@.buffer.len() + buf@.len() <= usize::MAX,
        ensures
            final(self).inv(),
            final(self)@ == (FileView { buffer: old(self)@.buffer + buf@, ..old(self)@ }),
            n == buf@.len(),
    {
        let mut i: usize = 0;
        while i < buf.len()
            invariant
                i <= buf@.len(),
                self.cursor == old(self).cursor,
                self.open_options == old(self).open_options,
                self.path == old(self).path,
                self.buffer@ == old(self)@.buffer + buf@.subrange(0, i as int),
            decreases buf.len() - i,
        {
            self.buffer.push(buf[i]);
            assert(self.buffer@ =~= old(self)@.buffer + buf@.subrange(0, i + 1));
            i = i + 1;
        }
        assert(buf@.subrange(0, buf@.len() as int) =~= buf@);
        buf.len()
    }

    /// Writes all of `buf`.
    pub fn write_all(&mut self, buf: &[u8])
        requires
            old(self).inv(),
            old(self)@.buffer.len() + buf@.len() <= usize::MAX,
        ensures
            final(self).inv(),
            final(self)@ == (FileView { buffer: old(self)@.buffer + buf@, ..old(self)@ }),
    {
        self.write(buf);
    }

    /// Writes the contents back whole to the file at the handle's path. The
    /// read-only flag does not stop this. Where that path no longer names a
    /// file, nothing is written and the error says why.
    pub fn flush(&self, fs: &mut FileSystem) -> (r: Result<(), FsError>)
        requires
            old(fs).inv(),
        ensures
            final(fs).inv(),
            match lookup(old(fs)@.nodes, self@.path) {
                Some(EntryView::File(_)) => r is Ok && final(fs)@ == (FsView {
                    nodes: replaced(old(fs)@.nodes, self@.path, EntryView::File(self@.buffer)),
                    ..old(fs)@
                }),
                Some(EntryView::Directory) => r == Err::<(), FsError>(FsError::IsADirectory) && final(fs)@ == old(fs)@,
                None => r == Err::<(), FsError>(FsError::NotFound) && final(fs)@ == old(fs)@,
            },
    {
        match fs.get(&self.path) {
            Err(e) => Err(e),
            Ok(FileSystemEntry::Directory) => Err(FsError::IsADirectory),
            Ok(FileSystemEntry::File(_)) => {
                fs.update(&self.path, self.buffer.clone());
                Ok(())
            },
        }
    }

    /// Flushes; the handle is done with after this.
    pub fn shutdown(&self, fs: &mut FileSystem) -> (r: Result<(), FsError>)
        requires
            old(fs).inv(),
        ensures
            final(fs).inv(),
            match lookup(old(fs)@.nodes, self@.path) {
                Some(EntryView::File(_)) => r is Ok && final(fs)@ == (FsView {
                    nodes: replaced(old(fs)@.nodes, self@.path, EntryView::File(self@.buffer)),
                    ..old(fs)@
                }),
                Some(EntryView::Directory) => r == Err::<(), FsError>(FsError::IsADirectory) && final(fs)@ == old(fs)@,
                None => r == Err::<(), FsError>(FsError::NotFound) && final(fs)@ == old(fs)@,
            },
    {
        self.flush(fs)
    }
}

} // verus!
