use simfs::dir_builder::DirBuilder;
use simfs::errors::{
    already_exists_file, directory_not_empty, is_a_directory, not_a_directory, not_found_file_or_directory,
    read_only_filesystem, FsError,
};
use simfs::file::{File, OpenOptions};
use simfs::helpers::{
    corrupt_file, file_system_view, set_file_system_read_only, set_working_directory, working_directory,
};
use simfs::ops::{self, create_dir_all, read, remove_dir, remove_dir_all, try_exists};
use simfs::path::resolve_path;
use simfs::read_dir::read_dir;
use simfs::tree::{FileSystem, FileSystemEntry};

fn names(fs: &FileSystem, path: &str) -> Vec<String> {
    let mut out = Vec::new();
    let mut listing = read_dir(path).unwrap();
    while let Some(e) = listing.next_entry(fs).unwrap() {
        out.push(e.file_name());
    }
    out
}

#[test]
fn write_then_read_gives_the_bytes_back() {
    let mut fs = FileSystem::new();
    for bytes in [&b""[..], &b"x"[..], &b"some longer contents\n\x00\xff"[..]] {
        ops::write(&mut fs, "/data.bin", bytes).unwrap();
        assert_eq!(read(&fs, "/data.bin").unwrap(), bytes);
    }
    ops::write(&mut fs, "/data.bin", b"long long long").unwrap();
    ops::write(&mut fs, "/data.bin", b"short").unwrap();
    assert_eq!(read(&fs, "/data.bin").unwrap(), b"short");
}

#[test]
fn create_dir_all_twice_succeeds() {
    let mut fs = FileSystem::new();
    assert!(create_dir_all(&mut fs, "/root/sub/folder").is_ok());
    assert!(create_dir_all(&mut fs, "/root/sub/folder").is_ok());
    assert!(try_exists(&fs, "/root/sub").unwrap());
    assert_eq!(names(&fs, "/root"), vec!["sub".to_string()]);
}

#[test]
fn create_dir_all_over_a_file_fails() {
    let mut fs = FileSystem::new();
    ops::write(&mut fs, "/f", b"1").unwrap();
    assert_eq!(create_dir_all(&mut fs, "/f"), Err(FsError::AlreadyExists));
    assert_eq!(create_dir_all(&mut fs, "/f/g"), Err(FsError::NotADirectory));
}

#[test]
fn remove_dir_all_takes_the_subtree() {
    let mut fs = FileSystem::new();
    create_dir_all(&mut fs, "/a/b/c").unwrap();
    ops::write(&mut fs, "/a/b/file", b"x").unwrap();
    create_dir_all(&mut fs, "/keep").unwrap();
    remove_dir_all(&mut fs, "/a").unwrap();
    assert!(!try_exists(&fs, "/a").unwrap());
    assert!(!try_exists(&fs, "/a/b/file").unwrap());
    assert!(try_exists(&fs, "/keep").unwrap());
}

#[test]
fn remove_dir_refuses_a_directory_with_entries() {
    let mut fs = FileSystem::new();
    create_dir_all(&mut fs, "/a/b").unwrap();
    assert_eq!(remove_dir(&mut fs, "/a"), Err(FsError::DirectoryNotEmpty));
    assert!(try_exists(&fs, "/a/b").unwrap());
    assert_eq!(remove_dir(&mut fs, "/a/b"), Ok(()));
    assert_eq!(remove_dir(&mut fs, "/a"), Ok(()));
}

#[test]
fn remove_dir_on_a_file_is_not_a_directory() {
    let mut fs = FileSystem::new();
    ops::write(&mut fs, "/f", b"1").unwrap();
    assert_eq!(remove_dir_all(&mut fs, "/f"), Err(FsError::NotADirectory));
    assert_eq!(remove_dir_all(&mut fs, "/f/g"), Err(FsError::NotADirectory));
}

#[test]
fn reading_a_directory_is_an_error() {
    let mut fs = FileSystem::new();
    create_dir_all(&mut fs, "/test").unwrap();
    assert_eq!(read(&fs, "/test"), Err(FsError::IsADirectory));
    assert_eq!(File::open(&mut fs, "/test").err(), Some(FsError::IsADirectory));
}

#[test]
fn reading_through_a_file_is_not_found() {
    let mut fs = FileSystem::new();
    ops::write(&mut fs, "/f", b"1").unwrap();
    assert_eq!(read(&fs, "/f/g"), Err(FsError::NotFound));
}

#[test]
fn listing_keeps_creation_order() {
    let mut fs = FileSystem::new();
    simfs::ops::create_dir(&mut fs, "/cc").unwrap();
    simfs::ops::create_dir(&mut fs, "/aa").unwrap();
    simfs::ops::create_dir(&mut fs, "/bb").unwrap();
    assert_eq!(names(&fs, "/"), vec!["cc".to_string(), "aa".to_string(), "bb".to_string()]);
}

#[test]
fn listing_errors() {
    let mut fs = FileSystem::new();
    let mut missing = read_dir("/nope").unwrap();
    assert_eq!(missing.next_entry(&fs).err(), Some(FsError::NotFound));
    ops::write(&mut fs, "/f", b"1").unwrap();
    let mut through_file = read_dir("/f/x").unwrap();
    assert_eq!(through_file.next_entry(&fs).err(), Some(FsError::NotADirectory));

    create_dir_all(&mut fs, "/d/a").unwrap();
    create_dir_all(&mut fs, "/d/b").unwrap();
    let mut listing = read_dir("/d").unwrap();
    let first = listing.next_entry(&fs).unwrap().unwrap();
    assert_eq!(first.path(), "d/a");
    remove_dir(&mut fs, "/d/a").unwrap();
    assert_eq!(listing.next_entry(&fs).err(), Some(FsError::NotFound));
}

#[test]
fn corrupt_file_replaces_bytes_with_noise() {
    let mut fs = FileSystem::new();
    ops::write(&mut fs, "/c", b"abcd").unwrap();
    corrupt_file(&mut fs, "/c", &vec![0x141, 2, 0xff03]).unwrap();
    assert_eq!(read(&fs, "/c").unwrap(), vec![0x41, 2, 3, b'd']);
}

#[test]
fn corrupt_file_on_a_directory_fails() {
    let mut fs = FileSystem::new();
    create_dir_all(&mut fs, "/d").unwrap();
    assert_eq!(corrupt_file(&mut fs, "/d", &vec![1]), Err(FsError::IsADirectory));
    assert_eq!(corrupt_file(&mut fs, "/missing", &vec![1]), Err(FsError::NotFound));
}

#[test]
fn view_after_writing_and_nesting() {
    let mut fs = FileSystem::new();
    create_dir_all(&mut fs, "/root/sub/folder").unwrap();
    create_dir_all(&mut fs, "/root/another/sub").unwrap();
    let mut file = File::create(&mut fs, "/root/test.txt").unwrap();
    file.write_all(b"wow\nanother");
    file.flush(&mut fs).unwrap();
    let mut again = File::open(&mut fs, "/root/test.txt").unwrap();
    let mut contents = Vec::new();
    again.read_to_end(&mut contents);
    assert_eq!(contents, b"wow\nanother");
    create_dir_all(&mut fs, "/test/some/more").unwrap();
    assert_eq!(
        file_system_view(&fs),
        "
/
├─ test/
│  └─ some/
│     └─ more/
└─ root/
   ├─ test.txt
   ├─ another/
   │  └─ sub/
   └─ sub/
      └─ folder/
"
    );
}

#[test]
fn empty_view() {
    let fs = FileSystem::new();
    assert_eq!(file_system_view(&fs), "\n/\n");
}

#[test]
fn dir_builder_second_plain_create_already_exists() {
    let mut fs = FileSystem::new();
    assert_eq!(DirBuilder::new().recursive(true).create(&mut fs, "foo/bar"), Ok(()));
    assert_eq!(DirBuilder::new().recursive(false).create(&mut fs, "foo/bar"), Err(FsError::AlreadyExists));
    assert_eq!(DirBuilder::new().recursive(true).create(&mut fs, "foo/bar"), Ok(()));
}

#[test]
fn read_only_blocks_creation_and_removal_not_flush() {
    let mut fs = FileSystem::new();
    create_dir_all(&mut fs, "/kept").unwrap();
    let mut file = File::create(&mut fs, "/open.txt").unwrap();
    set_file_system_read_only(&mut fs, true);
    assert!(fs.is_read_only());
    assert_eq!(simfs::ops::create_dir(&mut fs, "/directory"), Err(FsError::ReadOnlyFilesystem));
    assert_eq!(create_dir_all(&mut fs, "/nested/dir"), Err(FsError::ReadOnlyFilesystem));
    assert_eq!(remove_dir_all(&mut fs, "/kept"), Err(FsError::ReadOnlyFilesystem));
    assert_eq!(File::create(&mut fs, "/new.txt").err(), Some(FsError::ReadOnlyFilesystem));
    file.write_all(b"late");
    assert_eq!(file.flush(&mut fs), Ok(()));
    assert!(File::open(&mut fs, "/open.txt").is_ok());
    assert_eq!(read(&fs, "/open.txt").unwrap(), b"late");
    set_file_system_read_only(&mut fs, false);
    assert!(create_dir_all(&mut fs, "/nested/dir").is_ok());
}

#[test]
fn open_options_behaviour() {
    let mut fs = FileSystem::new();
    ops::write(&mut fs, "/f", b"abc").unwrap();
    assert_eq!(OpenOptions::new().create_new(true).open(&mut fs, "/f").err(), Some(FsError::AlreadyExists));
    assert!(OpenOptions::new().create_new(true).open(&mut fs, "/g").is_ok());
    assert_eq!(read(&fs, "/g").unwrap(), b"");
    assert_eq!(OpenOptions::new().read(true).open(&mut fs, "/h").err(), Some(FsError::NotFound));

    let mut appending = OpenOptions::new().append(true).open(&mut fs, "/f").unwrap();
    let mut out = Vec::new();
    assert_eq!(appending.read(&mut out), 0);
    appending.write_all(b"de");
    appending.flush(&mut fs).unwrap();
    assert_eq!(read(&fs, "/f").unwrap(), b"abcde");

    let mut reading = File::options().read(true).mode(0o644).custom_flags(1).open(&mut fs, "/f").unwrap();
    let mut out = Vec::new();
    assert_eq!(reading.read(&mut out), 5);
    assert_eq!(out, b"abcde");
    assert_eq!(reading.read(&mut out), 0);

    let truncating = OpenOptions::new().write(true).truncate(true).open(&mut fs, "/f").unwrap();
    drop(truncating);
    assert_eq!(read(&fs, "/f").unwrap(), b"");
}

#[test]
fn writes_stay_private_until_flush() {
    let mut fs = FileSystem::new();
    let mut file = File::create(&mut fs, "/p").unwrap();
    assert_eq!(file.write(b"hello"), 5);
    assert_eq!(read(&fs, "/p").unwrap(), b"");
    let copy = file.try_clone().unwrap();
    file.flush(&mut fs).unwrap();
    assert_eq!(read(&fs, "/p").unwrap(), b"hello");
    copy.shutdown(&mut fs).unwrap();
    assert_eq!(read(&fs, "/p").unwrap(), b"hello");
}

#[test]
fn flush_after_removal_fails() {
    let mut fs = FileSystem::new();
    create_dir_all(&mut fs, "/d").unwrap();
    let file = File::create(&mut fs, "/d/f").unwrap();
    remove_dir_all(&mut fs, "/d").unwrap();
    assert_eq!(file.flush(&mut fs), Err(FsError::NotFound));
}

#[test]
fn create_file_with_replace_empties_and_prunes() {
    let mut fs = FileSystem::new();
    ops::write(&mut fs, "/f", b"abc").unwrap();
    let f = resolve_path("/f");
    assert_eq!(fs.create_file(&f, false), Ok(()));
    assert_eq!(read(&fs, "/f").unwrap(), b"abc");
    assert_eq!(fs.create_file(&f, true), Ok(()));
    assert_eq!(read(&fs, "/f").unwrap(), b"");

    create_dir_all(&mut fs, "/d/inner").unwrap();
    let d = resolve_path("/d");
    assert_eq!(fs.create_file(&d, true), Ok(()));
    assert!(!fs.has(&resolve_path("/d/inner")));
    assert!(matches!(fs.get(&d), Ok(FileSystemEntry::File(b)) if b.is_empty()));
    assert_eq!(fs.create_file(&Vec::new(), false), Err(FsError::NotFound));
    assert_eq!(fs.create_file(&resolve_path("/none/x"), false), Err(FsError::NotFound));
}

#[test]
fn update_overwrites_a_file() {
    let mut fs = FileSystem::new();
    ops::write(&mut fs, "/u", b"old").unwrap();
    fs.update(&resolve_path("/u"), b"new!".to_vec());
    assert_eq!(read(&fs, "/u").unwrap(), b"new!");
}

#[test]
fn empty_path_creates_nothing() {
    let mut fs = FileSystem::new();
    assert_eq!(create_dir_all(&mut fs, "/"), Ok(()));
    assert_eq!(simfs::ops::create_dir(&mut fs, ""), Ok(()));
    assert_eq!(file_system_view(&fs), "\n/\n");
}

#[test]
fn path_resolution() {
    assert_eq!(resolve_path("//a//b/"), vec!["a".to_string(), "b".to_string()]);
    assert_eq!(resolve_path("a"), vec!["a".to_string()]);
    assert!(resolve_path("").is_empty());
    assert!(resolve_path("/").is_empty());
    assert_eq!(resolve_path("/é/ü x"), vec!["é".to_string(), "ü x".to_string()]);
}

#[test]
fn working_directory_is_stored_resolved() {
    let mut fs = FileSystem::new();
    assert_eq!(working_directory(&fs), "");
    set_working_directory(&mut fs, "/a//b/");
    assert_eq!(working_directory(&fs), "a/b");
    assert!(!try_exists(&fs, "/a").unwrap());
}

#[test]
fn error_values_and_messages() {
    assert_eq!(not_found_file_or_directory(), FsError::NotFound);
    assert_eq!(already_exists_file(), FsError::AlreadyExists);
    assert_eq!(is_a_directory(), FsError::IsADirectory);
    assert_eq!(not_a_directory(), FsError::NotADirectory);
    assert_eq!(read_only_filesystem(), FsError::ReadOnlyFilesystem);
    assert_eq!(directory_not_empty(), FsError::DirectoryNotEmpty);
    assert_eq!(FsError::NotFound.message(), "No such file or directory");
    assert_eq!(FsError::AlreadyExists.message(), "File exists");
    assert_eq!(FsError::IsADirectory.message(), "Is a directory");
    assert_eq!(FsError::NotADirectory.message(), "Not a directory");
    assert_eq!(FsError::ReadOnlyFilesystem.message(), "Read-only file system");
    assert_eq!(FsError::DirectoryNotEmpty.message(), "Directory not empty");
}

#[test]
fn handle_length_follows_writes() {
    let mut fs = FileSystem::new();
    let mut file = File::create(&mut fs, "/l").unwrap();
    assert_eq!(file.len(), 0);
    file.write_all(b"abc");
    assert_eq!(file.len(), 3);
}

#[test]
fn handle_from_parts() {
    let mut fs = FileSystem::new();
    ops::write(&mut fs, "/n", b"xyz").unwrap();
    let mut file = File::new(b"abc".to_vec(), OpenOptions::new().write(true), 1, resolve_path("/n"));
    let mut out = Vec::new();
    assert_eq!(file.read(&mut out), 2);
    assert_eq!(out, b"bc");
    file.flush(&mut fs).unwrap();
    assert_eq!(read(&fs, "/n").unwrap(), b"abc");
}
