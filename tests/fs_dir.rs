use simfs::dir_builder::DirBuilder;
use simfs::ops::{self, try_exists};
use simfs::read_dir::read_dir;
use simfs::tree::FileSystem;

#[test]
fn create_dir() {
    let mut fs = FileSystem::new();
    let new_dir = "foo";

    assert!(ops::create_dir(&mut fs, new_dir).is_ok());

    assert!(try_exists(&fs, new_dir).unwrap());
}

#[test]
fn create_all() {
    let mut fs = FileSystem::new();
    let new_dir = "foo/bar";

    assert!(ops::create_dir_all(&mut fs, new_dir).is_ok());

    assert!(try_exists(&fs, new_dir).unwrap());
}

#[test]
fn build_dir_recursive() {
    let mut fs = FileSystem::new();
    let new_dir = "foo/bar";

    assert!(DirBuilder::new().recursive(true).create(&mut fs, new_dir).is_ok());

    assert!(try_exists(&fs, new_dir).unwrap());
    assert!(DirBuilder::new().recursive(false).create(&mut fs, new_dir).is_err());
}

#[test]
fn build_dir_not_recursive() {
    let mut fs = FileSystem::new();
    let new_dir = "foo/bar";

    assert!(DirBuilder::new().recursive(false).create(&mut fs, new_dir).is_err());
}

#[test]
fn remove() {
    let mut fs = FileSystem::new();
    let new_dir = "foo";

    ops::create_dir(&mut fs, new_dir).unwrap();

    assert!(ops::remove_dir(&mut fs, new_dir).is_ok());
    assert!(!try_exists(&fs, new_dir).unwrap());
}

#[test]
fn read_inherent() {
    let mut fs = FileSystem::new();
    let base_path = "/";

    ops::create_dir(&mut fs, "/aa").unwrap();
    ops::create_dir(&mut fs, "/bb").unwrap();
    ops::create_dir(&mut fs, "/cc").unwrap();

    let mut files = Vec::new();

    let mut entries = read_dir(base_path).unwrap();

    while let Some(e) = entries.next_entry(&fs).unwrap() {
        let s = e.file_name();
        files.push(s);
    }

    files.sort();
    assert_eq!(
        *files,
        vec!["aa".to_string(), "bb".to_string(), "cc".to_string()]
    );
}

#[test]
fn read_dir_entry_info() {
    let mut fs = FileSystem::new();
    let base_path = "foo";
    ops::create_dir_all(&mut fs, base_path).unwrap();
    let file_path = "foo/a.txt";

    ops::write(&mut fs, file_path, b"Hello File!").unwrap();

    let mut dir = read_dir(base_path).unwrap();

    let first_entry = dir.next_entry(&fs).unwrap().unwrap();

    assert_eq!(first_entry.path(), file_path);
    assert_eq!(first_entry.file_name(), "a.txt");
}
