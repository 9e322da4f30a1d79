use simfs::errors::FsError;
use simfs::file::File;
use simfs::ops::{create_dir, read, remove_dir_all, try_exists};
use simfs::tree::FileSystem;

fn is_not_found(res: &Result<(), FsError>) -> bool {
    match res {
        Err(e) => *e == FsError::NotFound && e.message().starts_with("No such file or directory"),
        Ok(()) => false,
    }
}

#[test]
fn read_works_on_file() {
    let mut fs = FileSystem::new();
    let mut file = File::create(&mut fs, "/test.txt").unwrap();
    file.write_all(b"read test validated");
    file.flush(&mut fs).unwrap();

    let contents = read(&fs, "/test.txt").unwrap();
    assert_eq!(contents, b"read test validated");
}

#[test]
fn read_missing_file() {
    let fs = FileSystem::new();
    let res = read(&fs, "/test.txt");
    assert!(res.is_err_and(|err| err == FsError::NotFound
        && err.message().starts_with("No such file or directory")));
}

#[test]
fn read_empty_file_name() {
    let fs = FileSystem::new();
    let res = read(&fs, "");
    assert!(res.is_err_and(|err| err == FsError::NotFound
        && err.message().starts_with("No such file or directory")));
}

#[test]
fn remove_dir_all_removes_directories() {
    let mut fs = FileSystem::new();
    create_dir(&mut fs, "/test").unwrap();
    remove_dir_all(&mut fs, "/test").unwrap();
    assert!(!try_exists(&fs, "/test").unwrap());
}

#[test]
fn remove_dir_all_error_missing() {
    let mut fs = FileSystem::new();
    let res = remove_dir_all(&mut fs, "/test");
    assert!(is_not_found(&res));
}

#[test]
fn remove_dir_all_error_empty_path() {
    let mut fs = FileSystem::new();
    let res = remove_dir_all(&mut fs, "");
    assert!(is_not_found(&res));
}

#[test]
fn read_fails_on_directory() {
    let mut fs = FileSystem::new();
    create_dir(&mut fs, "/test").unwrap();

    let res = read(&fs, "/test.txt");
    assert!(res.is_err());
}

#[test]
fn create_dir_root() {
    let mut fs = FileSystem::new();
    create_dir(&mut fs, "/root").unwrap();
    assert!(try_exists(&fs, "/root").unwrap());
}

#[test]
fn create_dir_missing_directory() {
    let mut fs = FileSystem::new();
    let res = create_dir(&mut fs, "/root/sub/folder");
    assert!(is_not_found(&res));
}
