use simfs::file::File;
use simfs::helpers::{corrupt_file, file_system_view, set_file_system_read_only};
use simfs::ops::{create_dir, create_dir_all};
use simfs::tree::FileSystem;

#[test]
fn filesystem_view() {
    let mut fs = FileSystem::new();
    create_dir_all(&mut fs, "/root/sub/folder").unwrap();
    create_dir_all(&mut fs, "/root/another/sub").unwrap();
    create_dir_all(&mut fs, "/test/some/more").unwrap();

    assert_eq!(
        file_system_view(&fs),
        "
/
├─ test/
│  └─ some/
│     └─ more/
└─ root/
   ├─ another/
   │  └─ sub/
   └─ sub/
      └─ folder/
"
    );
}

#[test]
fn can_corrupt_files() {
    let mut fs = FileSystem::new();
    let mut file = File::create(&mut fs, "test.txt").unwrap();
    file.write_all(b"wow\nanother");
    file.flush(&mut fs).unwrap();

    let noise: Vec<u32> = (0..11u32).map(|i| i.wrapping_mul(2654435761)).collect();
    corrupt_file(&mut fs, "test.txt", &noise).unwrap();

    let mut file = File::open(&mut fs, "test.txt").unwrap();
    let mut contents = Vec::new();
    file.read_to_end(&mut contents);

    assert_ne!(contents, b"wow\nanother");
}

#[test]
fn cannot_do_much_on_read_only_file_system() {
    let mut fs = FileSystem::new();
    let mut file = File::create(&mut fs, "succeed.txt").unwrap();
    file.write(b"before it's too late!");

    set_file_system_read_only(&mut fs, true);

    let file = File::create(&mut fs, "fail.txt");
    assert!(file.is_err());

    let dir = create_dir(&mut fs, "/directory");
    assert!(dir.is_err());

    let dir = create_dir_all(&mut fs, "/nested/dir");
    assert!(dir.is_err());

    let _ = File::open(&mut fs, "succeed.txt").unwrap();
}
