use simfs::ops;
use simfs::tree::FileSystem;

#[test]
fn copy() {
    let mut fs = FileSystem::new();
    let dir = "foo";
    ops::create_dir(&mut fs, dir).unwrap();

    let source_path = format!("{}/{}", dir, "foo.txt");
    let dest_path = format!("{}/{}", dir, "bar.txt");

    ops::write(&mut fs, &source_path, b"Hello File!").unwrap();
    ops::copy(&mut fs, &source_path, &dest_path).unwrap();

    let from = ops::read(&fs, &source_path).unwrap();
    let to = ops::read(&fs, &dest_path).unwrap();

    assert_eq!(from, to);
}
