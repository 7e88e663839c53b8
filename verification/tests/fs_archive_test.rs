use archivefs::{ArchiveEntryInfo, Browseable, FSArchive, Listing};

fn archive_listing(entries: &[(&str, u64)]) -> Vec<ArchiveEntryInfo> {
    entries.iter().map(|(p, s)| ArchiveEntryInfo { pathname: p.to_string(), size: *s }).collect()
}

#[test]
fn fs_archive_test_test_name() {
    let fs_archive = FSArchive::new("/tmp/test_archive_in_root_as_directory.5Gh1/single-level-single-file-archive.rar");
    assert_eq!(fs_archive.name(), "single-level-single-file-archive");
}

#[test]
fn fs_archive_test_name() {
    let fs_archive = FSArchive::new("single-level-single-file-archive.rar");
    assert_eq!(fs_archive.name(), "single-level-single-file-archive");
}

#[test]
fn fs_archive_test_test_simple_list_files() {
    let fs_archive = FSArchive::new("/tmp/t.1/single-level-archive.gz");
    assert_eq!(fs_archive.name(), "single-level-archive");

    let archive = Browseable::Archive(fs_archive);
    let listing = Listing::Archive(archive_listing(&[("hello.txt", 6)]));
    assert_eq!(
        archive.list_subdirectories(&listing).unwrap().len(),
        0,
        "should not show subdirectories"
    );
    assert_eq!(archive.list_files(&listing).unwrap().len(), 1, "should have files");

    let files = archive.list_files(&listing).unwrap();
    let filenames: Vec<&str> = files.iter().map(|x| x.filename()).collect();
    assert_eq!(filenames, vec!["hello.txt"], "should have one file named 'hello.txt'");
}

#[test]
fn fs_archive_test_simple_list_files() {
    let fs_archive = FSArchive::new("single-level-archive.gz");
    assert_eq!(fs_archive.name(), "single-level-archive");
    let files = fs_archive.list_files(&archive_listing(&[("hello.txt", 6)]));
    assert_eq!(files.len(), 1);
    assert_eq!(files[0].filename(), "hello.txt");
    assert_eq!(files[0].size(), 6);
    assert_eq!(files[0].archive_file(), "single-level-archive.gz");
}

#[test]
fn fs_archive_test_test_name_with_tar_gz_file_extension() {
    let fs_archive = FSArchive::new("/tmp/t.2/single-level-archive.tar.gz");
    assert_eq!(fs_archive.name(), "single-level-archive");
}

#[test]
fn fs_archive_test_name_with_tar_gz_file_extension() {
    let fs_archive = FSArchive::new("single-level-archive.tar.gz");
    assert_eq!(fs_archive.name(), "single-level-archive");
}

#[test]
fn test_name_with_zip_file_extension() {
    let fs_archive = FSArchive::new("/tmp/t.3/single-level-archive.zip");
    assert_eq!(fs_archive.name(), "single-level-archive");
    let archive = Browseable::Archive(fs_archive);
    let listing = Listing::Archive(archive_listing(&[("hello.txt", 6)]));
    assert_eq!(archive.list_files(&listing).unwrap().len(), 1, "should have files");

    let files = archive.list_files(&listing).unwrap();
    let filenames: Vec<&str> = files.iter().map(|x| x.filename()).collect();
    assert_eq!(filenames, vec!["hello.txt"], "should have one file named 'hello.txt'");
}

#[test]
fn only_a_trailing_tar_is_dropped() {
    assert_eq!(FSArchive::new("/x/a.tar.tar.gz").name(), "a.tar");
    assert_eq!(FSArchive::new("/x/tarball.zip").name(), "tarball");
    assert_eq!(FSArchive::new("/x/a.tarx.gz").name(), "a.tarx");
    assert_eq!(FSArchive::new("/x/.tar.gz").name(), "");
}

#[test]
fn archive_entries_keep_their_order() {
    let archive = Browseable::Archive(FSArchive::new("/x/pack.zip"));
    let listing = Listing::Archive(archive_listing(&[("b.txt", 1), ("dir/a.txt", 2), ("c", 3)]));
    let files = archive.list_files(&listing).unwrap();
    let names: Vec<&str> = files.iter().map(|f| f.filename()).collect();
    assert_eq!(names, vec!["b.txt", "a.txt", "c"]);
    let sizes: Vec<Option<u64>> = files.iter().map(|f| f.recorded_size()).collect();
    assert_eq!(sizes, vec![Some(1), Some(2), Some(3)]);
    assert!(archive.get_file(&listing, "a.txt").unwrap().is_some());
    assert!(archive.get_file(&listing, "dir").unwrap().is_none());
}
