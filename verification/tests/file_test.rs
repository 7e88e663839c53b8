use archivefs::{FSFile, File, Readable};

#[test]
fn test_file_name() {
    let file = File::new("/tmp/example.k2J9aa/my-temporary-note.txt");
    assert_eq!(file.filename(), "my-temporary-note.txt");
}

#[test]
fn file_name_skips_trailing_separators_and_current_directory() {
    assert_eq!(File::new("/tmp/notes.txt/.//").filename(), "notes.txt");
    assert_eq!(File::new("relative").filename(), "relative");
    assert_eq!(File::new("a/./b").filename(), "b");
}

#[test]
fn archive_file_reports_recorded_size() {
    let file = FSFile::new("/data/pack.zip", 4, "docs/hello.txt");
    assert_eq!(file.filename(), "hello.txt");
    assert_eq!(file.size(), 4);
    let readable = Readable::ArchiveFile(file);
    assert_eq!(readable.recorded_size(), Some(4));
    assert_eq!(readable.filename(), "hello.txt");
    assert_eq!(Readable::File(File::new("/data/x")).recorded_size(), None);
}

#[test]
fn directory_entry_in_archive_is_named_after_its_last_component() {
    let file = FSFile::new("/data/pack.zip", 0, "docs/");
    assert_eq!(file.filename(), "docs");
}

#[test]
fn archive_file_recognises_its_entry() {
    let file = FSFile::new("/data/pack.zip", 4, "docs/hello.txt");
    assert!(file.is_entry("docs/hello.txt"));
    assert!(!file.is_entry("hello.txt"));
}
