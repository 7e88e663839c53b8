use archivefs::callbacks::{getattr_reply, node_attributes, read_target, readdir_names, Attributes, FileKind};
use archivefs::{Browseable, Directory, FSArchive, File, FilesystemNode, Readable};

#[test]
fn file_attributes_report_the_file_size() {
    let node = FilesystemNode::Readable(Readable::File(File::new("/d/a.txt")));
    assert_eq!(
        node_attributes(&node, 4),
        Attributes { kind: FileKind::Regular, permissions: 0o777, links: 2, size: Some(4) }
    );
}

#[test]
fn directory_attributes_report_one_block() {
    let node = FilesystemNode::Browseable(Browseable::Directory(Directory::new("/d/sub")));
    assert_eq!(
        node_attributes(&node, 99),
        Attributes { kind: FileKind::Directory, permissions: 0o777, links: 1, size: Some(4096) }
    );
    let archive = FilesystemNode::Browseable(Browseable::Archive(FSArchive::new("/d/x.zip")));
    assert_eq!(node_attributes(&archive, 0).size, Some(4096));
}

#[test]
fn getattr_falls_back_to_root_and_reports_missing_entries() {
    assert_eq!(
        getattr_reply(&None, 0, "/"),
        Some(Attributes { kind: FileKind::Directory, permissions: 0o755, links: 2, size: None })
    );
    assert_eq!(getattr_reply(&None, 0, "/missing"), None);
    let node = Some(FilesystemNode::Readable(Readable::File(File::new("/d/a.txt"))));
    assert_eq!(getattr_reply(&node, 7, "/a.txt").unwrap().size, Some(7));
}

#[test]
fn readdir_lists_dots_then_node_names() {
    let nodes = vec![
        FilesystemNode::Readable(Readable::File(File::new("/d/a.txt"))),
        FilesystemNode::Browseable(Browseable::Directory(Directory::new("/d/sub"))),
        FilesystemNode::Browseable(Browseable::Archive(FSArchive::new("/d/pack.tar.gz"))),
    ];
    assert_eq!(readdir_names(&Some(nodes)), vec![".", "..", "a.txt", "sub", "pack"]);
    assert_eq!(readdir_names(&None), vec![".", ".."]);
}

#[test]
fn only_files_are_read() {
    let file = Some(FilesystemNode::Readable(Readable::File(File::new("/d/a.txt"))));
    assert!(read_target(file).is_some());
    let dir = Some(FilesystemNode::Browseable(Browseable::Directory(Directory::new("/d/sub"))));
    assert!(read_target(dir).is_none());
    assert!(read_target(None).is_none());
}
