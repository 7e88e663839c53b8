use archivefs::{
    ArchiveEntryInfo, Browseable, DirEntryInfo, Directory, Filesystem, FilesystemNode, Listing,
    NodeLookup, Readable,
};

/// The listing of a directory holding `entries`, each a name and whether it
/// is a directory.
fn directory_listing(entries: &[(&str, bool)]) -> Listing {
    Listing::Directory(
        entries
            .iter()
            .map(|(name, is_dir)| DirEntryInfo {
                name: name.to_string(),
                is_dir: *is_dir,
                ignored: false,
            })
            .collect(),
    )
}

fn entries(entries: &[(&str, bool)]) -> Vec<DirEntryInfo> {
    match directory_listing(entries) {
        Listing::Directory(es) => es,
        Listing::Archive(_) => unreachable!(),
    }
}

/// Looks `path` up below `start`, reading each directory from `tree`, a list
/// of directory paths with their entries.
fn lookup(start: &Browseable, path: &str, tree: &[(&str, &[(&str, bool)])]) -> Option<FilesystemNode> {
    let mut step = start.get_node(path);
    loop {
        match step {
            NodeLookup::Found(node) => return node,
            NodeLookup::Pending(walk) => {
                let listing = match walk.current() {
                    Browseable::Directory(d) => {
                        let found = tree.iter().find(|(p, _)| *p == d.dirpath());
                        directory_listing(found.map(|(_, es)| *es).unwrap_or(&[]))
                    }
                    Browseable::Archive(_) => Listing::Archive(Vec::<ArchiveEntryInfo>::new()),
                };
                step = walk.next_node(&listing).unwrap();
            }
        }
    }
}

const ROOT: &str = "/tmp/test_directory.Xa3f9Q";

#[test]
fn test_getting_subdirectory_node() {
    let directory = Browseable::Directory(Directory::new(ROOT));
    let tree: &[(&str, &[(&str, bool)])] = &[(ROOT, &[("hello", true)])];

    match lookup(&directory, "/hello", tree) {
        Some(FilesystemNode::Browseable(dir)) => assert_eq!(dir.name(), "hello"),
        _ => unreachable!(),
    }
}

#[test]
fn test_getting_node_directory_in_subdirectory() {
    let directory = Browseable::Directory(Directory::new(ROOT));
    let hello = format!("{}/hello", ROOT);
    let tree: &[(&str, &[(&str, bool)])] = &[(ROOT, &[("hello", true)]), (&hello, &[("world", true)])];

    match lookup(&directory, "/hello/world", tree) {
        Some(FilesystemNode::Browseable(dir)) => assert_eq!(dir.name(), "world"),
        _ => unreachable!(),
    }
}

#[test]
fn test_getting_node_file_in_subdirectory() {
    let directory = Browseable::Directory(Directory::new(ROOT));
    let hello = format!("{}/hello", ROOT);
    let world = format!("{}/hello/world", ROOT);
    let tree: &[(&str, &[(&str, bool)])] = &[
        (ROOT, &[("hello", true)]),
        (&hello, &[("world", true)]),
        (&world, &[("foo.txt", false)]),
    ];

    match lookup(&directory, "/hello/world/foo.txt", tree) {
        Some(FilesystemNode::Readable(file)) => assert_eq!(file.filename(), "foo.txt"),
        _ => unreachable!(),
    }
}

#[test]
fn directory_test_test_getting_root_file_node() {
    let directory = Browseable::Directory(Directory::new(ROOT));
    let tree: &[(&str, &[(&str, bool)])] = &[(ROOT, &[("foo.txt", false)])];

    match lookup(&directory, "/foo.txt", tree) {
        Some(FilesystemNode::Readable(file)) => assert_eq!(file.filename(), "foo.txt"),
        _ => unreachable!(),
    }
}

#[test]
fn test_listing_all_nodes() {
    let directory = Browseable::Directory(Directory::new(ROOT));
    let listing = directory_listing(&[("foo.txt", false), ("hello", true)]);

    let nodes = directory.list_nodes(&listing).unwrap();
    assert_eq!(nodes.len(), 2);
    match nodes.first() {
        Some(FilesystemNode::Readable(file)) => assert_eq!(file.filename(), "foo.txt"),
        Some(FilesystemNode::Browseable(dir)) => assert_eq!(dir.name(), "hello"),
        _ => unreachable!(),
    }

    match nodes.last() {
        Some(FilesystemNode::Readable(file)) => assert_eq!(file.filename(), "foo.txt"),
        Some(FilesystemNode::Browseable(dir)) => assert_eq!(dir.name(), "hello"),
        _ => unreachable!(),
    }
}

#[test]
fn test_listing_tar_gz_archive() {
    let directory = Directory::new(ROOT);
    let es = entries(&[("single-level-archive.tar.gz", false)]);

    assert_eq!(directory.list_files(&es).len(), 0);
    assert_eq!(directory.list_subdirectories(&es).len(), 1);
    assert_eq!(directory.list_archives(&es).len(), 1);

    let root = Browseable::Directory(Directory::new(ROOT));
    let tree: &[(&str, &[(&str, bool)])] = &[(ROOT, &[("single-level-archive.tar.gz", false)])];
    match lookup(&root, "/single-level-archive", tree) {
        Some(FilesystemNode::Browseable(archive)) => {
            assert_eq!(archive.name(), "single-level-archive");
        }
        _ => unreachable!(),
    }
}

#[test]
fn test_listing_archives() {
    let directory = Directory::new(ROOT);
    let es = entries(&[
        ("single-level-single-file-archive.rar", false),
        ("single-level-single-file-archive.r00", false),
        ("single-level-single-file-archive.r01", false),
        ("single-level-single-file-archive.r02", false),
        ("single-level-single-file-archive.r03", false),
    ]);

    assert_eq!(directory.list_files(&es).len(), 0);
    assert_eq!(directory.list_subdirectories(&es).len(), 1);
    assert_eq!(directory.list_archives(&es).len(), 1);

    match directory.list_archives(&es).first() {
        Some(archive) => {
            assert_eq!(archive.name(), "single-level-single-file-archive");
        }
        _ => unreachable!(),
    }
}

#[test]
fn test_listing_zip_archive() {
    let directory = Directory::new(ROOT);
    let es = entries(&[("single-level-archive.zip", false)]);

    assert_eq!(directory.list_subdirectories(&es).len(), 1);
    assert_eq!(directory.list_archives(&es).len(), 1);

    match directory.list_archives(&es).first() {
        Some(archive) => {
            assert_eq!(archive.name(), "single-level-archive");
        }
        _ => unreachable!(),
    }
}

#[test]
fn zip_archive_is_also_listed_as_a_file() {
    let directory = Directory::new(ROOT);
    let es = entries(&[("single-level-archive.zip", false)]);
    let files = directory.list_files(&es);
    assert_eq!(files.len(), 1);
    assert_eq!(files[0].filepath(), format!("{}/single-level-archive.zip", ROOT));
}

#[test]
fn files_keep_listing_order_and_skip_directories() {
    let directory = Directory::new("/data/");
    let es = entries(&[("b.txt", false), ("sub", true), ("notes", false), ("a.gz", false), ("c.r17", false)]);
    let files: Vec<String> = directory.list_files(&es).iter().map(|f| f.filepath().to_string()).collect();
    assert_eq!(files, vec!["/data/b.txt".to_string(), "/data/notes".to_string()]);
}

#[test]
fn subdirectories_come_before_archives() {
    let directory = Directory::new("/data");
    let es = entries(&[("x.rar", false), ("sub", true), ("y.gz", false), ("other", true)]);
    let names: Vec<String> = directory.list_subdirectories(&es).iter().map(|b| b.name().to_string()).collect();
    assert_eq!(names, vec!["sub", "other", "x", "y"]);
}

#[test]
fn hidden_directory_is_not_shown_or_found() {
    let directory = Directory::new("/data");
    let es = vec![
        DirEntryInfo { name: "private".to_string(), is_dir: true, ignored: true },
        DirEntryInfo { name: "public".to_string(), is_dir: true, ignored: false },
    ];
    let names: Vec<String> = directory.list_subdirectories(&es).iter().map(|b| b.name().to_string()).collect();
    assert_eq!(names, vec!["public"]);

    let root = Browseable::Directory(Directory::new("/data"));
    let listing = Listing::Directory(es);
    assert!(root.get_subdirectory(&listing, "private").unwrap().is_none());
    assert!(root.get_subdirectory(&listing, "public").unwrap().is_some());
}

#[test]
fn ignore_marker_path_is_inside_the_entry() {
    let directory = Directory::new("/data");
    assert_eq!(directory.ignore_marker_for("sub"), "/data/sub/.archivefs-ignore");
}

#[test]
fn subdirectory_hides_file_of_same_name() {
    let root = Browseable::Directory(Directory::new("/data"));
    let tree: &[(&str, &[(&str, bool)])] = &[("/data", &[("same", false), ("same", true), ("other.zip", false)])];
    match lookup(&root, "/same", tree) {
        Some(FilesystemNode::Browseable(dir)) => assert_eq!(dir.name(), "same"),
        _ => unreachable!(),
    }
    // The zip file shows as the file "other.zip" and as the archive "other".
    match lookup(&root, "/other.zip", tree) {
        Some(FilesystemNode::Readable(Readable::File(f))) => assert_eq!(f.filepath(), "/data/other.zip"),
        _ => unreachable!(),
    }
    match lookup(&root, "/other", tree) {
        Some(FilesystemNode::Browseable(Browseable::Archive(a))) => assert_eq!(a.archive_path(), "/data/other.zip"),
        _ => unreachable!(),
    }
}

#[test]
fn every_listed_node_is_found_by_its_name() {
    let root = Browseable::Directory(Directory::new("/data"));
    let listed: &[(&str, bool)] = &[("a.txt", false), ("d", true), ("b.zip", false), ("c.rar", false)];
    let tree: &[(&str, &[(&str, bool)])] = &[("/data", listed)];
    let nodes = root.list_nodes(&directory_listing(listed)).unwrap();
    assert_eq!(nodes.len(), 5);
    for node in &nodes {
        let name = node.name().to_string();
        let found = lookup(&root, &format!("/{}", name), tree).expect("listed node is found");
        assert_eq!(found.name(), name);
    }
}

#[test]
fn missing_paths_are_not_found() {
    let root = Browseable::Directory(Directory::new("/data"));
    let tree: &[(&str, &[(&str, bool)])] = &[("/data", &[("a.txt", false)])];
    assert!(lookup(&root, "/nothing", tree).is_none());
    assert!(lookup(&root, "/a.txt/deeper", tree).is_none());
    assert!(lookup(&root, "//", tree).is_none());
    assert!(matches!(lookup(&root, "/", tree), Some(FilesystemNode::Browseable(_))));
}

#[test]
fn archive_root_holds_its_entries() {
    let root = Filesystem::new("/data");
    let mut step = root.get_node("/pack/inner.txt");
    let mut reads = 0;
    let found = loop {
        match step {
            NodeLookup::Found(n) => break n,
            NodeLookup::Pending(walk) => {
                reads += 1;
                let listing = match walk.current() {
                    Browseable::Directory(_) => directory_listing(&[("pack.tar.gz", false)]),
                    Browseable::Archive(a) => {
                        assert_eq!(a.archive_path(), "/data/pack.tar.gz");
                        Listing::Archive(vec![
                            ArchiveEntryInfo { pathname: "inner.txt".to_string(), size: 12 },
                            ArchiveEntryInfo { pathname: "docs/readme.md".to_string(), size: 3 },
                        ])
                    }
                };
                step = walk.next_node(&listing).unwrap();
            }
        }
    };
    assert_eq!(reads, 2);
    match found {
        Some(FilesystemNode::Readable(Readable::ArchiveFile(f))) => {
            assert_eq!(f.size(), 12);
            assert_eq!(f.entry_path(), "inner.txt");
            assert_eq!(f.archive_file(), "/data/pack.tar.gz");
        }
        _ => unreachable!(),
    }
}
