use archivefs::filesystem::split_path;
use archivefs::{
    Browseable, DirEntryInfo, DirectoryLookup, Filesystem, FilesystemNode, Listing, NodeLookup,
    Readable,
};

fn directory_listing(entries: &[(&str, bool)]) -> Listing {
    Listing::Directory(
        entries
            .iter()
            .map(|(name, is_dir)| DirEntryInfo {
                name: name.to_string(),
                is_dir: *is_dir,
                ignored: false,
            })
            .collect(),
    )
}

fn listing_from(tree: &[(&str, &[(&str, bool)])], current: &Browseable) -> Listing {
    match current {
        Browseable::Directory(d) => {
            let found = tree.iter().find(|(p, _)| *p == d.dirpath());
            directory_listing(found.map(|(_, es)| *es).unwrap_or(&[]))
        }
        Browseable::Archive(_) => Listing::Archive(vec![]),
    }
}

fn get_node(fs: &Filesystem, path: &str, tree: &[(&str, &[(&str, bool)])]) -> Option<FilesystemNode> {
    let mut step = fs.get_node(path);
    loop {
        match step {
            NodeLookup::Found(node) => return node,
            NodeLookup::Pending(walk) => {
                let listing = listing_from(tree, walk.current());
                step = walk.next_node(&listing).unwrap();
            }
        }
    }
}

fn get_directory(fs: &Filesystem, path: &str, tree: &[(&str, &[(&str, bool)])]) -> Option<Browseable> {
    let mut step = fs.get_directory(path);
    loop {
        match step {
            DirectoryLookup::Found(dir) => return dir,
            DirectoryLookup::Pending(walk) => {
                let listing = listing_from(tree, walk.current());
                step = walk.next_directory(&listing).unwrap();
            }
        }
    }
}

fn list_files(fs: &Filesystem, path: &str, tree: &[(&str, &[(&str, bool)])]) -> Vec<Readable> {
    let found = get_directory(fs, path, tree).map(|dir| {
        let listing = listing_from(tree, &dir);
        (dir, listing)
    });
    Filesystem::list_files(found)
}

const ROOT: &str = "/tmp/example.4sYt2a";

#[test]
fn test_getting_root_directory_node() {
    let subdir = format!("{}/subdir", ROOT);
    let tree: &[(&str, &[(&str, bool)])] = &[(ROOT, &[("subdir", true)]), (&subdir, &[("foo.txt", false)])];
    let filesystem = Filesystem::new(ROOT);

    match get_node(&filesystem, "/", tree) {
        Some(FilesystemNode::Browseable(dir)) => {
            assert_eq!(dir.name(), "example");
        }
        _ => assert!(false, "Expected root directory"),
    }
}

#[test]
fn filesystem_test_test_getting_root_file_node() {
    let tree: &[(&str, &[(&str, bool)])] = &[(ROOT, &[("foo.txt", false)])];
    let filesystem = Filesystem::new(ROOT);

    match get_node(&filesystem, "/foo.txt", tree) {
        Some(FilesystemNode::Readable(file)) => {
            assert_eq!(file.filename(), "foo.txt");
        }
        _ => assert!(false, "Expected a file"),
    }
}

#[test]
fn test_lists_files_in_root_path() {
    let tree: &[(&str, &[(&str, bool)])] = &[(ROOT, &[("my-temporary-note.txt", false)])];
    let filesystem = Filesystem::new(ROOT);
    let files_in_root: Vec<Readable> = list_files(&filesystem, "/", tree);
    assert_eq!(files_in_root.len(), 1);

    let filenames_in_root: Vec<&str> = files_in_root.iter().map(|x| x.filename()).collect();
    assert_eq!(filenames_in_root, vec!["my-temporary-note.txt"]);
}

#[test]
fn test_lists_files_in_relative_path() {
    let subdir = format!("{}/subdir", ROOT);
    let tree: &[(&str, &[(&str, bool)])] = &[(ROOT, &[("subdir", true)]), (&subdir, &[("foo.txt", false)])];
    let filesystem = Filesystem::new(ROOT);
    let files_in_root: Vec<Readable> = list_files(&filesystem, "subdir", tree);
    assert_eq!(files_in_root.len(), 1);

    let filenames_in_root: Vec<&str> = files_in_root.iter().map(|x| x.filename()).collect();
    assert_eq!(filenames_in_root, vec!["foo.txt"]);
}

#[test]
fn test_archive_in_root_as_directory() {
    let tree: &[(&str, &[(&str, bool)])] = &[(ROOT, &[("single-level-single-file-archive.rar", false)])];
    let filesystem = Filesystem::new(ROOT);
    let root_directory = get_directory(&filesystem, "/", tree).unwrap();
    let listing = listing_from(tree, &root_directory);

    assert_eq!(
        root_directory.list_files(&listing).unwrap().len(),
        0,
        "should not have any files"
    );

    let subdirectories = root_directory.list_subdirectories(&listing).unwrap();
    assert_eq!(subdirectories.len(), 1, "should have a directory");
    let subdirectory_names: Vec<&str> = subdirectories.iter().map(|x| x.name()).collect();
    assert_eq!(subdirectory_names, vec!["single-level-single-file-archive"]);
}

#[test]
fn directory_lookup_of_missing_or_file_path_fails() {
    let tree: &[(&str, &[(&str, bool)])] = &[(ROOT, &[("foo.txt", false), ("d", true)])];
    let filesystem = Filesystem::new(ROOT);
    assert!(get_directory(&filesystem, "/foo.txt", tree).is_none());
    assert!(get_directory(&filesystem, "/nowhere/d", tree).is_none());
    assert!(get_directory(&filesystem, "", tree).is_some());
    match get_directory(&filesystem, "//d//", tree) {
        Some(dir) => assert_eq!(dir.name(), "d"),
        None => unreachable!(),
    }
    assert!(list_files(&filesystem, "/nowhere", tree).is_empty());
}

#[test]
fn paths_are_split_into_components() {
    assert_eq!(split_path("/a//b/c/"), vec!["a", "b", "c"]);
    assert_eq!(split_path("///"), Vec::<String>::new());
    assert_eq!(split_path("x"), vec!["x"]);
}

#[test]
fn lookup_reads_one_listing_per_component() {
    let a = format!("{}/a", ROOT);
    let b = format!("{}/a/b", ROOT);
    let tree: &[(&str, &[(&str, bool)])] = &[(ROOT, &[("a", true)]), (&a, &[("b", true)]), (&b, &[("c.txt", false)])];
    let filesystem = Filesystem::new(ROOT);
    let mut step = filesystem.get_node("/a/b/c.txt");
    let mut reads = 0;
    let found = loop {
        match step {
            NodeLookup::Found(node) => break node,
            NodeLookup::Pending(walk) => {
                reads += 1;
                let listing = listing_from(tree, walk.current());
                step = walk.next_node(&listing).unwrap();
            }
        }
    };
    assert_eq!(reads, 3);
    assert_eq!(found.unwrap().name(), "c.txt");
}
