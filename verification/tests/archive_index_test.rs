use archivefs::archive::Archive;
use archivefs::directory_archive::{is_archive, DirectoryArchive};
use archivefs::node::{EntryHeader, Node};

fn header(pathname: &str, size: i64, filetype: u32) -> EntryHeader {
    EntryHeader { pathname: pathname.to_string(), size, filetype }
}

#[test]
fn entries_are_found_under_their_path_led_by_a_slash() {
    let mut archive = Archive::empty("/data/pack.rar");
    archive.add_entry(header("a.txt", 5, 0o100000));
    archive.add_entry(header("dir/", 0, 16384));
    assert_eq!(archive.list_files_in_root(), vec!["/a.txt", "/dir/"]);

    let node = archive.get_node_for_path("/a.txt").unwrap();
    assert_eq!(node.name, "a.txt");
    assert_eq!(node.archive_path(), "/data/pack.rar");
    assert_eq!(node.size(), 5);
    assert_eq!(node.buffer_size(), 8192);
    assert!(!node.is_directory());
    assert!(archive.get_node_for_path("/dir/").unwrap().is_directory());
    assert!(archive.get_node_for_path("a.txt").is_none());
}

#[test]
fn adding_an_entry_twice_keeps_one_key() {
    let mut archive = Archive::empty("/data/pack.rar");
    archive.add_entry(header("a.txt", 5, 0o100000));
    archive.add_entry(header("b.txt", 1, 0o100000));
    archive.add_entry(header("a.txt", 9, 0o100000));
    assert_eq!(archive.list_files_in_root(), vec!["/a.txt", "/b.txt"]);
    assert_eq!(archive.get_node_for_path("/a.txt").unwrap().size(), 9);
    assert_eq!(archive.get_node_for_path("/b.txt").unwrap().size(), 1);
}

#[test]
fn directory_listing_hides_folders_and_long_keys() {
    let mut archive = Archive::empty("/data/pack.rar");
    archive.add_entry(header("a", 1, 0o100000));
    archive.add_entry(header("d/", 0, 16384));
    archive.add_entry(header("longer-name.txt", 1, 0o100000));
    let names: Vec<String> = archive.get_nodes_in_directory("/xy").iter().map(|n| n.name.clone()).collect();
    assert_eq!(names, vec!["a"]);
}

#[test]
fn directory_node_has_no_entry() {
    let node = Node::new(String::from("x"), None, String::from("x"), 8192);
    assert!(node.is_directory());
    assert!(node.entry().is_none());
}

#[test]
fn only_rar_files_are_indexed() {
    assert!(is_archive("/data/movie.rar"));
    assert!(!is_archive("/data/movie.r00"));
    assert!(!is_archive("/data/movie.zip"));
    assert!(!is_archive("/data/.rar"));
}

#[test]
fn archives_below_a_directory_are_found_by_name() {
    let mut pack = Archive::empty("/data/pack.rar");
    pack.add_entry(header("a.txt", 5, 0o100000));
    let mut directory = DirectoryArchive::empty();
    directory.add_archive(String::from("pack"), pack);

    let roots: Vec<String> = directory.list_files_in_root().iter().map(|n| n.name.clone()).collect();
    assert_eq!(roots, vec!["pack"]);

    let dir = directory.get_node_for_path("/pack").unwrap();
    assert!(dir.is_directory());
    assert_eq!(dir.name, "/pack");
    assert_eq!(dir.archive_path(), "");

    let file = directory.get_node_for_path("/pack/a.txt").unwrap();
    assert_eq!(file.size(), 5);
    assert!(directory.get_node_for_path("/other").is_none());

    let listed: Vec<String> = directory.get_nodes_in_directory("/pack").iter().map(|n| n.name.clone()).collect();
    assert_eq!(listed, Vec::<String>::new());
    assert!(directory.get_nodes_in_directory("/other").is_empty());
}

#[test]
fn node_recognises_its_entry() {
    let node = Node::new(String::from("/p.rar"), Some(header("a/b.txt", 1, 0o100000)), String::from("a/b.txt"), 8192);
    assert!(node.is_entry("a/b.txt"));
    assert!(!node.is_entry("b.txt"));
    let directory = Node::new(String::from("p"), None, String::from("p"), 8192);
    assert!(!directory.is_entry("p"));
}
