use archivefs::File;
use archivefs::path::{join_path, name_extension, name_stem, path_extension, path_file_name, path_file_stem};
use archivefs::text::{decimal_string, has_suffix, remove_all, text_equal, two_digit_string};

#[test]
fn file_name_follows_std_path() {
    for p in ["foo.txt", "/tmp/foo.txt", "foo.txt/.", "foo.txt/.//", "foo.txt/..", "/", "", ".", "..", "a/./b", "//x//", "./", "/a/b/../"] {
        let expected = std::path::Path::new(p).file_name().map(|s| s.to_str().unwrap());
        assert_eq!(path_file_name(p), expected, "file name of {:?}", p);
    }
}

#[test]
fn stem_and_extension_follow_std_path() {
    for p in ["foo.txt", "/x/a.tar.gz", ".hidden", ".hidden.txt", "noext", "trailing.", "/", "a/..", "x/y.z/", "..x"] {
        let path = std::path::Path::new(p);
        assert_eq!(path_file_stem(p), path.file_stem().map(|s| s.to_str().unwrap()), "stem of {:?}", p);
        assert_eq!(path_extension(p), path.extension().map(|s| s.to_str().unwrap()), "extension of {:?}", p);
    }
    assert_eq!(name_stem("a.tar.gz"), "a.tar");
    assert_eq!(name_extension("a.tar.gz"), Some("gz"));
    assert_eq!(name_extension(".gz"), None);
}

#[test]
fn join_follows_std_path() {
    for (dir, name) in [("/tmp", "a"), ("/tmp/", "a"), ("", "a"), ("rel", "b.txt"), ("/", "x")] {
        let expected = std::path::Path::new(dir).join(name);
        assert_eq!(join_path(dir, name), expected.to_str().unwrap());
    }
}

#[test]
fn text_helpers() {
    assert_eq!(remove_all("abcabc", "bc"), "aa");
    assert_eq!(remove_all("aaa", "aa"), "a");
    assert_eq!(remove_all("xyz", "xyz"), "");
    assert!(has_suffix("movie.rar", ".rar"));
    assert!(!has_suffix("rar", ".rar"));
    assert!(text_equal("é", "é"));
    assert!(!text_equal("a", "ab"));
    assert_eq!(decimal_string(0), "0");
    assert_eq!(decimal_string(4294967295), "4294967295");
    assert_eq!(two_digit_string(3), "03");
    assert_eq!(two_digit_string(10), "10");
    for n in [0u32, 1, 9, 10, 99, 100, 1000] {
        assert_eq!(two_digit_string(n), format!("{:02}", n));
        assert_eq!(remove_all(&format!("x{}y{}", n, n), &n.to_string()), "xy");
    }
}

#[test]
fn joined_entry_is_named_by_the_entry() {
    for (dir, name) in [("/tmp", "a.txt"), ("/tmp/", "b"), ("", "c.d"), ("x/.", "y")] {
        let joined = join_path(dir, name);
        assert_eq!(File::new(&joined).filename(), name);
    }
}

#[test]
fn stem_dot_extension_is_the_name() {
    for name in ["a.tar.gz", "x.y", ".h.i", "t."] {
        let ext = name_extension(name).unwrap();
        assert_eq!(format!("{}.{}", name_stem(name), ext), name);
    }
    assert_eq!(name_stem(".hidden"), ".hidden");
    assert_eq!(name_stem("plain"), "plain");
}
