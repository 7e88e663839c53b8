use archivefs::patterns::{check_naming_patterns, display_name_for_stem, rar_volume_extension};

#[test]
fn both_naming_patterns_compile() {
    assert!(check_naming_patterns().is_ok());
}

#[test]
fn a_trailing_tar_is_dropped_from_the_name() {
    assert_eq!(display_name_for_stem("backup.tar"), "backup");
    assert_eq!(display_name_for_stem("backup.tar.tar"), "backup.tar");
    assert_eq!(display_name_for_stem("tarball"), "tarball");
    assert_eq!(display_name_for_stem("backup.tarx"), "backup.tarx");
    assert_eq!(display_name_for_stem("a.tar.b"), "a.tar.b");
    assert_eq!(display_name_for_stem(".tar"), "");
}

#[test]
fn later_volume_extensions_are_r_and_two_digits() {
    assert!(rar_volume_extension("r00"));
    assert!(rar_volume_extension("r01"));
    assert!(rar_volume_extension("r99"));
    assert!(!rar_volume_extension("rar"));
    assert!(!rar_volume_extension("r1"));
    assert!(!rar_volume_extension("r100"));
    assert!(!rar_volume_extension("R01"));
    assert!(!rar_volume_extension("zip"));
    assert!(!rar_volume_extension(""));
}
