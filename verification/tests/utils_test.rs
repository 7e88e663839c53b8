use archivefs::utils::filename_without_extension;

#[test]
fn utils_filename_without_rar_extension_works() {
    let filename = String::from("foobar.rar");
    let extension = String::from(".rar");
    assert_eq!(
        filename_without_extension(&filename, &extension),
        String::from("foobar")
    );

    let filename = String::from("foobar.zip");
    assert_eq!(
        filename_without_extension(&filename, &extension),
        String::from("foobar.zip")
    );
}

#[test]
fn utils_test_filename_without_rar_extension_works() {
    let filename = String::from("foobar.rar");
    let extension = String::from(".rar");
    assert_eq!(
        filename_without_extension(&filename, &extension),
        String::from("foobar")
    );

    let filename = String::from("foobar.zip");
    assert_eq!(
        filename_without_extension(&filename, &extension),
        String::from("foobar.zip")
    );
}

use archivefs::utils::{archive_filenames_from, next_volume_probe, does_file_exist, get_all_archive_filenames, is_multipart_rar_file, multipart_marker, rar_part_filename};
use tempdir::TempDir;

#[test]
fn every_occurrence_of_the_extension_is_removed() {
    let filename = String::from("a.rar.b.rar");
    assert_eq!(filename_without_extension(&filename, ".rar"), "a.b");
    let filename = String::from("..rarrar");
    assert_eq!(filename_without_extension(&filename, ".rar"), ".rar");
    let filename = String::from("unchanged");
    assert_eq!(filename_without_extension(&filename, ""), "unchanged");
}

#[test]
fn volume_names_are_zero_padded() {
    assert_eq!(rar_part_filename("/x/movie", 0), "/x/movie.r00");
    assert_eq!(rar_part_filename("/x/movie", 7), "/x/movie.r07");
    assert_eq!(rar_part_filename("/x/movie", 42), "/x/movie.r42");
    assert_eq!(rar_part_filename("/x/movie", 123), "/x/movie.r123");
}

#[test]
fn marker_volume_of_a_rar_archive() {
    assert_eq!(multipart_marker(&String::from("/x/movie.rar")), Some(String::from("/x/movie.r01")));
    assert_eq!(multipart_marker(&String::from("/x/movie.zip")), None);
}

#[test]
fn single_archive_has_one_part() {
    let tmp_dir = TempDir::new("single_archive_has_one_part").unwrap();
    let path = tmp_dir.path().join("alone.rar");
    let path = path.to_str().unwrap();
    assert!(!is_multipart_rar_file(&String::from(path)));
    assert_eq!(get_all_archive_filenames(path), vec![String::from(path)]);
    assert_eq!(get_all_archive_filenames("/no/such/archive.zip"), vec![String::from("/no/such/archive.zip")]);
    assert!(does_file_exist(tmp_dir.path().to_str().unwrap()));
    assert!(!does_file_exist(path));
}

fn strings(names: &[&str]) -> Vec<String> {
    names.iter().map(|n| String::from(*n)).collect()
}

#[test]
fn volumes_are_listed_up_to_the_first_missing_one() {
    assert_eq!(
        archive_filenames_from("/t/a.rar", true, &vec![true, true, true, false]),
        strings(&["/t/a.rar", "/t/a.r00", "/t/a.r01", "/t/a.r02"])
    );
    assert_eq!(
        archive_filenames_from("/t/a.rar", true, &vec![true, false, true]),
        strings(&["/t/a.rar", "/t/a.r00"])
    );
    assert_eq!(
        archive_filenames_from("/t/a.rar", true, &vec![true, true]),
        strings(&["/t/a.rar", "/t/a.r00", "/t/a.r01"])
    );
}

#[test]
fn scan_starts_at_volume_zero() {
    assert_eq!(archive_filenames_from("/t/a.rar", true, &vec![false, true, true]), strings(&["/t/a.rar"]));
    assert_eq!(archive_filenames_from("/t/a.rar", true, &vec![]), strings(&["/t/a.rar"]));
}

#[test]
fn without_the_marker_volume_only_the_path_is_listed() {
    assert_eq!(archive_filenames_from("/t/a.rar", false, &vec![true, true]), strings(&["/t/a.rar"]));
    assert_eq!(archive_filenames_from("/t/a.zip", true, &vec![true, true]), strings(&["/t/a.zip"]));
}

#[test]
fn volumes_are_probed_in_order_from_zero() {
    assert_eq!(next_volume_probe("/t/a.rar", &vec![]), Some(String::from("/t/a.r00")));
    assert_eq!(next_volume_probe("/t/a.rar", &vec![true]), Some(String::from("/t/a.r01")));
    assert_eq!(next_volume_probe("/t/a.rar", &vec![true, true]), Some(String::from("/t/a.r02")));
    assert_eq!(next_volume_probe("/t/a.rar", &vec![true, false]), None);
    assert_eq!(next_volume_probe("/t/a.zip", &vec![]), None);
}
