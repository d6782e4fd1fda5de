use localdrop::storage::decimal_bytes;
use localdrop::storage::destination_name;
use localdrop::storage::resolve_unique_name;
use localdrop::storage::split_file_name;
use localdrop::storage::build_numbered_name;

fn names(list: &[&str]) -> Vec<Vec<u8>> {
    list.iter().map(|s| s.as_bytes().to_vec()).collect()
}

#[test]
fn second_upload_of_same_name_gets_counter_before_extension() {
    let existing = names(&["a.txt"]);
    let resolved = resolve_unique_name(b"a.txt".to_vec(), &existing);
    assert_eq!(resolved, b"a (1).txt".to_vec());
}

#[test]
fn second_upload_of_extensionless_name_gets_counter() {
    let existing = names(&["a"]);
    let resolved = resolve_unique_name(b"a".to_vec(), &existing);
    assert_eq!(resolved, b"a (1)".to_vec());
}

#[test]
fn free_name_is_kept_as_is() {
    let existing = names(&["b.txt"]);
    let resolved = resolve_unique_name(b"a.txt".to_vec(), &existing);
    assert_eq!(resolved, b"a.txt".to_vec());
}

#[test]
fn counter_skips_every_taken_alternative() {
    let existing = names(&["a.txt", "a (1).txt", "a (2).txt"]);
    let resolved = resolve_unique_name(b"a.txt".to_vec(), &existing);
    assert_eq!(resolved, b"a (3).txt".to_vec());
}

#[test]
fn only_the_last_dot_starts_the_extension() {
    let existing = names(&["archive.tar.gz"]);
    let resolved = resolve_unique_name(b"archive.tar.gz".to_vec(), &existing);
    assert_eq!(resolved, b"archive.tar (1).gz".to_vec());
}

#[test]
fn leading_dot_name_has_no_extension() {
    let existing = names(&[".bashrc"]);
    let resolved = resolve_unique_name(b".bashrc".to_vec(), &existing);
    assert_eq!(resolved, b".bashrc (1)".to_vec());
}

#[test]
fn empty_name_falls_back_to_a_fixed_stem() {
    let existing = names(&[""]);
    let resolved = resolve_unique_name(b"".to_vec(), &existing);
    assert_eq!(resolved, b"file (1)".to_vec());
}

#[test]
fn split_separates_stem_and_extension() {
    let (stem, ext) = split_file_name(b"report.pdf");
    assert_eq!(stem, b"report".to_vec());
    assert_eq!(ext, b"pdf".to_vec());
    let (stem, ext) = split_file_name(b"noext");
    assert_eq!(stem, b"noext".to_vec());
    assert_eq!(ext, b"".to_vec());
}

#[test]
fn numbered_name_is_assembled_exactly() {
    let name = build_numbered_name(&b"a".to_vec(), &b"txt".to_vec(), 12);
    assert_eq!(name, b"a (12).txt".to_vec());
}

#[test]
fn decimal_rendering_is_exact() {
    assert_eq!(decimal_bytes(0), b"0".to_vec());
    assert_eq!(decimal_bytes(7), b"7".to_vec());
    assert_eq!(decimal_bytes(10), b"10".to_vec());
    assert_eq!(decimal_bytes(65535), b"65535".to_vec());
}

#[test]
fn destination_name_sanitizes_path_traversal() {
    let existing: Vec<Vec<u8>> = Vec::new();
    let resolved = destination_name("../a.txt", &existing);
    assert_eq!(resolved, b"..a.txt".to_vec());
}

#[test]
fn destination_name_strips_illegal_characters() {
    let existing: Vec<Vec<u8>> = Vec::new();
    let resolved = destination_name("dir/sub\\file*?.txt", &existing);
    assert_eq!(resolved, b"dirsubfile.txt".to_vec());
}

#[test]
fn destination_name_resolves_collision_after_sanitizing() {
    let existing = names(&["a.txt"]);
    let resolved = destination_name("a.txt", &existing);
    assert_eq!(resolved, b"a (1).txt".to_vec());
}
