//! Field files, checksums and texts of errors.
use uvr_core::checksum::{md5_hex, md5_hex_digest, sha256_hex, sha256_hex_digest, verify};
use uvr_core::dcf::parse_dcf_fields;
use uvr_core::error::UvrError;
use uvr_core::package_name;
use uvr_core::subdirectory;
use uvr_core::text_map::TextMap;

#[test]
fn basic_dcf() {
    let input = "Package: ggplot2\nVersion: 3.4.4\nImports: dplyr,\n  rlang\n";
    let fields = parse_dcf_fields(input);
    assert_eq!(fields.get("Package").unwrap(), "ggplot2");
    assert_eq!(fields.get("Version").unwrap(), "3.4.4");
    assert_eq!(fields.get("Imports").unwrap(), "dplyr, rlang");
}

#[test]
fn continuation_with_tabs() {
    let input = "Description: A long\n\tdescription here\n";
    let fields = parse_dcf_fields(input);
    assert_eq!(fields.get("Description").unwrap(), "A long description here");
}

#[test]
fn colon_in_value() {
    let input = "URL: https://example.com\n";
    let fields = parse_dcf_fields(input);
    assert_eq!(fields.get("URL").unwrap(), "https://example.com");
}

#[test]
fn later_field_replaces_earlier_one() {
    let fields = parse_dcf_fields("A: 1\nB: 2\nA: 3\n");
    assert_eq!(fields.get("A").unwrap(), "3");
    assert_eq!(fields.len(), 2);
}

#[test]
fn sha256_roundtrip() {
    let data = b"hello world";
    let checksum = sha256_hex(data);
    assert!(checksum.starts_with("sha256:"));
    verify(&checksum, data, "test").unwrap();
}

#[test]
fn md5_roundtrip() {
    let data = b"hello world";
    let checksum = md5_hex(data);
    assert!(checksum.starts_with("md5:"));
    verify(&checksum, data, "test").unwrap();
}

#[test]
fn mismatch_errors() {
    let data = b"hello";
    let checksum = sha256_hex(data);
    let result = verify(&checksum, b"world", "mypkg");
    assert!(result.is_err());
}

#[test]
fn digests_of_known_data() {
    assert_eq!(
        sha256_hex_digest(b"hello world"),
        "b94d27b9934d3e08a52e52d7da7dabfac484efe37a5380ee9088f7ace2efcde9"
    );
    assert_eq!(md5_hex_digest(b"hello world"), "5eb63bbbe01eeed093cb22bb8f5acdc3");
}

#[test]
fn mismatch_names_package_and_both_checksums() {
    let good = md5_hex(b"hello");
    match verify(&good, b"world", "mypkg") {
        Err(UvrError::ChecksumMismatch { package, expected, actual }) => {
            assert_eq!(package, "mypkg");
            assert_eq!(expected, good);
            assert_eq!(actual, md5_hex(b"world"));
        }
        other => panic!("unexpected: {other:?}"),
    }
}

#[test]
fn texts_of_errors() {
    assert_eq!(UvrError::RNotFound.message().is_empty(), false);
    assert!(UvrError::PackageNotFound("foo".to_string()).message().contains("foo"));
    assert_eq!(UvrError::Other("as it is".to_string()).message(), "as it is");
}

#[test]
fn map_keeps_keys_in_order() {
    let mut m: TextMap<String> = TextMap::new();
    m.insert("b", "2".to_string());
    m.insert("a", "1".to_string());
    m.insert("c", "3".to_string());
    m.insert("b", "22".to_string());
    assert_eq!(m.len(), 3);
    assert_eq!((m.key_at(0), m.key_at(1), m.key_at(2)), ("a", "b", "c"));
    assert_eq!(m.value_at(1), "22");
    assert!(m.remove("b"));
    assert!(!m.remove("b"));
    assert!(m.get("b").is_none());
    assert_eq!(m.len(), 2);
}

#[test]
fn names_of_packages() {
    assert!(package_name::is_valid("ggplot2"));
    assert!(package_name::is_valid("data.table"));
    assert!(!package_name::is_valid("2pac"));
    assert!(!package_name::is_valid("a-b"));
    assert!(!package_name::is_valid("ends."));
    assert!(!package_name::is_valid(""));
}

#[test]
fn directories_in_repositories() {
    assert!(subdirectory::validate("r-package").is_ok());
    assert!(subdirectory::validate("bindings/r").is_ok());
    assert!(subdirectory::validate("../up").is_err());
    assert!(subdirectory::validate("/root").is_err());
    assert!(subdirectory::validate("").is_err());
}
