//! Tests for the ASCII helpers.
use acetone::ascii::{bytes_contain, lower_bytes, str_eq, str_starts_with};

#[test]
fn lower_bytes_folds_only_ascii_uppercase() {
    let v = vec![b'A', b'z', b'0', 0x5b, 0x40, 0xc4];
    assert_eq!(lower_bytes(&v), vec![b'a', b'z', b'0', 0x5b, 0x40, 0xc4]);
}

#[test]
fn bytes_contain_finds_runs_anywhere() {
    let hay = b"\\efi\\boot\\bootx64.efi".to_vec();
    assert!(bytes_contain(&hay, &b"bootx64".to_vec()));
    assert!(bytes_contain(&hay, &b"\\efi".to_vec()));
    assert!(bytes_contain(&hay, &b".efi".to_vec()));
    assert!(!bytes_contain(&hay, &b"bootia".to_vec()));
    assert!(bytes_contain(&hay, &Vec::new()));
    assert!(!bytes_contain(&Vec::new(), &b"x".to_vec()));
}

#[test]
fn string_prefix_and_equality_are_character_wise() {
    assert!(str_starts_with("Windows Boot Manager on disk", "Windows Boot Manager"));
    assert!(!str_starts_with("Windows", "Windows Boot Manager"));
    assert!(str_starts_with("anything", ""));
    assert!(str_eq("same", "same"));
    assert!(!str_eq("same", "sane"));
    assert!(!str_eq("same", "same "));
}
