//! Tests for the binary decoder: UTF-16LE strings, GUIDs, device paths.
use acetone::codec::{char16_to_ascii, char16_to_string, guid_at, parse_device_path,
    scan_default_loader, scan_partition_guid, DpNode};

/// UTF-16LE encoding of an ASCII string, with the NUL terminator.
fn utf16le(s: &str) -> Vec<u8> {
    let mut v = Vec::new();
    for b in s.bytes() {
        v.push(b);
        v.push(0);
    }
    v.push(0);
    v.push(0);
    v
}

#[test]
fn decodes_ascii_string_and_consumed_length() {
    let bytes = utf16le("Fedora");
    let (s, consumed) = char16_to_string(&bytes);
    assert_eq!(s, "Fedora");
    assert_eq!(consumed, 14);
}

#[test]
fn non_ascii_units_become_single_spaces_in_place() {
    // 'A', U+039C (greek capital mu), 'B', U+4E2D (CJK), NUL
    let bytes = vec![0x41, 0x00, 0x9c, 0x03, 0x42, 0x00, 0x2d, 0x4e, 0x00, 0x00];
    let (s, consumed) = char16_to_string(&bytes);
    assert_eq!(s, "A B ");
    assert_eq!(s.len(), 4);
    assert_eq!(consumed, 10);
}

#[test]
fn empty_buffer_decodes_to_empty_string() {
    let bytes: Vec<u8> = Vec::new();
    let (s, consumed) = char16_to_string(&bytes);
    assert_eq!(s, "");
    assert_eq!(consumed, 2);
}

#[test]
fn unterminated_buffer_decodes_best_effort() {
    // no NUL unit, and a trailing odd byte
    let bytes = vec![0x48, 0x00, 0x49, 0x00, 0x4a];
    let (s, consumed) = char16_to_string(&bytes);
    assert_eq!(s, "HI");
    assert_eq!(consumed, 6);
}

#[test]
fn char16_to_ascii_replaces_high_units() {
    let bytes = vec![0x41, 0x00, 0xff, 0xff, 0x00, 0x00];
    let (v, consumed) = char16_to_ascii(&bytes);
    assert_eq!(v, vec![0x41, 0x20]);
    assert_eq!(consumed, 6);
}

/// A GPT hard-drive media node (type 4, sub-type 1, length 42) carrying the
/// given 16 signature bytes.
fn gpt_node_bytes(sig: &[u8; 16]) -> Vec<u8> {
    let mut v = vec![4u8, 1, 42, 0];
    v.extend_from_slice(&[0u8; 20]); // partition number, start, size
    v.extend_from_slice(sig);
    v.push(2); // partition format: GPT
    v.push(2); // signature type: GUID
    v
}

const SIG: [u8; 16] = [
    0x78, 0x56, 0x34, 0x12, 0xbc, 0x9a, 0xf0, 0xde, 0x11, 0x22, 0x33, 0x44, 0x55, 0x66, 0x77,
    0x88,
];

const SIG_U128: u128 = 0x12345678_9abc_def0_1122334455667788;

#[test]
fn guid_is_read_in_mixed_little_endian_order() {
    let data = SIG.to_vec();
    assert_eq!(guid_at(&data, 0), SIG_U128);
}

#[test]
fn device_path_parses_nodes_until_end_node() {
    let mut path = gpt_node_bytes(&SIG);
    path.extend_from_slice(&[0x7f, 0xff, 4, 0]); // end-of-path node
    path.extend_from_slice(&[9, 9, 8, 0, 1, 2, 3, 4]); // garbage past the end
    let nodes = parse_device_path(&path);
    assert_eq!(nodes.len(), 1);
    assert_eq!(nodes[0].node_type, 4);
    assert_eq!(nodes[0].sub_type, 1);
    assert_eq!(nodes[0].data.len(), 38);
}

#[test]
fn extracted_partition_uuid_matches_encoded_guid() {
    let nodes = parse_device_path(&gpt_node_bytes(&SIG));
    assert_eq!(scan_partition_guid(&nodes), Some(SIG_U128));
}

#[test]
fn non_gpt_signature_yields_no_uuid() {
    let mut bytes = gpt_node_bytes(&SIG);
    let last = bytes.len() - 1;
    bytes[last] = 1; // signature type: MBR, not GUID
    let nodes = parse_device_path(&bytes);
    assert_eq!(scan_partition_guid(&nodes), None);
}

#[test]
fn truncated_node_is_dropped() {
    let mut bytes = gpt_node_bytes(&SIG);
    bytes.truncate(30); // header promises 42 bytes, fewer remain
    let nodes = parse_device_path(&bytes);
    assert_eq!(nodes.len(), 0);
}

/// A file-path media node (type 4, sub-type 4) for the given path.
fn file_path_node(path: &str) -> Vec<u8> {
    let encoded = utf16le(path);
    let len = 4 + encoded.len();
    let mut v = vec![4u8, 4, (len % 256) as u8, (len / 256) as u8];
    v.extend_from_slice(&encoded);
    v
}

#[test]
fn default_loader_path_is_detected_case_insensitively() {
    let bytes = file_path_node("\\EFI\\BOOT\\BOOTX64.EFI");
    let nodes = parse_device_path(&bytes);
    assert!(scan_default_loader(&nodes));
}

#[test]
fn specific_loader_path_is_no_default() {
    let bytes = file_path_node("\\EFI\\fedora\\shimx64.efi");
    let nodes = parse_device_path(&bytes);
    assert!(!scan_default_loader(&nodes));
}

#[test]
fn aarch64_default_loader_is_detected() {
    let bytes = file_path_node("\\efi\\boot\\bootaa64.efi");
    let nodes = parse_device_path(&bytes);
    assert!(scan_default_loader(&nodes));
}

#[test]
fn ia32_default_loader_is_detected() {
    let bytes = file_path_node("\\EFI\\BOOT\\BOOTIA32.EFI");
    let nodes = parse_device_path(&bytes);
    assert!(scan_default_loader(&nodes));
}

#[test]
fn truncated_ia32_name_is_no_default() {
    // not a well-known loader name: the IA32 default is bootia32.efi
    let bytes = file_path_node("\\efi\\boot\\bootia.efi");
    let nodes = parse_device_path(&bytes);
    assert!(!scan_default_loader(&nodes));
}

#[test]
fn manual_node_scan_sees_last_gpt_node() {
    let first = DpNode { node_type: 4, sub_type: 1, data: vec![0; 38] };
    let mut data = vec![0u8; 20];
    data.extend_from_slice(&SIG);
    data.push(2);
    data.push(2);
    let second = DpNode { node_type: 4, sub_type: 1, data };
    // the first node's signature-type byte is 0, so only the second counts
    let nodes = vec![first, second];
    assert_eq!(scan_partition_guid(&nodes), Some(SIG_U128));
}
