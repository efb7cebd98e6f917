//! Tests for firmware boot-variable decoding, annotation, deduplication
//! and visibility.
use acetone::disks::{disk_display_name, DiskMap};
use acetone::uefi::{annotate_entries, dedup_entries, entries_from_variables, firmware_entries,
    format_boot_var_name, parse_boot_var_name, parse_boot_variable, EfiEntry,
    BOOT_NEXT_ATTRIBUTES};

/// UTF-16LE encoding of an ASCII string, with the NUL terminator.
fn utf16le(s: &str) -> Vec<u8> {
    let mut v = Vec::new();
    for b in s.bytes() {
        v.push(b);
        v.push(0);
    }
    v.push(0);
    v.push(0);
    v
}

/// A boot-variable payload: attributes, file-path-list length, the
/// description, then the device-path bytes.
fn payload(description: &str, device_path: &[u8]) -> Vec<u8> {
    let mut v = vec![1u8, 0, 0, 0]; // attributes
    v.push((device_path.len() % 256) as u8); // file-path-list length
    v.push((device_path.len() / 256) as u8);
    v.extend_from_slice(&utf16le(description));
    v.extend_from_slice(device_path);
    v
}

const SIG: [u8; 16] = [
    0x78, 0x56, 0x34, 0x12, 0xbc, 0x9a, 0xf0, 0xde, 0x11, 0x22, 0x33, 0x44, 0x55, 0x66, 0x77,
    0x88,
];

const SIG_U128: u128 = 0x12345678_9abc_def0_1122334455667788;

fn gpt_node_bytes(sig: &[u8; 16]) -> Vec<u8> {
    let mut v = vec![4u8, 1, 42, 0];
    v.extend_from_slice(&[0u8; 20]);
    v.extend_from_slice(sig);
    v.push(2);
    v.push(2);
    v
}

fn entry(id: u16, description: &str, partuuid: Option<u128>, is_default: bool) -> EfiEntry {
    EfiEntry { id, description: description.to_string(), partuuid, is_default }
}

#[test]
fn parses_well_formed_boot_variable_names() {
    assert_eq!(parse_boot_var_name("Boot0001"), Some(1));
    assert_eq!(parse_boot_var_name("Boot1a2b"), Some(0x1a2b));
    assert_eq!(parse_boot_var_name("BootFFFF"), Some(0xffff));
}

#[test]
fn rejects_malformed_boot_variable_names() {
    assert_eq!(parse_boot_var_name("Boot001"), None); // too short
    assert_eq!(parse_boot_var_name("Boot00001"), None); // too long
    assert_eq!(parse_boot_var_name("Boot00G1"), None); // not hex
    assert_eq!(parse_boot_var_name("BootOrder"), None);
    assert_eq!(parse_boot_var_name("Timeout1"), None);
    assert_eq!(parse_boot_var_name(""), None);
}

#[test]
fn boot_id_round_trips_through_its_name() {
    assert_eq!(format_boot_var_name(0x1a2b), "Boot1A2B");
    assert_eq!(parse_boot_var_name(&format_boot_var_name(0x1a2b)), Some(0x1a2b));
    assert_eq!(format_boot_var_name(0), "Boot0000");
    assert_eq!(parse_boot_var_name(&format_boot_var_name(65535)), Some(65535));
}

#[test]
fn parses_payload_description_and_partition_uuid() {
    let buf = payload("Fedora", &gpt_node_bytes(&SIG));
    let e = parse_boot_variable(7, &buf);
    assert_eq!(e.id, 7);
    assert_eq!(e.description, "Fedora");
    assert_eq!(e.partuuid, Some(SIG_U128));
    assert!(!e.is_default);
}

#[test]
fn short_payload_degrades_to_empty_entry() {
    let e = parse_boot_variable(3, &[1, 0, 0]);
    assert_eq!(e.id, 3);
    assert_eq!(e.description, "");
    assert_eq!(e.partuuid, None);
    assert!(!e.is_default);
}

#[test]
fn enumeration_skips_variables_with_malformed_names() {
    let vars = vec![
        ("Boot0001".to_string(), payload("One", &[])),
        ("BootOrder".to_string(), payload("ignored", &[])),
        ("Boot0002".to_string(), payload("Two", &[])),
    ];
    let entries = entries_from_variables(&vars);
    assert_eq!(entries.len(), 2);
    assert_eq!(entries[0].description, "One");
    assert_eq!(entries[1].description, "Two");
    assert_eq!(entries[0].id, 1);
    assert_eq!(entries[1].id, 2);
}

#[test]
fn annotation_appends_disk_name_for_known_partition() {
    let mut dm = DiskMap::new();
    dm.insert(SIG_U128, "ATA Foo SSD".to_string());
    let entries = vec![
        entry(1, "Fedora", Some(SIG_U128), false),
        entry(2, "Other", Some(99), false),
        entry(3, "NoUuid", None, false),
    ];
    let out = annotate_entries(entries, &dm);
    assert_eq!(out[0].description, "Fedora on ATA Foo SSD");
    assert_eq!(out[1].description, "Other");
    assert_eq!(out[2].description, "NoUuid");
}

#[test]
fn disk_map_insert_overwrites_and_get_misses_unknown() {
    let mut dm = DiskMap::new();
    dm.insert(5, "first".to_string());
    dm.insert(5, "second".to_string());
    assert_eq!(dm.get(5).map(|s| s.as_str()), Some("second"));
    assert!(dm.get(6).is_none());
}

#[test]
fn disk_display_name_trims_one_trailing_space() {
    assert_eq!(disk_display_name("ATA", "Foo SSD "), "ATA Foo SSD");
    assert_eq!(disk_display_name("ATA", "Foo SSD"), "ATA Foo SSD");
    // only one space goes
    assert_eq!(disk_display_name("ATA", "Foo  "), "ATA Foo ");
    assert_eq!(disk_display_name("", ""), "");
}

#[test]
fn dedup_drops_default_duplicate_of_same_partition() {
    let entries = vec![
        entry(1, "Fedora", Some(SIG_U128), false),
        entry(2, "UEFI OS", Some(SIG_U128), true),
    ];
    let out = dedup_entries(entries);
    assert_eq!(out.len(), 1);
    assert_eq!(out[0].description, "Fedora");
    assert!(!out[0].is_default);
}

#[test]
fn dedup_keeps_lone_default_entry() {
    let entries = vec![
        entry(1, "UEFI OS", Some(SIG_U128), true),
        entry(2, "Other", Some(99), false),
    ];
    let out = dedup_entries(entries);
    assert_eq!(out.len(), 2);
}

#[test]
fn dedup_keeps_default_entry_without_partition_uuid() {
    let entries = vec![
        entry(1, "UEFI OS", None, true),
        entry(2, "Fedora", Some(SIG_U128), false),
    ];
    let out = dedup_entries(entries);
    assert_eq!(out.len(), 2);
}

#[test]
fn firmware_pipeline_decodes_annotates_and_dedups() {
    let mut dm = DiskMap::new();
    dm.insert(SIG_U128, "ATA Foo SSD".to_string());
    let gpt = gpt_node_bytes(&SIG);
    let mut default_path = gpt.clone();
    // append a file-path node naming the default x64 loader
    let loader = "\\EFI\\BOOT\\BOOTX64.EFI";
    let mut encoded = Vec::new();
    for b in loader.bytes() {
        encoded.push(b);
        encoded.push(0);
    }
    encoded.push(0);
    encoded.push(0);
    default_path.push(4);
    default_path.push(4);
    default_path.push((4 + encoded.len()) as u8);
    default_path.push(0);
    default_path.extend_from_slice(&encoded);
    let vars = vec![
        ("Boot0000".to_string(), payload("Fedora", &gpt)),
        ("Boot0001".to_string(), payload("UEFI OS", &default_path)),
    ];
    let out = firmware_entries(&vars, &dm);
    assert_eq!(out.len(), 1);
    assert_eq!(out[0].description, "Fedora on ATA Foo SSD");
}

#[test]
fn windows_boot_manager_is_visible_uefi_os_is_hidden() {
    let wbm = entry(1, "Windows Boot Manager", None, false);
    let uefi_os = entry(2, "UEFI OS", None, false);
    assert!(!wbm.is_hidden());
    assert!(uefi_os.is_hidden());
    // the annotated form stays visible
    let wbm_on = entry(1, "Windows Boot Manager on ATA Foo", None, false);
    assert!(!wbm_on.is_hidden());
}

#[test]
fn boot_next_value_is_little_endian() {
    let e = entry(0x1234, "X", None, false);
    assert_eq!(e.boot_next_value(), vec![0x34, 0x12]);
    // boot-service + runtime access, without the non-volatile bit
    assert_eq!(BOOT_NEXT_ATTRIBUTES, 6);
}
