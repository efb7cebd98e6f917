//! Tests for the text-entry parser, the entry abstraction and the launch
//! plans.
use acetone::acetone::AcetoneEntry;
use acetone::boot::{kexec_followup, plan_kexec_load, reboot_method, KexecData, KexecError,
    KexecFollowup, RebootMethod, KEXEC_FILE_NO_INITRAMFS};
use acetone::bootloaderspec::{collect_entries, FreedesktopBootEntry};
use acetone::entry::{enumerate_all, BootEntry, LaunchAction};
use acetone::uefi::EfiEntry;

fn lines(ls: &[&str]) -> Vec<String> {
    ls.iter().map(|l| l.to_string()).collect()
}

#[test]
fn parses_full_record() {
    let e = FreedesktopBootEntry::from_lines(&lines(&[
        "title Fedora 39",
        "version 6.5",
        "machine-id abc123",
        "linux /vmlinuz-6.5",
        "initrd /initramfs-6.5.img",
        "options root=/dev/sda2 rw",
        "devicetree /some.dtb",
    ]))
    .unwrap();
    assert_eq!(e.title.as_deref(), Some("Fedora 39"));
    assert_eq!(e.version.as_deref(), Some("6.5"));
    assert_eq!(e.machine_id.as_deref(), Some("abc123"));
    assert_eq!(e.linux, "/vmlinuz-6.5");
    assert_eq!(e.initrd.as_deref(), Some("/initramfs-6.5.img"));
    assert_eq!(e.options.as_deref(), Some("root=/dev/sda2 rw"));
    assert_eq!(e.devicetree.as_deref(), Some("/some.dtb"));
}

#[test]
fn record_without_linux_line_is_dropped() {
    assert!(FreedesktopBootEntry::from_lines(&lines(&["title A", "version 1"])).is_none());
}

#[test]
fn comment_lines_are_skipped_and_later_lines_win() {
    let e = FreedesktopBootEntry::from_lines(&lines(&[
        "# a comment",
        "#linux /not-this",
        "linux /first",
        "linux /second",
    ]))
    .unwrap();
    assert_eq!(e.linux, "/second");
    assert!(e.title.is_none());
}

#[test]
fn blank_title_is_ignored_and_blank_kernel_drops_the_record() {
    // the display name must never be empty: a bare "title " is no title
    let e = FreedesktopBootEntry::from_lines(&lines(&["title ", "linux /vmlinuz-a"])).unwrap();
    assert!(e.title.is_none());
    assert_eq!(e.user_readable_name(), "/vmlinuz-a");
    // and a bare "linux " names no kernel image
    assert!(FreedesktopBootEntry::from_lines(&lines(&["title A", "linux "])).is_none());
}

#[test]
fn name_falls_back_to_kernel_path_without_title() {
    let with_title =
        FreedesktopBootEntry::from_lines(&lines(&["title A", "linux /vmlinuz-a"])).unwrap();
    assert_eq!(with_title.user_readable_name(), "A");
    let without = FreedesktopBootEntry::from_lines(&lines(&["linux /vmlinuz-b"])).unwrap();
    assert_eq!(without.user_readable_name(), "/vmlinuz-b");
}

#[test]
fn three_files_two_entries_malformed_contributes_nothing() {
    let files = vec![
        lines(&["title A", "linux /vmlinuz-a"]),
        lines(&["linux /vmlinuz-b"]),
        lines(&["title broken", "initrd /x"]), // no linux line
    ];
    let entries = collect_entries(&files);
    assert_eq!(entries.len(), 2);
    assert_eq!(entries[0].user_readable_name(), "A");
    assert_eq!(entries[1].user_readable_name(), "/vmlinuz-b");
}

#[test]
fn acetone_record_parses_like_the_newer_revision() {
    let e = AcetoneEntry::from_lines(&lines(&["title A", "linux /vmlinuz-a"])).unwrap();
    assert_eq!(e.user_readable_name(), "A");
    assert!(!e.is_hidden());
    assert!(AcetoneEntry::enumerate().is_empty());
}

#[test]
fn kexec_data_prefixes_boot_partition_paths() {
    let e = FreedesktopBootEntry::from_lines(&lines(&[
        "linux vmlinuz-a",
        "initrd initramfs-a.img",
        "options quiet",
    ]))
    .unwrap();
    let d = e.kexec_data();
    assert_eq!(d.kernel, "/boot/vmlinuz-a");
    assert_eq!(d.initrd.as_deref(), Some("/boot/initramfs-a.img"));
    assert_eq!(d.cmdline.as_deref(), Some("quiet"));
    assert!(d.dt.is_none());
}

#[test]
fn enumeration_order_is_text_files_then_firmware() {
    let fd = vec![FreedesktopBootEntry::from_lines(&lines(&["title A", "linux /a"])).unwrap()];
    let efi = vec![EfiEntry {
        id: 1,
        description: "Windows Boot Manager".to_string(),
        partuuid: None,
        is_default: false,
    }];
    let all = enumerate_all(fd, efi);
    assert_eq!(all.len(), 2);
    assert_eq!(all[0].user_readable_name(), "A");
    assert_eq!(all[1].user_readable_name(), "Windows Boot Manager");
    assert!(all[0].same_name(&all[0]));
    assert!(!all[0].same_name(&all[1]));
}

#[test]
fn launch_actions_match_entry_kinds() {
    let fd = FreedesktopBootEntry::from_lines(&lines(&["linux /a"])).unwrap();
    match BootEntry::Freedesktop(fd).launch_action() {
        LaunchAction::LoadKernel(d) => assert_eq!(d.kernel, "/boot//a"),
        _ => panic!("expected a kernel load"),
    }
    let efi = EfiEntry { id: 9, description: "X".to_string(), partuuid: None, is_default: false };
    match BootEntry::Firmware(efi).launch_action() {
        LaunchAction::FirmwareNext(id) => assert_eq!(id, 9),
        _ => panic!("expected a boot-next selection"),
    }
    let ac = AcetoneEntry::from_lines(&lines(&["linux /a"])).unwrap();
    match BootEntry::Acetone(ac).launch_action() {
        LaunchAction::AnnounceOnly => {}
        _ => panic!("expected an announcement"),
    }
}

#[test]
fn device_tree_is_refused_explicitly() {
    let data = KexecData {
        kernel: "/boot/vmlinuz".to_string(),
        cmdline: None,
        initrd: None,
        dt: Some("/boot/some.dtb".to_string()),
    };
    match plan_kexec_load(data) {
        Err(e) => assert_eq!(e, KexecError::DeviceTreeUnsupported),
        Ok(_) => panic!("a device-tree launch must be refused"),
    }
}

#[test]
fn load_plan_defaults_cmdline_and_sets_no_initramfs_flag() {
    let data = KexecData {
        kernel: "/boot/vmlinuz".to_string(),
        cmdline: None,
        initrd: None,
        dt: None,
    };
    let plan = plan_kexec_load(data).unwrap();
    assert_eq!(plan.kernel, "/boot/vmlinuz");
    assert_eq!(plan.cmdline, "");
    assert!(plan.initrd.is_none());
    assert_eq!(plan.flags, KEXEC_FILE_NO_INITRAMFS);

    let with_initrd = KexecData {
        kernel: "/boot/vmlinuz".to_string(),
        cmdline: Some("quiet".to_string()),
        initrd: Some("/boot/init.img".to_string()),
        dt: None,
    };
    let plan = plan_kexec_load(with_initrd).unwrap();
    assert_eq!(plan.cmdline, "quiet");
    assert_eq!(plan.initrd.as_deref(), Some("/boot/init.img"));
    assert_eq!(plan.flags, 0);
}

#[test]
fn followup_strategies_apply_in_order() {
    assert_eq!(kexec_followup(true, true), KexecFollowup::RebootSyscall);
    assert_eq!(kexec_followup(true, false), KexecFollowup::RebootSyscall);
    assert_eq!(kexec_followup(false, true), KexecFollowup::ServiceManagerKexec);
    assert_eq!(kexec_followup(false, false), KexecFollowup::NoMethod);
    assert_eq!(reboot_method(true), RebootMethod::ServiceManager);
    assert_eq!(reboot_method(false), RebootMethod::Direct);
}
