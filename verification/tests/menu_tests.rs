//! Tests for the menu navigator's state machine.
use acetone::entry::BootEntry;
use acetone::menu::{ConfirmOutcome, MenuLevel, MenuSession};
use acetone::uefi::EfiEntry;

fn firmware(id: u16, description: &str) -> BootEntry {
    BootEntry::Firmware(EfiEntry {
        id,
        description: description.to_string(),
        partuuid: None,
        is_default: false,
    })
}

/// Two visible entries, one hidden one.
fn session() -> MenuSession {
    MenuSession::from_entries(vec![
        firmware(1, "Windows Boot Manager"),
        firmware(2, "UEFI OS"),
        firmware(3, "Windows Boot Manager on ATA Foo"),
    ])
}

#[test]
fn entries_split_by_visibility_in_order() {
    let s = session();
    assert_eq!(s.level, MenuLevel::Root);
    assert_eq!(s.cursor, 0);
    assert_eq!(s.root_entries.len(), 2);
    assert_eq!(s.root_entries[0].user_readable_name(), "Windows Boot Manager");
    assert_eq!(s.root_entries[1].user_readable_name(), "Windows Boot Manager on ATA Foo");
    assert_eq!(s.full_entries.len(), 1);
    assert_eq!(s.full_entries[0].user_readable_name(), "UEFI OS");
}

#[test]
fn moving_up_from_the_top_stays_put() {
    let mut s = session();
    s.move_up();
    assert_eq!(s.cursor, 0);
    s.move_down();
    s.move_up();
    assert_eq!(s.cursor, 0);
}

#[test]
fn moving_down_from_the_last_item_stays_put() {
    let mut s = session();
    // root shows two entries plus the show-all item: last index is 2
    s.move_down();
    s.move_down();
    assert_eq!(s.cursor, 2);
    s.move_down();
    assert_eq!(s.cursor, 2);
}

#[test]
fn confirming_a_leaf_selects_it() {
    let mut s = session();
    s.move_down();
    match s.confirm() {
        ConfirmOutcome::Chosen(e) => {
            assert_eq!(e.user_readable_name(), "Windows Boot Manager on ATA Foo")
        }
        ConfirmOutcome::Expanded(_) => panic!("expected a selection"),
    }
}

#[test]
fn confirming_show_all_enters_the_full_list_at_the_top() {
    let mut s = session();
    s.move_down();
    s.move_down();
    assert_eq!(s.cursor, 2); // the show-all item
    let s = match s.confirm() {
        ConfirmOutcome::Expanded(s) => s,
        ConfirmOutcome::Chosen(_) => panic!("expected the full list"),
    };
    assert_eq!(s.level, MenuLevel::Full);
    assert_eq!(s.cursor, 0);
    match s.confirm() {
        ConfirmOutcome::Chosen(e) => assert_eq!(e.user_readable_name(), "UEFI OS"),
        ConfirmOutcome::Expanded(_) => panic!("expected a selection"),
    }
}

#[test]
fn hidden_entry_is_reachable_only_through_the_full_list() {
    // at the root level only the visible entries and the show-all item exist
    let s = session();
    for e in &s.root_entries {
        assert!(e.user_readable_name() != "UEFI OS");
    }
    // drilling down reaches it (see confirming_show_all_enters_the_full_list_at_the_top)
    assert!(s.full_entries.iter().any(|e| e.user_readable_name() == "UEFI OS"));
}

#[test]
fn full_list_cursor_clamps_too() {
    let mut s = session();
    s.move_down();
    s.move_down();
    let mut s = match s.confirm() {
        ConfirmOutcome::Expanded(s) => s,
        ConfirmOutcome::Chosen(_) => panic!("expected the full list"),
    };
    // one hidden entry: index 0 is also the last
    s.move_down();
    assert_eq!(s.cursor, 0);
    s.move_up();
    assert_eq!(s.cursor, 0);
}

#[test]
fn confirming_an_empty_full_list_changes_nothing() {
    let mut s = MenuSession::from_entries(vec![firmware(1, "Windows Boot Manager")]);
    assert_eq!(s.level, MenuLevel::Root);
    s.move_down();
    assert_eq!(s.cursor, 1);
    let s = match s.confirm() {
        ConfirmOutcome::Expanded(s) => s,
        ConfirmOutcome::Chosen(e) => panic!("unexpected selection {}", e.user_readable_name()),
    };
    assert_eq!(s.level, MenuLevel::Full);
    match s.confirm() {
        ConfirmOutcome::Expanded(s2) => {
            assert_eq!(s2.level, MenuLevel::Full);
            assert_eq!(s2.cursor, 0);
        }
        ConfirmOutcome::Chosen(e) => panic!("unexpected selection {}", e.user_readable_name()),
    }
}
