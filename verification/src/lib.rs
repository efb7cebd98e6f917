//! A boot-menu engine: it discovers bootable targets (firmware NVRAM boot
//! variables, on-disk bootloader-spec entries), drives an interactive menu
//! over them, and prepares the transition into the chosen target.
//!
//! All I/O — reading firmware variables, scanning disks, loading the next
//! kernel — stays outside this crate; the modules here hold the decoding,
//! correlation, deduplication and state-machine logic, each function with a
//! proved contract.
pub mod acetone;
pub mod ascii;
pub mod boot;
pub mod bootloaderspec;
pub mod codec;
pub mod disks;
pub mod entry;
pub mod menu;
pub mod uefi;

use vstd::prelude::*;

verus! {

/// Reads a 16-bit little-endian value from two bytes.
pub open spec fn le16(b0: u8, b1: u8) -> int {
    b0 + 256 * b1
}

/// Executable counterpart of [`le16`].
pub fn read_le16(b0: u8, b1: u8) -> (r: u16)
    ensures
        r == le16(b0, b1),
{
    b0 as u16 + 256 * (b1 as u16)
}

} // verus!
