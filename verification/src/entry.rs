//! The entry abstraction: one closed set of tagged variants behind a
//! common display-name / visibility / launch interface, and the ordered
//! aggregation of every discovery source's results.
use crate::acetone::AcetoneEntry;
use crate::ascii::str_eq;
use crate::boot::KexecData;
use crate::bootloaderspec::display_name_of;
use crate::bootloaderspec::kexec_data_of;
use crate::bootloaderspec::FreedesktopBootEntry;
use crate::uefi::visible_description;
use crate::uefi::EfiEntry;
use vstd::prelude::*;

verus! {

/// One bootable target, from whichever discovery source found it.
pub enum BootEntry {
    /// A bootloader-spec text-file entry.
    Freedesktop(FreedesktopBootEntry),
    /// A text-file entry of the earlier record revision.
    Acetone(AcetoneEntry),
    /// A firmware boot-variable entry.
    Firmware(EfiEntry),
}

/// What launching a chosen entry asks of the surrounding process.
pub enum LaunchAction {
    /// Load this kernel and complete the transition.
    LoadKernel(KexecData),
    /// Write this identifier into the firmware's boot-next selector, then
    /// reboot.
    FirmwareNext(u16),
    /// Nothing beyond announcing the choice.
    AnnounceOnly,
}

impl BootEntry {
    /// The entry's display name.
    pub open spec fn spec_name(&self) -> Seq<char> {
        match self {
            BootEntry::Freedesktop(e) => display_name_of(e@),
            BootEntry::Acetone(e) => display_name_of(e@),
            BootEntry::Firmware(e) => e@.description,
        }
    }

    /// Whether the entry stays off the root menu, reachable only through
    /// the full list.
    pub open spec fn spec_hidden(&self) -> bool {
        match self {
            BootEntry::Freedesktop(_) => false,
            BootEntry::Acetone(_) => false,
            BootEntry::Firmware(e) => !visible_description(e@.description),
        }
    }

    /// The entry's display name, stable for its lifetime.
    pub fn user_readable_name(&self) -> (r: &str)
        ensures
            r@ == self.spec_name(),
    {
        match self {
            BootEntry::Freedesktop(e) => e.user_readable_name(),
            BootEntry::Acetone(e) => e.user_readable_name(),
            BootEntry::Firmware(e) => e.user_readable_name(),
        }
    }

    /// Whether the entry hides from the root menu: text-file entries never
    /// do, firmware entries do unless their description names the
    /// well-known platform boot manager.
    pub fn is_hidden(&self) -> (r: bool)
        ensures
            r == self.spec_hidden(),
    {
        match self {
            BootEntry::Freedesktop(e) => e.is_hidden(),
            BootEntry::Acetone(e) => e.is_hidden(),
            BootEntry::Firmware(e) => e.is_hidden(),
        }
    }

    /// Two entries count as equal exactly when their display names are —
    /// menu bookkeeping only, no part of deduplication.
    pub fn same_name(&self, other: &BootEntry) -> (r: bool)
        ensures
            r == (self.spec_name() == other.spec_name()),
    {
        str_eq(self.user_readable_name(), other.user_readable_name())
    }

    /// Consumes the chosen entry into the action that launches it: a
    /// kernel load for text-file entries, the boot-next selector plus a
    /// reboot for firmware entries, an announcement alone for the earlier
    /// record revision.
    pub fn launch_action(self) -> (r: LaunchAction)
        ensures
            self matches BootEntry::Freedesktop(e) ==> (r matches LaunchAction::LoadKernel(d)
                && d@ == kexec_data_of(e@)),
            self matches BootEntry::Acetone(_) ==> r is AnnounceOnly,
            self matches BootEntry::Firmware(e) ==> (r matches LaunchAction::FirmwareNext(id) && id
                == e.id),
    {
        match self {
            BootEntry::Freedesktop(e) => LaunchAction::LoadKernel(e.kexec_data()),
            BootEntry::Acetone(_) => LaunchAction::AnnounceOnly,
            BootEntry::Firmware(e) => LaunchAction::FirmwareNext(e.id),
        }
    }
}

/// Aggregates every discovery source's results in a fixed deterministic
/// order: text-file entries first, then firmware entries.
pub fn enumerate_all(fd_entries: Vec<FreedesktopBootEntry>, efi_entries: Vec<EfiEntry>) -> (r: Vec<
    BootEntry,
>)
    ensures
        r@ == fd_entries@.map_values(|e: FreedesktopBootEntry| BootEntry::Freedesktop(e))
            + efi_entries@.map_values(|e: EfiEntry| BootEntry::Firmware(e)),
{
    let ghost fd0 = fd_entries@;
    let ghost efi0 = efi_entries@;
    let mut r: Vec<BootEntry> = Vec::new();
    let mut fd = fd_entries;
    let n_fd = fd.len();
    let mut i: usize = 0;
    proof {
        assert(fd0.skip(0) =~= fd0);
        assert(r@ =~= fd0.take(0).map_values(|e: FreedesktopBootEntry| BootEntry::Freedesktop(e)));
    }
    while fd.len() > 0
        invariant
            fd@ == fd0.skip(i as int),
            i <= fd0.len(),
            fd0.len() == n_fd,
            r@ == fd0.take(i as int).map_values(|e: FreedesktopBootEntry| BootEntry::Freedesktop(e)),
        decreases fd@.len(),
    {
        let e = fd.remove(0);
        proof {
            assert(e == fd0[i as int]);
            assert(fd0.skip(i as int).remove(0) =~= fd0.skip(i as int + 1));
            assert(fd0.take(i + 1 as int).map_values(
                |x: FreedesktopBootEntry| BootEntry::Freedesktop(x),
            ) =~= fd0.take(i as int).map_values(|x: FreedesktopBootEntry| BootEntry::Freedesktop(x)).push(
                BootEntry::Freedesktop(e),
            ));
        }
        r.push(BootEntry::Freedesktop(e));
        i = i + 1;
    }
    proof {
        assert(fd0.take(i as int) =~= fd0);
    }
    let mut efi = efi_entries;
    let n_efi = efi.len();
    let mut j: usize = 0;
    proof {
        assert(efi0.skip(0) =~= efi0);
        assert(r@ =~= fd0.map_values(|e: FreedesktopBootEntry| BootEntry::Freedesktop(e))
            + efi0.take(0).map_values(|e: EfiEntry| BootEntry::Firmware(e)));
    }
    while efi.len() > 0
        invariant
            efi@ == efi0.skip(j as int),
            j <= efi0.len(),
            efi0.len() == n_efi,
            r@ == fd0.map_values(|e: FreedesktopBootEntry| BootEntry::Freedesktop(e)) + efi0.take(
                j as int,
            ).map_values(|e: EfiEntry| BootEntry::Firmware(e)),
        decreases efi@.len(),
    {
        let e = efi.remove(0);
        proof {
            assert(e == efi0[j as int]);
            assert(efi0.skip(j as int).remove(0) =~= efi0.skip(j as int + 1));
            assert(efi0.take(j + 1 as int).map_values(|x: EfiEntry| BootEntry::Firmware(x))
                =~= efi0.take(j as int).map_values(|x: EfiEntry| BootEntry::Firmware(x)).push(
                BootEntry::Firmware(e),
            ));
            assert(fd0.map_values(|x: FreedesktopBootEntry| BootEntry::Freedesktop(x)) + efi0.take(
                j + 1 as int,
            ).map_values(|x: EfiEntry| BootEntry::Firmware(x)) =~= (fd0.map_values(
                |x: FreedesktopBootEntry| BootEntry::Freedesktop(x),
            ) + efi0.take(j as int).map_values(|x: EfiEntry| BootEntry::Firmware(x))).push(
                BootEntry::Firmware(e),
            ));
        }
        r.push(BootEntry::Firmware(e));
        j = j + 1;
    }
    proof {
        assert(efi0.take(j as int) =~= efi0);
    }
    r
}

} // verus!
