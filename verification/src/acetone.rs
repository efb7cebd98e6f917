//! The crate's own text-file entry type, an earlier revision of the
//! bootloader-spec record kept for compatibility: same line format, but
//! its discovery enumerates nothing and launching one only announces it.
use crate::bootloaderspec::display_name_of;
use crate::bootloaderspec::line_views;
use crate::bootloaderspec::opt_entry_view;
use crate::bootloaderspec::spec_from_lines;
use crate::bootloaderspec::FreedesktopBootEntry;
use crate::bootloaderspec::TextEntryView;
use crate::boot::opt_str_view;
use vstd::prelude::*;

verus! {

/// One parsed text-file boot entry of the earlier record revision.
pub struct AcetoneEntry {
    pub title: Option<String>,
    pub version: Option<String>,
    pub machine_id: Option<String>,
    pub linux: String,
    pub initrd: Option<String>,
    pub options: Option<String>,
    pub devicetree: Option<String>,
}

impl View for AcetoneEntry {
    type V = TextEntryView;

    open spec fn view(&self) -> TextEntryView {
        TextEntryView {
            title: opt_str_view(self.title),
            version: opt_str_view(self.version),
            machine_id: opt_str_view(self.machine_id),
            linux: self.linux@,
            initrd: opt_str_view(self.initrd),
            options: opt_str_view(self.options),
            devicetree: opt_str_view(self.devicetree),
        }
    }
}

/// The view of an optional parsed entry.
pub open spec fn opt_acetone_view(o: Option<AcetoneEntry>) -> Option<TextEntryView> {
    match o {
        Some(e) => Some(e@),
        None => None,
    }
}

impl AcetoneEntry {
    /// Parses the lines of one record, by the same rules as the
    /// bootloader-spec records: the display name of every parsed record is
    /// non-empty.
    pub fn from_lines(lines: &Vec<String>) -> (r: Option<AcetoneEntry>)
        ensures
            opt_acetone_view(r) == spec_from_lines(line_views(lines@)),
            r matches Some(e) ==> display_name_of(e@).len() > 0,
    {
        match FreedesktopBootEntry::from_lines(lines) {
            Some(e) => Some(
                AcetoneEntry {
                    title: e.title,
                    version: e.version,
                    machine_id: e.machine_id,
                    linux: e.linux,
                    initrd: e.initrd,
                    options: e.options,
                    devicetree: e.devicetree,
                },
            ),
            None => None,
        }
    }

    /// The display name: the title when one was given, else the kernel
    /// image path.
    pub fn user_readable_name(&self) -> (r: &str)
        ensures
            r@ == display_name_of(self@),
    {
        match &self.title {
            Some(t) => t.as_str(),
            None => self.linux.as_str(),
        }
    }

    /// This source discovers nothing.
    pub fn enumerate() -> (r: Vec<AcetoneEntry>)
        ensures
            r@ == Seq::<AcetoneEntry>::empty(),
    {
        let r: Vec<AcetoneEntry> = Vec::new();
        proof {
            assert(r@ =~= Seq::<AcetoneEntry>::empty());
        }
        r
    }

    /// These entries always show at the root menu.
    pub fn is_hidden(&self) -> (r: bool)
        ensures
            r == false,
    {
        false
    }
}

} // verus!
