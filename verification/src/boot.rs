//! The reboot/kexec executor's decision logic: launch parameters, the
//! kernel-load plan, and the ordered fallback strategies. The privileged
//! calls themselves — loading the kernel, the reboot system call, the
//! service-manager commands — happen outside this crate; what stands here
//! decides, for every environment, which call is made.
use vstd::prelude::*;

verus! {

/// The view of an optional string.
pub open spec fn opt_str_view(o: Option<String>) -> Option<Seq<char>> {
    match o {
        Some(s) => Some(s@),
        None => None,
    }
}

/// Launch parameters for a kernel handoff: the kernel image path, an
/// optional command line, an optional initial RAM filesystem path, and an
/// optional device-tree path (recognised but unsupported).
pub struct KexecData {
    pub kernel: String,
    pub cmdline: Option<String>,
    pub initrd: Option<String>,
    pub dt: Option<String>,
}

/// Mathematical image of [`KexecData`].
pub struct KexecDataView {
    pub kernel: Seq<char>,
    pub cmdline: Option<Seq<char>>,
    pub initrd: Option<Seq<char>>,
    pub dt: Option<Seq<char>>,
}

impl View for KexecData {
    type V = KexecDataView;

    open spec fn view(&self) -> KexecDataView {
        KexecDataView {
            kernel: self.kernel@,
            cmdline: opt_str_view(self.cmdline),
            initrd: opt_str_view(self.initrd),
            dt: opt_str_view(self.dt),
        }
    }
}

/// Why a launch cannot proceed.
#[derive(Clone, Copy, PartialEq, Eq, Structural, Debug)]
pub enum KexecError {
    /// A device-tree path was supplied: device-tree-based handoff is a
    /// recognised but unsupported path, refused outright rather than
    /// silently ignored.
    DeviceTreeUnsupported,
}

/// The flag handed to the kernel-load call when no initial RAM filesystem
/// is supplied.
pub const KEXEC_FILE_NO_INITRAMFS: u32 = 4;

/// One prepared kernel-load step: the file paths to open, the command line
/// (empty when none was given), and the load flags.
pub struct KexecLoad {
    pub kernel: String,
    pub initrd: Option<String>,
    pub cmdline: String,
    pub flags: u32,
}

/// Turns launch parameters into a kernel-load step. A device-tree path is
/// refused, and exactly then; otherwise the kernel and initial RAM
/// filesystem paths carry over, a missing command line becomes the empty
/// one, and the no-initramfs flag is set exactly when no initial RAM
/// filesystem was given.
pub fn plan_kexec_load(data: KexecData) -> (r: Result<KexecLoad, KexecError>)
    ensures
        r is Err <==> data@.dt is Some,
        r matches Err(e) ==> e == KexecError::DeviceTreeUnsupported,
        r matches Ok(l) ==> {
            &&& l.kernel@ == data@.kernel
            &&& opt_str_view(l.initrd) == data@.initrd
            &&& l.cmdline@ == match data@.cmdline {
                Some(c) => c,
                None => Seq::<char>::empty(),
            }
            &&& l.flags == if data@.initrd is Some {
                0u32
            } else {
                KEXEC_FILE_NO_INITRAMFS
            }
        },
{
    if data.dt.is_some() {
        return Err(KexecError::DeviceTreeUnsupported);
    }
    let flags: u32 = if data.initrd.is_some() {
        0
    } else {
        KEXEC_FILE_NO_INITRAMFS
    };
    let cmdline = match data.cmdline {
        Some(c) => c,
        None => String::new(),
    };
    Ok(KexecLoad { kernel: data.kernel, initrd: data.initrd, cmdline, flags })
}

/// How the transition is completed once the kernel accepted the load,
/// first applicable step wins.
#[derive(Clone, Copy, PartialEq, Eq, Structural, Debug)]
pub enum KexecFollowup {
    /// The caller is the init process: ask the kernel for an in-place
    /// reboot into the already-loaded kernel.
    RebootSyscall,
    /// A service manager is present: ask it to perform the kexec reboot.
    ServiceManagerKexec,
    /// No supported path remains: a fatal configuration error, the process
    /// must terminate with a diagnostic.
    NoMethod,
}

/// Picks the follow-up strategy after a successful kernel load: the init
/// process reboots directly, anyone else defers to the service manager
/// when one is present, and without either the launch is fatal.
pub fn kexec_followup(is_init: bool, has_service_manager: bool) -> (r: KexecFollowup)
    ensures
        r == (if is_init {
            KexecFollowup::RebootSyscall
        } else if has_service_manager {
            KexecFollowup::ServiceManagerKexec
        } else {
            KexecFollowup::NoMethod
        }),
{
    if is_init {
        KexecFollowup::RebootSyscall
    } else if has_service_manager {
        KexecFollowup::ServiceManagerKexec
    } else {
        KexecFollowup::NoMethod
    }
}

/// How a plain reboot (for firmware next-boot selections) is requested.
#[derive(Clone, Copy, PartialEq, Eq, Structural, Debug)]
pub enum RebootMethod {
    /// Ask the service manager to reboot.
    ServiceManager,
    /// Request the firmware-default reboot directly from the kernel.
    Direct,
}

/// Picks the reboot method: the service manager when present, else the
/// direct reboot request.
pub fn reboot_method(has_service_manager: bool) -> (r: RebootMethod)
    ensures
        r == (if has_service_manager {
            RebootMethod::ServiceManager
        } else {
            RebootMethod::Direct
        }),
{
    if has_service_manager {
        RebootMethod::ServiceManager
    } else {
        RebootMethod::Direct
    }
}

} // verus!
