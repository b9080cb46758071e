//! What the boot loader boots: the plan for a chosen menu entry, and, when
//! no configuration source has any entry, the fixed single-image layouts it
//! falls back to (`\boot\vmlinuz` with `\boot\initramfs` by Linux handover,
//! else `\boot\kernel.elf` by Limine).
//!
//! The fallback is a state machine: the caller reads the file each step
//! names and reports whether the read succeeded.

use vstd::prelude::*;
use crate::menu::{Entry, EntryView, Kind};
use crate::text::{opt_view, owned, strings_view};

verus! {

/// The single Linux kernel of the fallback layout.
pub const VMLINUZ_PATH: &'static str = "\\boot\\vmlinuz";
/// Its initramfs.
pub const INITRAMFS_PATH: &'static str = "\\boot\\initramfs";
/// The single Limine kernel of the fallback layout.
pub const KERNEL_ELF_PATH: &'static str = "\\boot\\kernel.elf";

/// How to boot a chosen menu entry.
#[derive(Debug)]
pub enum BootPlan {
    /// Read `kernel` and the `initrds` (concatenated, in order) and hand
    /// over to Linux with `options` as the command line.
    Linux { kernel: String, initrds: Vec<String>, options: Option<String> },
    /// Read `kernel` and boot it by the Limine protocol.
    Limine { kernel: String },
    /// Read `image` and start it as a UEFI application.
    Efi { image: String },
}

pub enum BootPlanView {
    Linux { kernel: Seq<char>, initrds: Seq<Seq<char>>, options: Option<Seq<char>> },
    Limine { kernel: Seq<char> },
    Efi { image: Seq<char> },
}

impl View for BootPlan {
    type V = BootPlanView;

    open spec fn view(&self) -> BootPlanView {
        match self {
            BootPlan::Linux { kernel, initrds, options } => BootPlanView::Linux {
                kernel: kernel@,
                initrds: strings_view(initrds@),
                options: opt_view(*options),
            },
            BootPlan::Limine { kernel } => BootPlanView::Limine { kernel: kernel@ },
            BootPlan::Efi { image } => BootPlanView::Efi { image: image@ },
        }
    }
}

/// The plan for entry `e`: its kind picks the protocol.
pub open spec fn entry_plan_spec(e: EntryView) -> BootPlanView {
    match e.kind {
        Kind::Linux => BootPlanView::Linux { kernel: e.kernel, initrds: e.initrds, options: e.options },
        Kind::Limine => BootPlanView::Limine { kernel: e.kernel },
        Kind::Efi => BootPlanView::Efi { image: e.kernel },
    }
}

/// How to boot `entry`.
pub fn entry_plan(entry: &Entry) -> (r: BootPlan)
    ensures
        r@ == entry_plan_spec(entry@),
{
    match entry.kind {
        Kind::Linux => {
            let mut initrds: Vec<String> = Vec::new();
            let mut i: usize = 0;
            while i < entry.initrds.len()
                invariant
                    i <= entry.initrds@.len(),
                    initrds@.len() == i,
                    strings_view(initrds@) == strings_view(entry.initrds@).take(i as int),
                decreases entry.initrds@.len() - i,
            {
                let ghost before = initrds@;
                let copy = owned(entry.initrds[i].as_str());
                initrds.push(copy);
                assert(initrds@ == before.push(copy));
                assert(copy@ == strings_view(entry.initrds@)[i as int]);
                assert forall|j: int| 0 <= j < i implies #[trigger] strings_view(initrds@)[j]
                    == strings_view(entry.initrds@)[j] by {
                    assert(initrds@[j] == before[j]);
                    assert(strings_view(before)[j] == strings_view(entry.initrds@).take(i as int)[j]);
                }
                assert(strings_view(initrds@) =~= strings_view(entry.initrds@).take(i + 1));
                i += 1;
            }
            assert(strings_view(entry.initrds@).take(i as int) =~= strings_view(entry.initrds@));
            let options = match &entry.options {
                Some(o) => Some(owned(o.as_str())),
                None => None,
            };
            BootPlan::Linux { kernel: owned(entry.kernel.as_str()), initrds, options }
        },
        Kind::Limine => BootPlan::Limine { kernel: owned(entry.kernel.as_str()) },
        Kind::Efi => BootPlan::Efi { image: owned(entry.kernel.as_str()) },
    }
}

/// Where the fallback stands: which read it asked for last.
#[derive(Clone, Copy, Debug, PartialEq, Eq, Structural)]
pub enum FallbackStage {
    /// Nothing was read yet.
    Start,
    /// `\boot\vmlinuz` was asked for.
    Vmlinuz,
    /// `\boot\initramfs` was asked for, after `\boot\vmlinuz` was read.
    Initramfs,
    /// `\boot\kernel.elf` was asked for, after `\boot\vmlinuz` could not be
    /// read.
    KernelElf,
    /// A boot or a failure was decided.
    Done,
}

/// What the caller does next.
#[derive(Clone, Copy, Debug, PartialEq, Eq)]
pub enum FallbackAction {
    /// Read this file and report whether that worked.
    Read(&'static str),
    /// Hand over to Linux with the kernel and initramfs read, and the
    /// default command line.
    BootLinux,
    /// Boot the kernel read by the Limine protocol.
    BootLimine,
    /// Give up with this error.
    Fail(&'static str),
}

/// One step of the fallback, given whether the read the last step asked
/// for succeeded (ignored at the start).
pub fn fallback_step(stage: FallbackStage, read_ok: bool) -> (r: (FallbackStage, FallbackAction))
    requires
        stage != FallbackStage::Done,
    ensures
        stage == FallbackStage::Start ==> r == (FallbackStage::Vmlinuz, FallbackAction::Read(VMLINUZ_PATH)),
        stage == FallbackStage::Vmlinuz && read_ok ==> r == (FallbackStage::Initramfs, FallbackAction::Read(INITRAMFS_PATH)),
        stage == FallbackStage::Vmlinuz && !read_ok ==> r == (FallbackStage::KernelElf, FallbackAction::Read(KERNEL_ELF_PATH)),
        stage == FallbackStage::Initramfs && read_ok ==> r == (FallbackStage::Done, FallbackAction::BootLinux),
        stage == FallbackStage::Initramfs && !read_ok ==> r == (FallbackStage::Done, FallbackAction::Fail("cannot read \\boot\\initramfs")),
        stage == FallbackStage::KernelElf && read_ok ==> r == (FallbackStage::Done, FallbackAction::BootLimine),
        stage == FallbackStage::KernelElf && !read_ok ==> r == (FallbackStage::Done, FallbackAction::Fail("cannot read \\boot\\kernel.elf")),
{
    match stage {
        FallbackStage::Start => (FallbackStage::Vmlinuz, FallbackAction::Read(VMLINUZ_PATH)),
        FallbackStage::Vmlinuz => if read_ok {
            (FallbackStage::Initramfs, FallbackAction::Read(INITRAMFS_PATH))
        } else {
            (FallbackStage::KernelElf, FallbackAction::Read(KERNEL_ELF_PATH))
        },
        FallbackStage::Initramfs => if read_ok {
            (FallbackStage::Done, FallbackAction::BootLinux)
        } else {
            (FallbackStage::Done, FallbackAction::Fail("cannot read \\boot\\initramfs"))
        },
        _ => if read_ok {
            (FallbackStage::Done, FallbackAction::BootLimine)
        } else {
            (FallbackStage::Done, FallbackAction::Fail("cannot read \\boot\\kernel.elf"))
        },
    }
}

} // verus!
