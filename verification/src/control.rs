//! Control outcomes. The kernel proper never transfers control itself:
//! activating a process, spinning idle, and halting are terminal decisions
//! of the control model, and the thin hardware shell around the library
//! performs them. A trap handler therefore returns a value describing how
//! the kernel leaves kernel mode, rather than diverging.

use vstd::prelude::*;
use crate::x86_64::{x86_64_registers, VAMapping};

verus! {

/// Why the kernel halts. Every fatal condition of the kernel carries one
/// of these; the shell prints the matching diagnostic and stops the
/// machine.
#[derive(Clone, Copy, Debug, PartialEq, Eq, Structural)]
pub enum HaltReason {
    /// An address space failed validation: its root is not a root table.
    PagetableInvalid,
    /// The trap-entry code does not resolve to its own physical address
    /// in the address space about to be activated.
    HandlerNotMapped,
    /// The root about to be activated is not mapped at its own physical
    /// address inside the kernel's address space.
    PagetableNotMapped,
    /// The kernel's root is not mapped at its own physical address inside
    /// the address space about to be activated.
    KernelNotMapped,
    /// The kernel's identity mapping failed its post-build check.
    IdentityMappingFailed,
    /// A kernel-range address does not resolve to itself.
    KernelMappingMissing,
    /// A kernel data address resolved without write permission.
    KernelMappingNotWritable,
    /// Process slot 0, the unused sentinel, was not free.
    ProcessZeroNotFree,
    /// A page-table frame's recorded owner or reference count does not
    /// match what the ownership check expected.
    PageOwnershipMismatch,
    /// The program loader failed during process setup.
    LoaderFailed,
    /// The panic syscall was invoked with a null message pointer.
    PanicNullMessage,
    /// The panic syscall was invoked; the message sits at the physical
    /// address carried here, at most 160 bytes.
    UserPanic { message_pa: usize },
    /// A page fault happened in kernel mode.
    KernelPageFault,
    /// A trap number no handler accepts; the shell's default handler
    /// takes over and does not return.
    UnhandledTrap { intno: u64 },
}

/// How control leaves the kernel: enter a process with its saved
/// registers under its page table, spin idle awaiting an outside stop
/// because nothing is runnable, or halt the machine.
#[derive(Clone, Copy, Debug, PartialEq, Eq, Structural)]
pub enum Activation {
    /// Restore the registers, install the page table rooted at frame
    /// `pagetable`, and resume the process in user mode.
    Enter { pid: usize, registers: x86_64_registers, pagetable: usize },
    /// Stop the machine with a diagnostic.
    Halt { reason: HaltReason },
    /// No process is runnable: spin, polling for an outside stop request.
    Idle,
}

/// A pending copy of a lookup result into user memory, decided by the
/// mapping-copy syscall after its permission checks passed; the shell
/// performs the write at `dst_pa`.
#[derive(Clone, Copy, Debug, PartialEq, Eq, Structural)]
pub struct MappingCopy {
    pub dst_pa: usize,
    pub value: VAMapping,
}

/// Everything one trap dispatch decides: how to leave the kernel, whether
/// the memory viewer should be refreshed, and a mapping copy to perform,
/// if any.
#[derive(Clone, Copy, Debug, PartialEq, Eq, Structural)]
pub struct TrapOutcome {
    pub exit: Activation,
    pub show_memviewer: bool,
    pub mapping_copy: Option<MappingCopy>,
}

/// The workload selected by the boot command string; the shell parses the
/// string, the kernel acts on the selection.
#[derive(Clone, Copy, Debug, PartialEq, Eq, Structural)]
pub enum BootCommand {
    /// Run the fork test program.
    Fork,
    /// Run the fork-exit test program.
    ForkExit,
    /// Run the test program once.
    Test,
    /// Run the test program as two processes.
    Test2,
    /// Any other or missing command: run the four allocator programs.
    Default,
}

} // verus!
