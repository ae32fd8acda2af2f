//! Hardware-facing constants and record types: the physical memory layout,
//! page-table entry flags, interrupt numbers, the saved register snapshot,
//! and the process descriptor.

use vstd::prelude::*;

verus! {

/// Size of one physical page frame, the allocation granularity.
pub const PAGESIZE: u64 = 4096;

/// Number of physical pages: `MEMSIZE_PHYSICAL / PAGESIZE`.
pub const NPAGES: u64 = 512;

/// Maximum number of processes; descriptor 0 is a never-used sentinel.
pub const NPROC: usize = 16;

/// First address of the kernel image (code and data).
pub const KERNEL_START_ADDR: u64 = 0x40000;

/// One past the top of the kernel stack; the stack page sits just below.
pub const KERNEL_STACK_TOP: u64 = 0x80000;

/// First application-accessible address.
pub const PROC_START_ADDR: u64 = 0x100000;

/// Size of the initial per-process region; process `pid`'s stack top is
/// `PROC_START_ADDR + PROC_SIZE * pid`.
pub const PROC_SIZE: u64 = 0x40000;

/// Physical memory size.
pub const MEMSIZE_PHYSICAL: u64 = 0x200000;

/// Virtual memory size: no mapping may be placed at or above this address.
pub const MEMSIZE_VIRTUAL: u64 = 0x300000;

/// Timer interrupt frequency (interrupts per second).
pub const HZ: u32 = 100;

// Page table entry flags.
/// The low twelve bits of an entry hold its flags.
pub const PTE_FLAGS: u64 = 0xFFF;
/// Entry is Present.
pub const PTE_P: u64 = 1;
/// Entry is Writable.
pub const PTE_W: u64 = 2;
/// Entry is User-accessible.
pub const PTE_U: u64 = 4;
/// Entry was Accessed (read or written); set by the processor.
pub const PTE_A: u64 = 32;
/// Entry was Dirtied (written); set by the processor.
pub const PTE_D: u64 = 64;
/// Entry maps a large page.
pub const PTE_PS: u64 = 128;

// Page fault error flags, stored in `reg_err` after a page fault trap.
/// Fault was a protection violation rather than a missing page.
pub const PFERR_PRESENT: u64 = 0x1;
/// Fault happened on a write.
pub const PFERR_WRITE: u64 = 0x2;
/// Fault happened in user mode rather than in the kernel.
pub const PFERR_USER: u64 = 0x4;

// Interrupt numbers.
/// General protection fault.
pub const INT_GPF: u64 = 0xd;
/// Page fault.
pub const INT_PAGEFAULT: u64 = 0xe;
/// Timer interrupt.
pub const INT_TIMER: u64 = 32;
/// First syscall interrupt number.
pub const INT_SYS: u64 = 48;
/// Panic syscall: halt the machine with a user-supplied message.
pub const INT_SYS_PANIC: u64 = 48;
/// Get-pid syscall.
pub const INT_SYS_GETPID: u64 = 49;
/// Yield syscall: run the scheduler.
pub const INT_SYS_YIELD: u64 = 50;
/// Page-alloc syscall: allocate and map one physical page.
pub const INT_SYS_PAGE_ALLOC: u64 = 51;
/// Fork syscall (reserved, unhandled).
pub const INT_SYS_FORK: u64 = 52;
/// Exit syscall (reserved, unhandled).
pub const INT_SYS_EXIT: u64 = 53;
/// Mapping-copy syscall: copy a lookup result into user memory.
pub const INT_SYS_MAPPING: u64 = 54;
/// Display-toggle syscall.
pub const INT_SYS_MEM_TOG: u64 = 56;
/// Brk syscall (reserved, unhandled).
pub const INT_SYS_BRK: u64 = 57;
/// Sbrk syscall (reserved, unhandled).
pub const INT_SYS_SBRK: u64 = 58;

/// The flag bits of a page-table entry.
pub fn pte_flags_of(pageentry: usize) -> (f: usize)
    ensures
        f == pageentry % 4096,
{
    pageentry % 4096
}

/// The physical frame address stored in a page-table entry: the entry with
/// its flag bits cleared.
pub fn pte_addr(pageentry: usize) -> (a: usize)
    ensures
        a == (pageentry / 4096) * 4096,
{
    (pageentry / 4096) * 4096
}

/// The offset of an address within its page.
pub fn page_offset(addr: usize) -> (o: usize)
    ensures
        o == addr % 4096,
{
    addr % 4096
}

/// The saved register snapshot captured at the moment a trap occurs,
/// restored into the hardware when a process is activated.
#[allow(non_camel_case_types)]
#[derive(Clone, Copy, Debug, PartialEq, Eq, Structural)]
pub struct x86_64_registers {
    pub reg_rax: u64,
    pub reg_rcx: u64,
    pub reg_rdx: u64,
    pub reg_rbx: u64,
    pub reg_rbp: u64,
    pub reg_rsi: u64,
    pub reg_rdi: u64,
    pub reg_r8: u64,
    pub reg_r9: u64,
    pub reg_r10: u64,
    pub reg_r11: u64,
    pub reg_r12: u64,
    pub reg_r13: u64,
    pub reg_r14: u64,
    pub reg_r15: u64,
    pub reg_fs: u64,
    pub reg_gs: u64,
    pub reg_intno: u64,
    pub reg_err: u64,
    pub reg_rip: u64,
    pub reg_cs: u16,
    pub reg_rflags: u64,
    pub reg_rsp: u64,
    pub reg_ss: u16,
}

impl x86_64_registers {
    /// The snapshot with every register zero.
    pub open spec fn spec_zeroed() -> x86_64_registers {
        x86_64_registers {
            reg_rax: 0,
            reg_rcx: 0,
            reg_rdx: 0,
            reg_rbx: 0,
            reg_rbp: 0,
            reg_rsi: 0,
            reg_rdi: 0,
            reg_r8: 0,
            reg_r9: 0,
            reg_r10: 0,
            reg_r11: 0,
            reg_r12: 0,
            reg_r13: 0,
            reg_r14: 0,
            reg_r15: 0,
            reg_fs: 0,
            reg_gs: 0,
            reg_intno: 0,
            reg_err: 0,
            reg_rip: 0,
            reg_cs: 0,
            reg_rflags: 0,
            reg_rsp: 0,
            reg_ss: 0,
        }
    }

    /// True when every register of the snapshot is zero.
    pub open spec fn is_zeroed(self) -> bool {
        &&& self.reg_rax == 0
        &&& self.reg_rcx == 0
        &&& self.reg_rdx == 0
        &&& self.reg_rbx == 0
        &&& self.reg_rbp == 0
        &&& self.reg_rsi == 0
        &&& self.reg_rdi == 0
        &&& self.reg_r8 == 0
        &&& self.reg_r9 == 0
        &&& self.reg_r10 == 0
        &&& self.reg_r11 == 0
        &&& self.reg_r12 == 0
        &&& self.reg_r13 == 0
        &&& self.reg_r14 == 0
        &&& self.reg_r15 == 0
        &&& self.reg_fs == 0
        &&& self.reg_gs == 0
        &&& self.reg_intno == 0
        &&& self.reg_err == 0
        &&& self.reg_rip == 0
        &&& self.reg_cs == 0
        &&& self.reg_rflags == 0
        &&& self.reg_rsp == 0
        &&& self.reg_ss == 0
    }
}

impl Default for x86_64_registers {
    /// A snapshot with every register zero.
    fn default() -> (r: Self)
        ensures
            r.is_zeroed(),
            r == x86_64_registers::spec_zeroed(),
    {
        x86_64_registers {
            reg_rax: 0,
            reg_rcx: 0,
            reg_rdx: 0,
            reg_rbx: 0,
            reg_rbp: 0,
            reg_rsi: 0,
            reg_rdi: 0,
            reg_r8: 0,
            reg_r9: 0,
            reg_r10: 0,
            reg_r11: 0,
            reg_r12: 0,
            reg_r13: 0,
            reg_r14: 0,
            reg_r15: 0,
            reg_fs: 0,
            reg_gs: 0,
            reg_intno: 0,
            reg_err: 0,
            reg_rip: 0,
            reg_cs: 0,
            reg_rflags: 0,
            reg_rsp: 0,
            reg_ss: 0,
        }
    }
}

/// Process lifecycle states.
#[allow(non_camel_case_types)]
#[derive(Clone, Copy, Debug, PartialEq, Eq, Structural)]
pub enum Procstate {
    /// Descriptor slot is unused.
    P_FREE,
    /// Process can be scheduled.
    P_RUNNABLE,
    /// Reserved; never assigned by this kernel.
    P_BLOCKED,
    /// Process took an unrecoverable user-mode page fault.
    P_BROKEN,
}

/// A process descriptor: identity, saved registers, lifecycle state, the
/// page number of its root page table, and a display flag for the optional
/// memory viewer.
#[derive(Clone, Copy, Debug)]
pub struct Proc {
    pub p_pid: i32,
    pub p_registers: x86_64_registers,
    pub p_state: Procstate,
    /// Page number of the root page-table frame, if one is attached.
    pub p_pagetable: Option<usize>,
    pub display_status: u8,
}

impl Default for Proc {
    /// A free descriptor with pid 0, zeroed registers and no page table.
    fn default() -> (p: Self)
        ensures
            p.p_pid == 0,
            p.p_registers.is_zeroed(),
            p.p_state == Procstate::P_FREE,
            p.p_pagetable is None,
            p.display_status == 0,
    {
        Proc {
            p_pid: 0,
            p_registers: Default::default(),
            p_state: Procstate::P_FREE,
            p_pagetable: None,
            display_status: 0,
        }
    }
}

impl Proc {
    /// A descriptor with the given pid and state, otherwise default.
    pub fn new(pid: i32, state: Procstate) -> (p: Self)
        ensures
            p.p_pid == pid,
            p.p_registers.is_zeroed(),
            p.p_state == state,
            p.p_pagetable is None,
            p.display_status == 0,
    {
        let mut p: Proc = Default::default();
        p.p_pid = pid;
        p.p_state = state;
        p
    }
}

/// One hardware page table: 512 entries of 8 bytes each, filling one
/// page-aligned frame. An entry holds a physical frame address OR'd with
/// flag bits; in a non-leaf table a present entry points at the next-level
/// table, in a last-level table it maps a physical page.
#[allow(non_camel_case_types)]
pub struct x86_64_pagetable {
    pub entry: Vec<u64>,
}

impl x86_64_pagetable {
    /// An empty table: 512 entries, none present.
    pub fn new() -> (t: Self)
        ensures
            t.entry@.len() == 512,
            forall|i: int| 0 <= i < 512 ==> t.entry@[i] == 0,
    {
        let mut entry: Vec<u64> = Vec::new();
        let mut i: usize = 0;
        while i < 512
            invariant
                i <= 512,
                entry@.len() == i,
                forall|j: int| 0 <= j < i ==> entry@[j] == 0,
            decreases 512 - i,
        {
            entry.push(0);
            i = i + 1;
        }
        x86_64_pagetable { entry }
    }
}

/// The result of resolving a virtual address in a page table: the mapped
/// page number (negative when the walk found no last-level table), the
/// resolved physical address, and the effective permission bits.
#[derive(Clone, Copy, Debug, PartialEq, Eq, Structural)]
pub struct VAMapping {
    pub pn: i32,
    pub pa: usize,
    pub perm: i32,
}

} // verus!
