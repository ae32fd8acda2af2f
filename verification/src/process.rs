//! The process table and round-robin scheduler. The table owns a fixed
//! array of descriptors and the index of the currently running process.
//! Activating a process never returns in a real kernel; here `run` and
//! `schedule` return the terminal `Activation` decision and the shell
//! transfers control. The scheduler's idle spin — polling for an outside
//! stop request when nothing is runnable — is the shell's half of the
//! `Idle` decision.

use vstd::prelude::*;
use crate::control::{Activation, HaltReason};
use crate::kloader::{program_load, simple_image_loadable, spec_entry, RamImage};
use crate::ph_page_info::PhysicalPageInfoTable;
use crate::vm::{arena_wf, kernel_identity_mapped, root_ok, KernelPageTables};
use crate::x86_64::{x86_64_registers, Proc, Procstate, NPROC};

verus! {

/// The pid the round-robin scan starting after `cur` settles on, probing
/// `cur + k` for `k = 1, 2, ...` modulo the table size: the first
/// runnable pid strictly after `cur` in circular order, wrapping all the
/// way around to `cur` itself, or `None` when no process is runnable.
pub open spec fn next_runnable_from(procs: Seq<Proc>, cur: int, k: int) -> Option<int>
    decreases NPROC + 1 - k,
{
    if k < 1 || k > NPROC {
        None
    } else if procs[(cur + k) % (NPROC as int)].p_state == Procstate::P_RUNNABLE {
        Some((cur + k) % (NPROC as int))
    } else {
        next_runnable_from(procs, cur, k + 1)
    }
}

/// The pid the scheduler selects from `cur`: the smallest `m > cur`
/// (modulo the table size) whose descriptor is runnable.
pub open spec fn next_runnable(procs: Seq<Proc>, cur: int) -> Option<int> {
    next_runnable_from(procs, cur, 1)
}

/// The fixed array of process descriptors and the currently executing
/// process, if any. Descriptor 0 is never used.
pub struct ProcessTable {
    pub processes: Vec<Proc>,
    pub current: Option<usize>,
}

impl ProcessTable {
    /// One descriptor per possible process, each knowing its own pid, and
    /// a current index inside the table.
    pub open spec fn wf(self) -> bool {
        &&& self.processes@.len() == NPROC
        &&& forall|pid: int| 0 <= pid < NPROC ==> #[trigger] self.processes@[pid].p_pid == pid
        &&& match self.current {
            Some(c) => c < NPROC,
            None => true,
        }
    }

    /// A table of free descriptors and no current process.
    pub fn new() -> (t: Self)
        ensures
            t.wf(),
            t.current is None,
            forall|pid: int| 0 <= pid < NPROC ==> {
                &&& (#[trigger] t.processes@[pid]).p_state == Procstate::P_FREE
                &&& t.processes@[pid].p_pagetable is None
                &&& t.processes@[pid].p_registers.is_zeroed()
                &&& t.processes@[pid].display_status == 0
            },
    {
        let mut processes: Vec<Proc> = Vec::new();
        let mut pid: usize = 0;
        while pid < NPROC
            invariant
                pid <= NPROC,
                processes@.len() == pid,
                forall|j: int| 0 <= j < pid ==> {
                    &&& (#[trigger] processes@[j]).p_pid == j
                    &&& processes@[j].p_state == Procstate::P_FREE
                    &&& processes@[j].p_pagetable is None
                    &&& processes@[j].p_registers.is_zeroed()
                    &&& processes@[j].display_status == 0
                },
            decreases NPROC - pid,
        {
            processes.push(Proc::new(pid as i32, Procstate::P_FREE));
            pid = pid + 1;
        }
        ProcessTable { processes, current: None }
    }

    /// The descriptor of process `pid`.
    pub fn get_process_by_pid(&self, pid: usize) -> (p: &Proc)
        requires
            self.wf(),
            pid < NPROC,
        ensures
            *p == self.processes@[pid as int],
    {
        &self.processes[pid]
    }

    /// A copy of the current process's descriptor.
    pub fn get_current_process(&self) -> (p: Proc)
        requires
            self.wf(),
            self.current is Some,
        ensures
            p == self.processes@[self.current->Some_0 as int],
    {
        self.processes[self.current.unwrap()]
    }

    /// A mutable reference to the descriptor of process `pid`; the table
    /// afterwards holds whatever the caller leaves behind the reference.
    pub fn get_process_by_pid_mut(&mut self, pid: usize) -> (p: &mut Proc)
        requires
            old(self).wf(),
            pid < NPROC,
        ensures
            *p == old(self).processes@[pid as int],
            final(self).processes@ == old(self).processes@.update(pid as int, *final(p)),
            final(self).current == old(self).current,
    {
        &mut self.processes[pid]
    }

    /// A mutable reference to the current process's descriptor.
    pub fn get_current_process_mut(&mut self) -> (p: &mut Proc)
        requires
            old(self).wf(),
            old(self).current is Some,
        ensures
            *p == old(self).processes@[old(self).current->Some_0 as int],
            final(self).processes@ == old(self).processes@.update(
                old(self).current->Some_0 as int, *final(p)),
            final(self).current == old(self).current,
    {
        let c: usize = self.current.unwrap();
        &mut self.processes[c]
    }

    /// Write `value` into the current process's saved return-value
    /// register; nothing else changes.
    pub fn set_register_rax(&mut self, value: u64)
        requires
            old(self).wf(),
            old(self).current is Some,
        ensures
            final(self).wf(),
            final(self).current == old(self).current,
            ({
                let c = old(self).current->Some_0 as int;
                let p = old(self).processes@[c];
                final(self).processes@ == old(self).processes@.update(c, Proc {
                    p_registers: x86_64_registers { reg_rax: value, ..p.p_registers },
                    ..p
                })
            }),
    {
        let c: usize = self.current.unwrap();
        let mut p: Proc = self.processes[c];
        p.p_registers.reg_rax = value;
        self.processes[c] = p;
    }

    /// On a trap, copy the saved register snapshot into the current
    /// process's descriptor and point it at the kernel's page table, so
    /// kernel code can dereference kernel data whichever process trapped.
    pub fn exception(&mut self, reg: &x86_64_registers, kernel_root: usize)
        requires
            old(self).wf(),
            old(self).current is Some,
        ensures
            final(self).wf(),
            final(self).current == old(self).current,
            ({
                let c = old(self).current->Some_0 as int;
                let p = old(self).processes@[c];
                final(self).processes@ == old(self).processes@.update(c, Proc {
                    p_registers: *reg,
                    p_pagetable: Some(kernel_root),
                    ..p
                })
            }),
    {
        let c: usize = self.current.unwrap();
        let mut p: Proc = self.processes[c];
        p.p_registers = *reg;
        p.p_pagetable = Some(kernel_root);
        self.processes[c] = p;
    }

    /// Run process `pid`: it must be runnable. Makes it current, validates
    /// its address space, and decides the activation: enter the process
    /// with its saved registers when validation passes, halt otherwise.
    /// The shell restores the registers and jumps to user mode; control
    /// re-enters the kernel only at the next trap.
    pub fn run(&mut self, vm: &KernelPageTables, pid: usize) -> (a: Activation)
        requires
            old(self).wf(),
            vm.wf(),
            pid < NPROC,
            old(self).processes@[pid as int].p_state == Procstate::P_RUNNABLE,
        ensures
            final(self).wf(),
            final(self).processes@ == old(self).processes@,
            final(self).current == Some(pid),
            !(a is Idle),
            ({
                let p = old(self).processes@[pid as int];
                match p.p_pagetable {
                    None => a == Activation::Halt { reason: HaltReason::PagetableInvalid },
                    Some(root) => {
                        &&& (a is Enter <==> vm.activation_ok(root as int))
                        &&& (a is Enter ==> a == Activation::Enter {
                            pid,
                            registers: p.p_registers,
                            pagetable: root,
                        })
                        &&& (a is Halt <==> !vm.activation_ok(root as int))
                    },
                }
            }),
    {
        self.current = Some(pid);
        let p: Proc = self.processes[pid];
        match p.p_pagetable {
            None => Activation::Halt { reason: HaltReason::PagetableInvalid },
            Some(root) => {
                match vm.set_pagetable(root) {
                    Err(reason) => Activation::Halt { reason },
                    Ok(()) => Activation::Enter {
                        pid,
                        registers: p.p_registers,
                        pagetable: root,
                    },
                }
            },
        }
    }

    /// Pick the next process to run: scan pids circularly starting just
    /// after the current one and run the first runnable descriptor. The
    /// scheduler never activates a descriptor that is not runnable. With
    /// no runnable process the decision is `Idle`: the shell spins,
    /// polling for an outside stop request, forever by design.
    pub fn schedule(&mut self, vm: &KernelPageTables) -> (a: Activation)
        requires
            old(self).wf(),
            vm.wf(),
            old(self).current is Some,
        ensures
            final(self).wf(),
            final(self).processes@ == old(self).processes@,
            ({
                let procs = old(self).processes@;
                let cur = old(self).current->Some_0 as int;
                match next_runnable(procs, cur) {
                    None => a is Idle && final(self).current == old(self).current,
                    Some(pid) => {
                        &&& 0 <= pid < NPROC
                        &&& final(self).current == Some(pid as usize)
                        &&& procs[pid].p_state == Procstate::P_RUNNABLE
                        &&& !(a is Idle)
                        &&& match procs[pid].p_pagetable {
                            None => a == Activation::Halt {
                                reason: HaltReason::PagetableInvalid,
                            },
                            Some(root) => {
                                &&& (a is Enter <==> vm.activation_ok(root as int))
                                &&& (a is Enter ==> a == Activation::Enter {
                                    pid: pid as usize,
                                    registers: procs[pid].p_registers,
                                    pagetable: root,
                                })
                            },
                        }
                    },
                }
            }),
    {
        let ghost procs = self.processes@;
        let cur: usize = self.current.unwrap();
        let mut k: usize = 1;
        while k <= NPROC
            invariant
                self.wf(),
                *self == *old(self),
                self.processes@ == procs,
                vm.wf(),
                cur == old(self).current->Some_0,
                cur < NPROC,
                1 <= k <= NPROC + 1,
                next_runnable(procs, cur as int)
                    == next_runnable_from(procs, cur as int, k as int),
            decreases NPROC + 1 - k,
        {
            let pid: usize = (cur + k) % NPROC;
            if self.processes[pid].p_state == Procstate::P_RUNNABLE {
                proof {
                    assert(next_runnable_from(procs, cur as int, k as int)
                        == Some(pid as int));
                }
                return self.run(vm, pid);
            }
            k = k + 1;
        }
        Activation::Idle
    }
}


impl ProcessTable {
    /// Reset process `pid`'s descriptor, attach the shared kernel page
    /// table as its initial root, and load program `image` into it,
    /// setting the saved instruction pointer to the image's entry
    /// address. The caller treats a loader failure as fatal.
    pub fn process_setup(&mut self, vm: &mut KernelPageTables,
        ledger: &mut PhysicalPageInfoTable, pid: usize, image: &RamImage) -> (r: i32)
        requires
            old(self).wf(),
            arena_wf(old(vm).frames@),
            old(ledger).wf(),
            root_ok(old(vm).frames@, old(vm).kernel_root as int),
            1 <= pid < NPROC,
        ensures
            final(self).wf(),
            arena_wf(final(vm).frames@),
            final(ledger).wf(),
            root_ok(final(vm).frames@, old(vm).kernel_root as int),
            final(vm).kernel_root == old(vm).kernel_root,
            final(vm).handler_va == old(vm).handler_va,
            final(self).current == old(self).current,
            r == 0 || r == -1,
            forall|j: int| 0 <= j < NPROC && j != pid
                ==> final(self).processes@[j] == old(self).processes@[j],
            ({
                let pnew = final(self).processes@[pid as int];
                &&& pnew.p_pid == pid
                &&& pnew.p_state == Procstate::P_FREE
                &&& pnew.p_pagetable == Some(old(vm).kernel_root)
                &&& pnew.display_status == 0
                &&& (r == 0 ==> pnew.p_registers == (x86_64_registers {
                    reg_rip: spec_entry(image.bytes@) as u64,
                    ..x86_64_registers::spec_zeroed()
                }))
                &&& (r == -1 ==> pnew.p_registers == x86_64_registers::spec_zeroed())
            }),
            forall|q: int| 0 <= q < crate::x86_64::NPAGES
                && (#[trigger] old(ledger).pageinfo@[q]).refcount != 0
                ==> final(ledger).pageinfo@[q] == old(ledger).pageinfo@[q],
            final(ledger).pageinfo@.len() == old(ledger).pageinfo@.len(),
            kernel_identity_mapped(*old(vm)) ==> kernel_identity_mapped(*final(vm)),
            kernel_identity_mapped(*old(vm))
                && simple_image_loadable(image.bytes@, *old(ledger)) ==> r == 0,
            kernel_identity_mapped(*old(vm))
                && crate::kloader::simple_image(image.bytes@)
                ==> forall|q: int| 0 <= q < crate::x86_64::NPAGES
                    && !(crate::kloader::segment_first_page(crate::kloader::spec_segment(
                            image.bytes@, crate::kloader::spec_phoff(image.bytes@))) / 4096
                            <= q
                        && q * 4096 < crate::kloader::segment_end(
                            crate::kloader::spec_segment(image.bytes@,
                                crate::kloader::spec_phoff(image.bytes@))))
                    ==> final(ledger).pageinfo@[q] == old(ledger).pageinfo@[q],
    {
        let root: usize = vm.kernel_root;
        let mut pr: Proc = Proc::new(pid as i32, Procstate::P_FREE);
        pr.p_pagetable = Some(root);
        let r: i32 = program_load(&mut pr, image, vm, ledger);
        self.processes[pid] = pr;
        r
    }
}


/// When every probe from offset `i` on misses, the scan from `i` finds
/// nothing.
proof fn lemma_next_runnable_from_none(procs: Seq<Proc>, cur: int, i: int)
    requires
        1 <= i,
        forall|j: int| i <= j <= NPROC ==> (#[trigger] procs[(cur + j) % (
            NPROC as int)]).p_state != Procstate::P_RUNNABLE,
    ensures
        next_runnable_from(procs, cur, i) is None,
    decreases NPROC + 1 - i,
{
    if i <= NPROC {
        lemma_next_runnable_from_none(procs, cur, i + 1);
    }
}

/// When offsets `i` up to but not including `k` miss and offset `k`
/// hits, the scan from `i` settles on offset `k`.
proof fn lemma_next_runnable_from_hit(procs: Seq<Proc>, cur: int, i: int, k: int)
    requires
        1 <= i <= k <= NPROC,
        procs[(cur + k) % (NPROC as int)].p_state == Procstate::P_RUNNABLE,
        forall|j: int| i <= j < k ==> (#[trigger] procs[(cur + j) % (
            NPROC as int)]).p_state != Procstate::P_RUNNABLE,
    ensures
        next_runnable_from(procs, cur, i) == Some((cur + k) % (NPROC as int)),
    decreases k - i,
{
    if i < k {
        lemma_next_runnable_from_hit(procs, cur, i + 1, k);
    }
}

/// The scheduler finds nothing exactly when no positive offset within
/// one full cycle is runnable: an idle decision means no process could
/// have been activated.
pub proof fn lemma_next_runnable_none(procs: Seq<Proc>, cur: int)
    ensures
        next_runnable(procs, cur) is None <==> forall|k: int| 1 <= k <= NPROC
            ==> (#[trigger] procs[(cur + k) % (NPROC as int)]).p_state
                != Procstate::P_RUNNABLE,
{
    if forall|k: int| 1 <= k <= NPROC ==> (#[trigger] procs[(cur + k) % (
        NPROC as int)]).p_state != Procstate::P_RUNNABLE {
        lemma_next_runnable_from_none(procs, cur, 1);
    }
    if next_runnable(procs, cur) is None {
        assert forall|k: int| 1 <= k <= NPROC implies (#[trigger] procs[(cur + k) % (
            NPROC as int)]).p_state != Procstate::P_RUNNABLE by {
            if procs[(cur + k) % (NPROC as int)].p_state == Procstate::P_RUNNABLE {
                lemma_next_runnable_exists(procs, cur, 1, k);
            }
        }
    }
}

/// A runnable offset within one cycle means the scan finds something.
proof fn lemma_next_runnable_exists(procs: Seq<Proc>, cur: int, i: int, k: int)
    requires
        1 <= i <= k <= NPROC,
        procs[(cur + k) % (NPROC as int)].p_state == Procstate::P_RUNNABLE,
    ensures
        next_runnable_from(procs, cur, i) is Some,
    decreases k - i,
{
    if i < k && procs[(cur + i) % (NPROC as int)].p_state != Procstate::P_RUNNABLE {
        lemma_next_runnable_exists(procs, cur, i + 1, k);
    }
}

/// Round-robin selection is minimal: starting from `cur`, the scheduler
/// selects exactly the pid at the smallest positive offset `k` (modulo
/// the table size) whose descriptor is runnable, wrapping all the way
/// around; every smaller positive offset is not runnable.
pub proof fn lemma_next_runnable_minimal(procs: Seq<Proc>, cur: int, k: int)
    requires
        1 <= k <= NPROC,
        procs[(cur + k) % (NPROC as int)].p_state == Procstate::P_RUNNABLE,
        forall|j: int| 1 <= j < k ==> (#[trigger] procs[(cur + j) % (
            NPROC as int)]).p_state != Procstate::P_RUNNABLE,
    ensures
        next_runnable(procs, cur) == Some((cur + k) % (NPROC as int)),
{
    lemma_next_runnable_from_hit(procs, cur, 1, k);
}

} // verus!
