//! The kernel orchestrator: owns the process table, the physical page
//! ledger and the page-table manager, and ties them together in the boot
//! sequence, per-process setup, and the exception dispatcher invoked once
//! per hardware trap. Hardware interrupts are masked while kernel code
//! runs, so no two of these paths execute concurrently.

use vstd::prelude::*;
use crate::control::{Activation, BootCommand, HaltReason, MappingCopy, TrapOutcome};
use crate::kloader::{simple_image, simple_image_loadable, spec_entry, RamImage};
use crate::ph_page_info::PhysicalPageInfoTable;
use crate::process::{next_runnable, ProcessTable};
use crate::vm::{
    entry_of, is_table, kernel_identity_mapped, level_of, lookup_spec, maps_to, root_ok,
    target_of, KernelPageTables,
};
use crate::x86_64::{
    x86_64_registers, Proc, Procstate, VAMapping, INT_GPF, INT_PAGEFAULT, INT_SYS_GETPID,
    INT_SYS_MAPPING, INT_SYS_MEM_TOG, INT_SYS_PAGE_ALLOC, INT_SYS_PANIC, INT_SYS_YIELD,
    INT_TIMER, KERNEL_STACK_TOP, KERNEL_START_ADDR, MEMSIZE_PHYSICAL, NPAGES, NPROC,
    PAGESIZE, PFERR_USER, PROC_SIZE, PROC_START_ADDR,
};

verus! {

/// Size in bytes of the hardware layout of a lookup result, the structure
/// the mapping-copy syscall copies into user memory.
pub const VAMAPPING_SIZE: u64 = 16;

/// The kernel: the three components and the global counters. The boot
/// parameters `start_data` (first writable kernel address) and `end_addr`
/// (end of the kernel image) come from the shell, which knows the final
/// layout.
pub struct Kernel {
    pub proc_table: ProcessTable,
    pub pageinfo_table: PhysicalPageInfoTable,
    pub vm: KernelPageTables,
    pub programs: Vec<RamImage>,
    pub ticks: u32,
    pub disp_global: u8,
    pub start_data: usize,
    pub end_addr: usize,
}

impl Kernel {
    /// The kernel invariant, established by boot and preserved by every
    /// trap: the three components are well-formed, the kernel's address
    /// space identity-maps physical memory, the sentinel descriptor 0 is
    /// free, and every attached process root is the shared kernel table.
    pub open spec fn wf(self) -> bool {
        &&& self.proc_table.wf()
        &&& self.pageinfo_table.wf()
        &&& self.vm.wf()
        &&& kernel_identity_mapped(self.vm)
        &&& KERNEL_START_ADDR < self.end_addr <= MEMSIZE_PHYSICAL
        &&& self.proc_table.processes@[0].p_state == Procstate::P_FREE
        &&& forall|j: int| 0 <= j < NPROC
            && (#[trigger] self.proc_table.processes@[j]).p_pagetable is Some
            ==> self.proc_table.processes@[j].p_pagetable->Some_0 == self.vm.kernel_root
        &&& forall|j: int| 0 <= j < NPROC
            && (#[trigger] self.proc_table.processes@[j]).p_state == Procstate::P_RUNNABLE
            ==> self.proc_table.processes@[j].p_pagetable is Some
    }

    /// An unbooted kernel: empty tables, no programs, counters reset, the
    /// memory viewer enabled, and a default memory layout. `kernel`
    /// brings up the virtual memory system and the ledger.
    pub fn new() -> (k: Self)
        ensures
            k.proc_table.wf(),
            k.proc_table.current is None,
            forall|j: int| 0 <= j < NPROC ==> {
                &&& (#[trigger] k.proc_table.processes@[j]).p_state == Procstate::P_FREE
                &&& k.proc_table.processes@[j].p_pagetable is None
            },
            k.pageinfo_table.wf(),
            k.pageinfo_table.pageinfo@.len() == NPAGES,
            forall|pn: int| 0 <= pn < NPAGES ==> #[trigger] k.pageinfo_table.pageinfo@[pn]
                == (crate::ph_page_info::PhysicalPageInfo { owner: 0i8, refcount: 0i8 }),
            k.vm.frames@.len() == NPAGES,
            forall|pn: int| 0 <= pn < NPAGES ==> k.vm.frames@[pn] is None,
            k.programs@.len() == 0,
            k.ticks == 0,
            k.disp_global == 1,
            k.start_data == KERNEL_START_ADDR,
            k.end_addr == KERNEL_STACK_TOP,
    {
        Kernel {
            proc_table: ProcessTable::new(),
            pageinfo_table: PhysicalPageInfoTable::new(),
            vm: KernelPageTables::new(),
            programs: Vec::new(),
            ticks: 0,
            disp_global: 1,
            start_data: KERNEL_START_ADDR as usize,
            end_addr: KERNEL_STACK_TOP as usize,
        }
    }

    /// Install the statically embedded executable images the boot command
    /// selects from.
    pub fn install_programs(&mut self, programs: Vec<RamImage>)
        ensures
            *final(self) == (Kernel { programs: final(self).programs, ..*old(self) }),
            final(self).programs == programs,
    {
        self.programs = programs;
    }

    /// Record the kernel image layout the linker decided: `start_data` is
    /// the first kernel address that must be writable, `end_addr` the end
    /// of the kernel image.
    pub fn set_memory_layout(&mut self, start_data: usize, end_addr: usize)
        requires
            KERNEL_START_ADDR < end_addr <= MEMSIZE_PHYSICAL,
        ensures
            *final(self) == (Kernel {
                start_data,
                end_addr,
                ..*old(self)
            }),
    {
        self.start_data = start_data;
        self.end_addr = end_addr;
    }

    /// Allocate the physical page at `addr` to `owner`. Fails — changing
    /// nothing — when the address is misaligned, out of range, or the
    /// page is already owned.
    pub fn assign_physical_page(&mut self, addr: usize, owner: usize) -> (r: i32)
        requires
            old(self).pageinfo_table.wf(),
            1 <= owner < NPROC,
        ensures
            *final(self) == (Kernel { pageinfo_table: final(self).pageinfo_table, ..*old(self) }),
            final(self).pageinfo_table.wf(),
            r == 0 || r == -1,
            r == 0 <==> addr % 4096 == 0 && addr / 4096 < NPAGES
                && old(self).pageinfo_table.pageinfo@[addr as int / 4096].refcount == 0,
            r == -1 ==> final(self).pageinfo_table == old(self).pageinfo_table,
            r == 0 ==> final(self).pageinfo_table.pageinfo@
                == old(self).pageinfo_table.pageinfo@.update(addr as int / 4096,
                    crate::ph_page_info::PhysicalPageInfo {
                        owner: owner as i8,
                        refcount: 1i8,
                    }),
    {
        self.pageinfo_table.assign_physical_page(addr, owner)
    }

    /// All the kernel-mapping checks on the address space rooted at `pt`
    /// pass: every page of the kernel image resolves to itself, pages
    /// from `start_data` on are writable, and so is the kernel stack page.
    pub open spec fn mappings_ok(self, pt: int) -> bool {
        &&& forall|k: int| 0 <= k && KERNEL_START_ADDR + k * 4096 < self.end_addr ==> {
            let m = #[trigger] lookup_spec(self.vm.frames@, pt,
                (KERNEL_START_ADDR + k * 4096) as u64);
            &&& m.pa == KERNEL_START_ADDR + k * 4096
            &&& (KERNEL_START_ADDR + k * 4096 >= self.start_data ==> m.perm & 2 == 2)
        }
        &&& lookup_spec(self.vm.frames@, pt, (KERNEL_STACK_TOP - PAGESIZE) as u64).pa
            == KERNEL_STACK_TOP - PAGESIZE
        &&& lookup_spec(self.vm.frames@, pt, (KERNEL_STACK_TOP - PAGESIZE) as u64).perm & 2
            == 2
    }

    /// Check the kernel mappings of the address space rooted at `pt`,
    /// walking the kernel image page by page and the kernel stack page.
    /// Succeeds exactly when `mappings_ok` holds; any violation is fatal
    /// to the caller.
    pub fn check_page_table_mappings(&self, pt: usize) -> (r: Result<(), HaltReason>)
        requires
            self.vm.wf(),
            root_ok(self.vm.frames@, pt as int),
            self.end_addr <= MEMSIZE_PHYSICAL,
        ensures
            r is Ok <==> self.mappings_ok(pt as int),
    {
        let mut va: usize = KERNEL_START_ADDR as usize;
        let ghost k_done: int = 0;
        while va < self.end_addr
            invariant
                self.vm.wf(),
                root_ok(self.vm.frames@, pt as int),
                self.end_addr <= MEMSIZE_PHYSICAL,
                KERNEL_START_ADDR <= va,
                va as int == KERNEL_START_ADDR + k_done * 4096,
                0 <= k_done,
                forall|k: int| 0 <= k < k_done ==> {
                    let m = #[trigger] lookup_spec(self.vm.frames@, pt as int,
                        (KERNEL_START_ADDR + k * 4096) as u64);
                    &&& m.pa == KERNEL_START_ADDR + k * 4096
                    &&& (KERNEL_START_ADDR + k * 4096 >= self.start_data
                        ==> m.perm & 2 == 2)
                },
            decreases self.end_addr + 4096 - va,
        {
            let vam: VAMapping = self.vm.virtual_memory_lookup(pt, va);
            if vam.pa != va {
                return Err(HaltReason::KernelMappingMissing);
            }
            if va >= self.start_data {
                if vam.perm & 2 != 2 {
                    return Err(HaltReason::KernelMappingNotWritable);
                }
            }
            va = va + 4096;
            proof {
                k_done = k_done + 1;
            }
        }
        let kstack: usize = (KERNEL_STACK_TOP - PAGESIZE) as usize;
        let vam: VAMapping = self.vm.virtual_memory_lookup(pt, kstack);
        if vam.pa != kstack {
            return Err(HaltReason::KernelMappingMissing);
        }
        if vam.perm & 2 != 2 {
            return Err(HaltReason::KernelMappingNotWritable);
        }
        Ok(())
    }

    /// Check the operating-system invariants about virtual memory: the
    /// sentinel descriptor is free and the kernel's own mappings hold.
    /// Succeeds exactly when both do; a violation is fatal to the caller.
    pub fn check_virtual_memory(&self) -> (r: Result<(), HaltReason>)
        requires
            self.proc_table.wf(),
            self.vm.wf(),
            self.end_addr <= MEMSIZE_PHYSICAL,
        ensures
            r is Ok <==> self.proc_table.processes@[0].p_state == Procstate::P_FREE
                && self.mappings_ok(self.vm.kernel_root as int),
    {
        let p0: &Proc = self.proc_table.get_process_by_pid(0);
        if p0.p_state != Procstate::P_FREE {
            return Err(HaltReason::ProcessZeroNotFree);
        }
        self.check_page_table_mappings(self.vm.kernel_root)
    }
}

/// Under the kernel invariant every kernel-mapping check passes: the
/// identity map resolves each kernel page to itself with writable
/// permission.
pub proof fn lemma_wf_mappings_ok(k: Kernel)
    requires
        k.wf(),
    ensures
        k.mappings_ok(k.vm.kernel_root as int),
{
    assert forall|j: int| 0 <= j && KERNEL_START_ADDR + j * 4096 < k.end_addr implies {
        let m = #[trigger] lookup_spec(k.vm.frames@, k.vm.kernel_root as int,
            (KERNEL_START_ADDR + j * 4096) as u64);
        &&& m.pa == KERNEL_START_ADDR + j * 4096
        &&& (KERNEL_START_ADDR + j * 4096 >= k.start_data ==> m.perm & 2 == 2)
    } by {
        let va2 = (KERNEL_START_ADDR + j * 4096) as u64;
        assert(va2 < MEMSIZE_PHYSICAL);
        assert(lookup_spec(k.vm.frames@, k.vm.kernel_root as int, va2).pa == va2);
        assert(lookup_spec(k.vm.frames@, k.vm.kernel_root as int, va2).perm == 7);
        assert(7i32 & 2i32 == 2i32) by (bit_vector);
    }
    let ks = (KERNEL_STACK_TOP - PAGESIZE) as u64;
    assert(ks < MEMSIZE_PHYSICAL);
    assert(lookup_spec(k.vm.frames@, k.vm.kernel_root as int, ks).perm == 7);
    assert(7i32 & 2i32 == 2i32) by (bit_vector);
}

/// Under the kernel invariant the kernel's own root always passes
/// activation: the identity map covers the trap handler and both roots.
pub proof fn lemma_wf_activation_ok(k: Kernel)
    requires
        k.wf(),
    ensures
        k.vm.activation_ok(k.vm.kernel_root as int),
{
    let fs = k.vm.frames@;
    let kr = k.vm.kernel_root as int;
    assert((k.vm.handler_va as u64) < MEMSIZE_PHYSICAL);
    assert(lookup_spec(fs, kr, k.vm.handler_va as u64).pa == k.vm.handler_va);
    assert(kr < NPAGES);
    assert(((kr * 4096) as u64) < MEMSIZE_PHYSICAL);
    assert(lookup_spec(fs, kr, (kr * 4096) as u64).pa == kr * 4096);
}



/// Program `n` of `programs` is a well-formed single-segment image whose
/// pages the boot classification (over `reserved` and the kernel image
/// end) leaves free: setting it up right after boot classification is
/// then sure to succeed.
pub open spec fn boot_ready(programs: Seq<RamImage>, reserved: Seq<bool>, end_addr: int,
    n: int) -> bool {
    &&& 0 <= n < programs.len()
    &&& crate::kloader::simple_image(programs[n].bytes@)
    &&& {
        let b = programs[n].bytes@;
        let ph = crate::kloader::spec_segment(b, crate::kloader::spec_phoff(b));
        ph.p_type == crate::kloader::ELF_PTYPE_LOAD ==> {
            &&& crate::kloader::segment_in_bounds(ph)
            &&& forall|q: int| crate::kloader::segment_first_page(ph) / 4096 <= q
                && q * 4096 < crate::kloader::segment_end(ph)
                ==> (#[trigger] PhysicalPageInfoTable::boot_class(reserved[q],
                    (q * 4096) as u64, end_addr as u64)).refcount == 0
        }
    }
}

impl Kernel {
    /// Everything `process_setup(pid, n)` needs to be sure to succeed:
    /// program `n` is a well-formed single-segment image whose pages are
    /// free, and the kernel root page can take one more reference.
    pub open spec fn setup_ready(self, n: int) -> bool {
        &&& n < self.programs@.len()
        &&& simple_image_loadable(self.programs@[n].bytes@, self.pageinfo_table)
        &&& 0 < self.pageinfo_table.pageinfo@[self.vm.kernel_root as int].refcount < 127
    }

    /// Load program `program_number` as process `pid`: reset the
    /// descriptor, attach the shared kernel page table (adding one
    /// reference to its frame), load the program's code and data, give
    /// the process one stack page at its pid-indexed stack address mapped
    /// Present, Writable and User-accessible, and mark it runnable. A
    /// loader failure is fatal: the caller halts with the reason.
    pub fn process_setup(&mut self, pid: usize, program_number: usize)
        -> (r: Result<(), HaltReason>)
        requires
            old(self).wf(),
            1 <= pid <= 4,
            program_number < old(self).programs@.len(),
            0 < old(self).pageinfo_table.pageinfo@[
                old(self).vm.kernel_root as int].refcount < 127,
        ensures
            final(self).wf(),
            final(self).vm.kernel_root == old(self).vm.kernel_root,
            final(self).vm.handler_va == old(self).vm.handler_va,
            final(self).proc_table.current == old(self).proc_table.current,
            final(self).programs == old(self).programs,
            final(self).ticks == old(self).ticks,
            final(self).disp_global == old(self).disp_global,
            final(self).start_data == old(self).start_data,
            final(self).end_addr == old(self).end_addr,
            forall|j: int| 0 <= j < NPROC && j != pid
                ==> final(self).proc_table.processes@[j]
                    == old(self).proc_table.processes@[j],
            r is Ok || r == Err::<(), HaltReason>(HaltReason::LoaderFailed),
            r is Ok ==> ({
                let pnew = final(self).proc_table.processes@[pid as int];
                &&& pnew.p_state == Procstate::P_RUNNABLE
                &&& pnew.p_registers.reg_rip
                    == spec_entry(old(self).programs@[program_number as int].bytes@) as u64
                &&& pnew.p_registers.reg_rsp == PROC_START_ADDR + PROC_SIZE * pid
                &&& pnew.p_pagetable == Some(old(self).vm.kernel_root)
            }),
            r is Err ==> final(self).proc_table.processes@[pid as int].p_state
                == Procstate::P_FREE,
            r is Ok ==> final(self).pageinfo_table.pageinfo@[
                old(self).vm.kernel_root as int].refcount
                == old(self).pageinfo_table.pageinfo@[
                    old(self).vm.kernel_root as int].refcount + 1,
            // The dedicated stack page is identity-mapped Present,
            // Writable and User-accessible.
            r is Ok ==> maps_to(final(self).vm.frames@, old(self).vm.kernel_root as int,
                (PROC_START_ADDR + PROC_SIZE * pid - PAGESIZE) as u64,
                (PROC_START_ADDR + PROC_SIZE * pid - PAGESIZE) as u64, 7u64),
            // The kernel root frame keeps its owner; its reference count
            // never shrinks.
            final(self).pageinfo_table.pageinfo@[old(self).vm.kernel_root as int].owner
                == old(self).pageinfo_table.pageinfo@[
                    old(self).vm.kernel_root as int].owner,
            final(self).pageinfo_table.pageinfo@[
                old(self).vm.kernel_root as int].refcount
                >= old(self).pageinfo_table.pageinfo@[
                    old(self).vm.kernel_root as int].refcount,
            // Owned pages keep their records; only the kernel root frame
            // gains the new reference.
            forall|q: int| 0 <= q < NPAGES && q != old(self).vm.kernel_root as int
                && old(self).pageinfo_table.pageinfo@[q].refcount != 0
                ==> final(self).pageinfo_table.pageinfo@[q]
                    == old(self).pageinfo_table.pageinfo@[q],
            // When the stack page was free and the program's one segment
            // lies elsewhere, the stack page ends owned by the process.
            ({
                let b = old(self).programs@[program_number as int].bytes@;
                let ph = crate::kloader::spec_segment(b, crate::kloader::spec_phoff(b));
                let stack_pn = (PROC_START_ADDR + PROC_SIZE * pid - PAGESIZE) as int
                    / 4096;
                r is Ok && crate::kloader::simple_image(b)
                    && !(crate::kloader::segment_first_page(ph) / 4096 <= stack_pn
                        && stack_pn * 4096 < crate::kloader::segment_end(ph))
                    && old(self).pageinfo_table.pageinfo@[stack_pn].refcount == 0
                    ==> final(self).pageinfo_table.pageinfo@[stack_pn]
                        == (crate::ph_page_info::PhysicalPageInfo {
                            owner: pid as i8,
                            refcount: 1i8,
                        })
            }),
            old(self).setup_ready(program_number as int) ==> r is Ok,
    {
        let ghost kold = *old(self);
        let r: i32 = self.proc_table.process_setup(&mut self.vm, &mut self.pageinfo_table,
            pid, &self.programs[program_number]);
        if r < 0 {
            return Err(HaltReason::LoaderFailed);
        }
        // The new process shares the kernel page table: one more reference.
        let ghost led_load = self.pageinfo_table;
        let rootpn: usize = self.vm.kernel_root;
        proof {
            assert(kold.pageinfo_table.pageinfo@[rootpn as int].refcount != 0);
            assert(self.pageinfo_table.pageinfo@[rootpn as int]
                == kold.pageinfo_table.pageinfo@[rootpn as int]);
        }
        self.pageinfo_table.incr_refcount(rootpn);
        let ghost led_incr = self.pageinfo_table;
        // One dedicated stack page just below the pid-indexed stack top.
        let rsp: usize = PROC_START_ADDR as usize + PROC_SIZE as usize * pid;
        let stack_page: usize = rsp - PAGESIZE as usize;
        proof {
            assert(stack_page % 4096 == 0) by {
                assert(stack_page as int == (255 + 64 * pid) * 4096);
                vstd::arithmetic::div_mod::lemma_fundamental_div_mod_converse(
                    stack_page as int, 4096, 255 + 64 * pid as int, 0);
            }
        }
        let mut pr: Proc = *self.proc_table.get_process_by_pid(pid);
        pr.p_registers.reg_rsp = rsp as u64;
        // The stack page allocation and mapping tolerate an already-taken
        // page, as the hardware boot path does.
        proof {
            let b = kold.programs@[program_number as int].bytes@;
            let ph = crate::kloader::spec_segment(b, crate::kloader::spec_phoff(b));
            let stack_pn = stack_page as int / 4096;
            assert(stack_pn == 255 + 64 * pid) by {
                vstd::arithmetic::div_mod::lemma_fundamental_div_mod_converse(
                    stack_page as int, 4096, 255 + 64 * pid as int, 0);
            }
            if crate::kloader::simple_image(b)
                && !(crate::kloader::segment_first_page(ph) / 4096 <= stack_pn
                    && stack_pn * 4096 < crate::kloader::segment_end(ph))
                && kold.pageinfo_table.pageinfo@[stack_pn].refcount == 0 {
                // The loader left the stack page alone, and the extra
                // kernel-root reference sits on a different frame.
                assert(led_load.pageinfo@[stack_pn]
                    == kold.pageinfo_table.pageinfo@[stack_pn]);
                assert(rootpn as int != stack_pn);
                assert(self.pageinfo_table.pageinfo@[stack_pn].refcount == 0);
            }
        }
        let _assigned: i32 = self.pageinfo_table.assign_physical_page(stack_page, pid);
        let ghost led_assign = self.pageinfo_table;
        let ghost fs_mid = self.vm.frames@;
        proof {
            // The stack page's walk is already present in the identity map,
            // so this map call cannot fail and touches no other page.
            assert forall|j: int| 0 <= j < (PAGESIZE as usize) as int / 4096
                implies #[trigger] crate::vm::last_level_spec(fs_mid, rootpn as int,
                    (stack_page + j * 4096) as u64, 0) is Some by {
                assert(j == 0);
                let vaj = (stack_page + j * 4096) as u64;
                assert(vaj == stack_page);
                assert(stack_page < MEMSIZE_PHYSICAL);
                assert(lookup_spec(fs_mid, rootpn as int, vaj).perm == 7);
                if crate::vm::last_level_spec(fs_mid, rootpn as int, vaj, 0) is None {
                    assert(lookup_spec(fs_mid, rootpn as int, vaj).perm == 0);
                    assert(false);
                }
            }
        }
        let _mapped: i32 = self.vm.virtual_memory_map(&mut self.pageinfo_table, rootpn,
            stack_page, stack_page, PAGESIZE as usize, 7);
        proof {
            assert(_mapped == 0);
            assert(maps_to(self.vm.frames@, rootpn as int,
                (stack_page + 0 * 4096) as u64, (stack_page + 0 * 4096) as u64,
                7i32 as u64));
            assert forall|j: int| 0 <= j < 4096 as int / 4096
                implies #[trigger] maps_to(self.vm.frames@, rootpn as int,
                    (stack_page as int + j * 4096) as u64,
                    (stack_page as int + j * 4096) as u64, 7u64) by {
                assert(j == 0);
            }
            crate::vm::lemma_identity_after_identity_map(fs_mid, self.vm.frames@,
                rootpn as int, stack_page as int, 4096);
            assert(self.pageinfo_table == led_assign);
            assert(stack_page as int == PROC_START_ADDR + PROC_SIZE * pid - PAGESIZE);
        }
        pr.p_state = Procstate::P_RUNNABLE;
        self.proc_table.processes[pid] = pr;
        proof {
            assert(self.proc_table.wf());
            assert(self.pageinfo_table.pageinfo@[rootpn as int].refcount
                == kold.pageinfo_table.pageinfo@[rootpn as int].refcount + 1) by {
                assert(self.pageinfo_table.pageinfo@[rootpn as int].refcount != 0);
            }
        }
        Ok(())
    }

    /// Boot: the shell has initialized the hardware; the kernel builds
    /// its address space, classifies physical memory, sets up the
    /// processes the boot command selects — the fork, fork-exit or test
    /// programs, or by default the four allocator programs as processes
    /// 1 through 4 — and hands control to process 1. `reserved` marks the
    /// hardware-reserved pages and `handler_va` is the address of the
    /// trap-entry code.
    pub fn kernel(&mut self, command: BootCommand, reserved: &Vec<bool>, handler_va: usize)
        -> (a: Activation)
        requires
            old(self).proc_table.wf(),
            old(self).pageinfo_table.wf(),
            old(self).proc_table.current is None,
            forall|j: int| 0 <= j < NPROC ==> {
                &&& (#[trigger] old(self).proc_table.processes@[j]).p_state
                    == Procstate::P_FREE
                &&& old(self).proc_table.processes@[j].p_pagetable is None
            },
            old(self).pageinfo_table.pageinfo@.len() == NPAGES,
            old(self).vm.frames@.len() == NPAGES,
            forall|pn: int| 0 <= pn < NPAGES ==> old(self).vm.frames@[pn] is None,
            reserved@.len() == NPAGES,
            old(self).programs@.len() == 7,
            handler_va < MEMSIZE_PHYSICAL,
            KERNEL_START_ADDR < old(self).end_addr <= MEMSIZE_PHYSICAL,
        ensures
            final(self).wf(),
            !(a is Idle),
            a is Halt ==> a->Halt_reason == HaltReason::LoaderFailed,
            // Boot classification: every page the boot marks owned keeps
            // its record, except the kernel root frame, whose reference
            // count also counts the processes sharing it; that frame
            // keeps its owner and at least its one boot reference.
            forall|pn: int| 0 <= pn < NPAGES && pn != crate::vm::KERNEL_PAGETABLE_PN
                && (#[trigger] PhysicalPageInfoTable::boot_class(reserved@[pn],
                    (pn * 4096) as u64, old(self).end_addr as u64)).refcount != 0
                ==> final(self).pageinfo_table.pageinfo@[pn]
                    == PhysicalPageInfoTable::boot_class(reserved@[pn],
                        (pn * 4096) as u64, old(self).end_addr as u64),
            final(self).pageinfo_table.pageinfo@[crate::vm::KERNEL_PAGETABLE_PN as int]
                .owner == PhysicalPageInfoTable::boot_class(
                    reserved@[crate::vm::KERNEL_PAGETABLE_PN as int],
                    (crate::vm::KERNEL_PAGETABLE_PN * 4096) as u64,
                    old(self).end_addr as u64).owner,
            final(self).pageinfo_table.pageinfo@[crate::vm::KERNEL_PAGETABLE_PN as int]
                .refcount >= 1,
            // Success is owed for the single-setup commands: a loadable
            // image with free pages boots to an activation.
            command == BootCommand::Fork && boot_ready(old(self).programs@, reserved@,
                old(self).end_addr as int, 4) ==> a is Enter,
            command == BootCommand::ForkExit && boot_ready(old(self).programs@, reserved@,
                old(self).end_addr as int, 5) ==> a is Enter,
            command == BootCommand::Test && boot_ready(old(self).programs@, reserved@,
                old(self).end_addr as int, 6) ==> a is Enter,
            a is Enter ==> ({
                &&& a->Enter_pid == 1
                &&& final(self).proc_table.processes@[1].p_state == Procstate::P_RUNNABLE
                &&& final(self).proc_table.current == Some(1usize)
                &&& a->Enter_registers == final(self).proc_table.processes@[1].p_registers
            }),
            // When boot succeeds, each selected process is runnable with
            // its program's declared entry address and its own stack top.
            a is Enter ==> ({
                let procs = final(self).proc_table.processes@;
                let progs = old(self).programs@;
                match command {
                    BootCommand::Fork => boot_pair_ok(procs, progs, 1, 4),
                    BootCommand::ForkExit => boot_pair_ok(procs, progs, 1, 5),
                    BootCommand::Test => boot_pair_ok(procs, progs, 1, 6),
                    BootCommand::Test2 => boot_pair_ok(procs, progs, 1, 6)
                        && boot_pair_ok(procs, progs, 2, 6),
                    BootCommand::Default => boot_pair_ok(procs, progs, 1, 0)
                        && boot_pair_ok(procs, progs, 2, 1)
                        && boot_pair_ok(procs, progs, 3, 2)
                        && boot_pair_ok(procs, progs, 4, 3),
                }
            }),
    {
        match self.vm.virtual_memory_init(&mut self.pageinfo_table, handler_va) {
            Err(reason) => {
                return Activation::Halt { reason };
            },
            Ok(()) => {},
        }
        self.pageinfo_table.pageinfo_init(reserved, self.end_addr);
        proof {
            // The kernel root sits at the start of the kernel image, so
            // boot classification gives its frame exactly one reference.
            let rootpn = self.vm.kernel_root as int;
            assert(rootpn == crate::vm::KERNEL_PAGETABLE_PN);
            assert(self.pageinfo_table.pageinfo@[rootpn]
                == PhysicalPageInfoTable::boot_class(reserved@[rootpn],
                    (rootpn * 4096) as u64, self.end_addr as u64));
            assert(self.pageinfo_table.pageinfo@[rootpn].refcount == 1);
            assert(self.wf());
        }
        match command {
            BootCommand::Fork => {
                match self.process_setup(1, 4) {
                    Err(reason) => {
                        return Activation::Halt { reason };
                    },
                    Ok(()) => {},
                }
            },
            BootCommand::ForkExit => {
                match self.process_setup(1, 5) {
                    Err(reason) => {
                        return Activation::Halt { reason };
                    },
                    Ok(()) => {},
                }
            },
            BootCommand::Test => {
                match self.process_setup(1, 6) {
                    Err(reason) => {
                        return Activation::Halt { reason };
                    },
                    Ok(()) => {},
                }
            },
            BootCommand::Test2 => {
                match self.process_setup(1, 6) {
                    Err(reason) => {
                        return Activation::Halt { reason };
                    },
                    Ok(()) => {},
                }
                match self.process_setup(2, 6) {
                    Err(reason) => {
                        return Activation::Halt { reason };
                    },
                    Ok(()) => {},
                }
            },
            BootCommand::Default => {
                match self.process_setup(1, 0) {
                    Err(reason) => {
                        return Activation::Halt { reason };
                    },
                    Ok(()) => {},
                }
                match self.process_setup(2, 1) {
                    Err(reason) => {
                        return Activation::Halt { reason };
                    },
                    Ok(()) => {},
                }
                match self.process_setup(3, 2) {
                    Err(reason) => {
                        return Activation::Halt { reason };
                    },
                    Ok(()) => {},
                }
                match self.process_setup(4, 3) {
                    Err(reason) => {
                        return Activation::Halt { reason };
                    },
                    Ok(()) => {},
                }
            },
        }
        // Switch to the first process. Under the established invariant
        // its address space always passes activation.
        proof {
            lemma_wf_activation_ok(*self);
            assert(self.proc_table.processes@[1].p_pagetable is Some);
            assert(self.proc_table.processes@[1].p_pagetable->Some_0
                == self.vm.kernel_root);
        }
        let a: Activation = self.proc_table.run(&self.vm, 1);
        proof {
            assert(a is Enter);
        }
        a
    }
}


/// What the mapping-copy syscall decides for process `p`: resolve the
/// user's destination pointer, demand Writable and User-accessible
/// permission at both its start and its last byte, resolve the user's
/// source pointer, and copy the resolved record to the destination's
/// physical address; any failed demand means no copy.
pub open spec fn mapping_decision(vm: KernelPageTables, p: Proc) -> Option<MappingCopy> {
    let rt = p.p_pagetable->Some_0 as int;
    let mp = p.p_registers.reg_rdi;
    let sp = p.p_registers.reg_rsi;
    let m = lookup_spec(vm.frames@, rt, (mp as usize) as u64);
    if m.perm & 6 != 6 {
        None
    } else if mp > u64::MAX - (VAMAPPING_SIZE - 1) {
        None
    } else {
        let me = lookup_spec(vm.frames@, rt, ((mp + (VAMAPPING_SIZE - 1)) as usize) as u64);
        if me.perm & 6 != 6 {
            None
        } else {
            Some(MappingCopy {
                dst_pa: m.pa,
                value: lookup_spec(vm.frames@, rt, (sp as usize) as u64),
            })
        }
    }
}

/// The mapping-copy syscall's checks and resolution; the shell performs
/// the copy the decision describes. A destination whose last byte would
/// sit past the end of the address space fails the end check outright.
pub fn syscall_mapping(vm: &KernelPageTables, p: &Proc) -> (r: Option<MappingCopy>)
    requires
        vm.wf(),
        p.p_pagetable is Some,
        root_ok(vm.frames@, p.p_pagetable->Some_0 as int),
    ensures
        r == mapping_decision(*vm, *p),
{
    let rt: usize = p.p_pagetable.unwrap();
    let mapping_ptr: u64 = p.p_registers.reg_rdi;
    let ptr: u64 = p.p_registers.reg_rsi;
    let map: VAMapping = vm.virtual_memory_lookup(rt, mapping_ptr as usize);
    if map.perm & 6 != 6 {
        return None;
    }
    if mapping_ptr > u64::MAX - (VAMAPPING_SIZE - 1) {
        return None;
    }
    let endaddr: u64 = mapping_ptr + (VAMAPPING_SIZE - 1);
    let end_map: VAMapping = vm.virtual_memory_lookup(rt, endaddr as usize);
    if end_map.perm & 6 != 6 {
        return None;
    }
    let ptr_lookup: VAMapping = vm.virtual_memory_lookup(rt, ptr as usize);
    Some(MappingCopy { dst_pa: map.pa, value: ptr_lookup })
}

impl Kernel {
    /// The display-toggle syscall: a target pid of 0 flips the global
    /// memory-viewer flag; the caller's own pid flips its descriptor's
    /// display flag; any other target is a no-op.
    pub fn syscall_mem_tog(&mut self)
        requires
            old(self).proc_table.wf(),
            old(self).proc_table.current is Some,
        ensures
            final(self).proc_table.wf(),
            final(self).proc_table.current == old(self).proc_table.current,
            *final(self) == (Kernel {
                proc_table: final(self).proc_table,
                disp_global: final(self).disp_global,
                ..*old(self)
            }),
            ({
                let c = old(self).proc_table.current->Some_0 as int;
                let p = old(self).proc_table.processes@[c];
                let target = p.p_registers.reg_rdi as i32;
                if target == 0 {
                    &&& final(self).disp_global == old(self).disp_global ^ 1
                    &&& final(self).proc_table.processes@
                        == old(self).proc_table.processes@
                } else if target < 0 || target > NPROC as i32 || target != p.p_pid {
                    &&& final(self).disp_global == old(self).disp_global
                    &&& final(self).proc_table.processes@
                        == old(self).proc_table.processes@
                } else {
                    &&& final(self).disp_global == old(self).disp_global
                    &&& final(self).proc_table.processes@
                        == old(self).proc_table.processes@.update(c, Proc {
                            display_status: !p.display_status,
                            ..p
                        })
                }
            }),
    {
        let c: usize = self.proc_table.current.unwrap();
        let p: Proc = self.proc_table.processes[c];
        let target: i32 = p.p_registers.reg_rdi as i32;
        if target == 0 {
            self.disp_global = self.disp_global ^ 1;
        } else {
            if target < 0 || target > NPROC as i32 || target != p.p_pid {
                return ;
            }
            let mut p2: Proc = p;
            p2.display_status = !p2.display_status;
            self.proc_table.processes[c] = p2;
        }
    }

    /// Step five of the dispatcher: when the handled trap did not itself
    /// transfer control, return to the current process if it is still
    /// runnable, otherwise let the scheduler pick. Under the kernel
    /// invariant the chosen process always passes activation.
    fn run_or_schedule(&mut self) -> (a: Activation)
        requires
            old(self).wf(),
            old(self).proc_table.current is Some,
        ensures
            final(self).wf(),
            *final(self) == (Kernel { proc_table: final(self).proc_table, ..*old(self) }),
            final(self).proc_table.processes@ == old(self).proc_table.processes@,
            a is Enter ==> old(self).proc_table.processes@[a->Enter_pid as int].p_state
                == Procstate::P_RUNNABLE,
            ({
                let c = old(self).proc_table.current->Some_0 as int;
                let procs = old(self).proc_table.processes@;
                if procs[c].p_state == Procstate::P_RUNNABLE {
                    a == Activation::Enter {
                        pid: c as usize,
                        registers: procs[c].p_registers,
                        pagetable: old(self).vm.kernel_root,
                    }
                } else {
                    match next_runnable(procs, c) {
                        None => a is Idle,
                        Some(pid) => a == Activation::Enter {
                            pid: pid as usize,
                            registers: procs[pid].p_registers,
                            pagetable: old(self).vm.kernel_root,
                        },
                    }
                }
            }),
    {
        proof {
            lemma_wf_activation_ok(*self);
        }
        let c: usize = self.proc_table.current.unwrap();
        let st: Procstate = self.proc_table.processes[c].p_state;
        if st == Procstate::P_RUNNABLE {
            proof {
                assert(old(self).proc_table.processes@[c as int].p_pagetable is Some);
                assert(old(self).proc_table.processes@[c as int].p_pagetable->Some_0
                    == old(self).vm.kernel_root);
            }
            self.proc_table.run(&self.vm, c)
        } else {
            let a: Activation = self.proc_table.schedule(&self.vm);
            proof {
                let procs = old(self).proc_table.processes@;
                match next_runnable(procs, c as int) {
                    None => {},
                    Some(pid) => {
                        assert(procs[pid].p_state == Procstate::P_RUNNABLE);
                        assert(procs[pid].p_pagetable is Some);
                        assert(procs[pid].p_pagetable->Some_0 == old(self).vm.kernel_root);
                    },
                }
            }
            a
        }
    }
}


impl Kernel {
    /// Hand control to the scheduler. Under the kernel invariant the
    /// process it picks, if any, always passes activation.
    fn sched(&mut self) -> (a: Activation)
        requires
            old(self).wf(),
            old(self).proc_table.current is Some,
        ensures
            final(self).wf(),
            *final(self) == (Kernel { proc_table: final(self).proc_table, ..*old(self) }),
            final(self).proc_table.processes@ == old(self).proc_table.processes@,
            a is Enter ==> old(self).proc_table.processes@[a->Enter_pid as int].p_state
                == Procstate::P_RUNNABLE,
            ({
                let c = old(self).proc_table.current->Some_0 as int;
                let procs = old(self).proc_table.processes@;
                match next_runnable(procs, c) {
                    None => a is Idle
                        && final(self).proc_table.current == old(self).proc_table.current,
                    Some(pid) => a == Activation::Enter {
                        pid: pid as usize,
                        registers: procs[pid].p_registers,
                        pagetable: old(self).vm.kernel_root,
                    } && final(self).proc_table.current == Some(pid as usize),
                }
            }),
    {
        proof {
            lemma_wf_activation_ok(*self);
        }
        let c: usize = self.proc_table.current.unwrap();
        let a: Activation = self.proc_table.schedule(&self.vm);
        proof {
            let procs = old(self).proc_table.processes@;
            match next_runnable(procs, c as int) {
                None => {},
                Some(pid) => {
                    assert(procs[pid].p_state == Procstate::P_RUNNABLE);
                    assert(procs[pid].p_pagetable is Some);
                    assert(procs[pid].p_pagetable->Some_0 == old(self).vm.kernel_root);
                },
            }
        }
        a
    }

    /// The exception handler, invoked once per hardware trap with the
    /// trapped register snapshot. Saves the snapshot into the current
    /// process, moves it to the kernel's address space, checks the
    /// virtual-memory invariants (except under a kernel fault), and
    /// dispatches on the interrupt number; the outcome says how to leave
    /// the kernel, whether to refresh the memory viewer, and what copy
    /// the mapping syscall decided. A user-mode page fault demotes only
    /// the faulting process to Broken; a kernel-mode page fault halts.
    #[verifier::rlimit(80)]
    pub fn exception(&mut self, reg: &x86_64_registers) -> (t: TrapOutcome)
        requires
            old(self).wf(),
            old(self).proc_table.current is Some,
            1 <= old(self).proc_table.current->Some_0 < NPROC,
        ensures
            final(self).wf(),
            final(self).programs == old(self).programs,
            final(self).start_data == old(self).start_data,
            final(self).end_addr == old(self).end_addr,
            final(self).vm.kernel_root == old(self).vm.kernel_root,
            t.show_memviewer == (((reg.reg_intno != INT_PAGEFAULT
                && reg.reg_intno != INT_GPF) || reg.reg_err & PFERR_USER != 0)
                && old(self).disp_global != 0),
            final(self).ticks as int == if reg.reg_intno == INT_TIMER {
                (old(self).ticks + 1) % 0x100000000
            } else {
                old(self).ticks as int
            },
            reg.reg_intno != INT_SYS_MAPPING ==> t.mapping_copy is None,
            // Only the page-alloc syscall may touch the ledger or the
            // page tables.
            reg.reg_intno != INT_SYS_PAGE_ALLOC ==> {
                &&& final(self).pageinfo_table == old(self).pageinfo_table
                &&& final(self).vm == old(self).vm
            },
            forall|j: int| 0 <= j < NPROC
                && j != old(self).proc_table.current->Some_0 as int
                ==> final(self).proc_table.processes@[j]
                    == old(self).proc_table.processes@[j],
            // A kernel-mode page fault is fatal; no process state changes.
            reg.reg_intno == INT_PAGEFAULT && reg.reg_err & PFERR_USER == 0 ==> t.exit
                == (Activation::Halt { reason: HaltReason::KernelPageFault })
                && forall|j: int| 0 <= j < NPROC
                    ==> (#[trigger] final(self).proc_table.processes@[j]).p_state
                        == old(self).proc_table.processes@[j].p_state,
            // A user-mode page fault demotes exactly the faulting process.
            reg.reg_intno == INT_PAGEFAULT && reg.reg_err & PFERR_USER != 0 ==> ({
                let c = old(self).proc_table.current->Some_0 as int;
                &&& final(self).proc_table.processes@[c].p_state == Procstate::P_BROKEN
                &&& (t.exit is Enter ==> t.exit->Enter_pid != c)
            }),
            // Any other trap leaves every process state as it was.
            reg.reg_intno != INT_PAGEFAULT ==> forall|j: int| 0 <= j < NPROC
                ==> (#[trigger] final(self).proc_table.processes@[j]).p_state
                    == old(self).proc_table.processes@[j].p_state,
            // The dispatcher never activates a non-runnable descriptor.
            t.exit is Enter ==> final(self).proc_table.processes@[
                t.exit->Enter_pid as int].p_state == Procstate::P_RUNNABLE,
            // The panic syscall halts with the resolved message address.
            reg.reg_intno == INT_SYS_PANIC ==> t.exit == if reg.reg_rdi == 0 {
                Activation::Halt { reason: HaltReason::PanicNullMessage }
            } else {
                Activation::Halt { reason: HaltReason::UserPanic {
                    message_pa: lookup_spec(old(self).vm.frames@,
                        old(self).vm.kernel_root as int,
                        (reg.reg_rdi as usize) as u64).pa,
                } }
            },
            // Get-pid answers in the return-value register.
            reg.reg_intno == INT_SYS_GETPID ==> ({
                let c = old(self).proc_table.current->Some_0 as int;
                final(self).proc_table.processes@[c].p_registers == (x86_64_registers {
                    reg_rax: c as u64,
                    ..*reg
                })
            }),
            // Page-alloc allocates and identity-maps the requested page,
            // answering 0, or answers -1 leaving the ledger unchanged.
            reg.reg_intno == INT_SYS_PAGE_ALLOC ==> ({
                let c = old(self).proc_table.current->Some_0 as int;
                let addr = reg.reg_rdi as usize;
                let ok = addr % 4096 == 0 && addr as int / 4096 < NPAGES
                    && old(self).pageinfo_table.pageinfo@[addr as int / 4096].refcount
                        == 0;
                &&& (ok ==> {
                    &&& final(self).pageinfo_table.pageinfo@
                        == old(self).pageinfo_table.pageinfo@.update(addr as int / 4096,
                            crate::ph_page_info::PhysicalPageInfo {
                                owner: c as i8,
                                refcount: 1i8,
                            })
                    &&& maps_to(final(self).vm.frames@, old(self).vm.kernel_root as int,
                        addr as u64, addr as u64, 7u64)
                    &&& final(self).proc_table.processes@[c].p_registers
                        == (x86_64_registers { reg_rax: 0, ..*reg })
                })
                &&& (!ok ==> {
                    &&& final(self).pageinfo_table == old(self).pageinfo_table
                    &&& final(self).vm == old(self).vm
                    &&& final(self).proc_table.processes@[c].p_registers
                        == (x86_64_registers { reg_rax: (-1i32) as u64, ..*reg })
                })
            }),
            // The mapping-copy decision, taken over the saved snapshot.
            reg.reg_intno == INT_SYS_MAPPING ==> t.mapping_copy == mapping_decision(
                old(self).vm,
                Proc {
                    p_registers: *reg,
                    p_pagetable: Some(old(self).vm.kernel_root),
                    ..old(self).proc_table.processes@[
                        old(self).proc_table.current->Some_0 as int]
                },
            ),
            // The display-toggle flips the global flag on target 0, the
            // caller's own flag on its own pid, and nothing otherwise.
            reg.reg_intno == INT_SYS_MEM_TOG ==> ({
                let c = old(self).proc_table.current->Some_0 as int;
                let target = reg.reg_rdi as i32;
                &&& (target == 0 ==> final(self).disp_global
                    == old(self).disp_global ^ 1)
                &&& (target != 0 ==> final(self).disp_global == old(self).disp_global)
                &&& (target != 0 && target == c as i32 ==> final(self)
                    .proc_table.processes@[c].display_status
                    == !old(self).proc_table.processes@[c].display_status)
            }),
            reg.reg_intno != INT_SYS_MEM_TOG
                ==> final(self).disp_global == old(self).disp_global,
            // Yield and timer hand control to the scheduler: the next
            // runnable process after the caller, or idle.
            (reg.reg_intno == INT_SYS_YIELD || reg.reg_intno == INT_TIMER) ==> ({
                let c = old(self).proc_table.current->Some_0 as int;
                let procs1 = final(self).proc_table.processes@;
                match next_runnable(procs1, c) {
                    None => t.exit is Idle,
                    Some(pid) => t.exit == (Activation::Enter {
                        pid: pid as usize,
                        registers: procs1[pid].p_registers,
                        pagetable: old(self).vm.kernel_root,
                    }),
                }
            }),
            // A user-mode page fault falls through to the scheduler.
            reg.reg_intno == INT_PAGEFAULT && reg.reg_err & PFERR_USER != 0 ==> ({
                let c = old(self).proc_table.current->Some_0 as int;
                let procs1 = final(self).proc_table.processes@;
                match next_runnable(procs1, c) {
                    None => t.exit is Idle,
                    Some(pid) => t.exit == (Activation::Enter {
                        pid: pid as usize,
                        registers: procs1[pid].p_registers,
                        pagetable: old(self).vm.kernel_root,
                    }),
                }
            }),
            // The remaining syscalls return to the caller while it stays
            // runnable, and otherwise hand control to the scheduler.
            (reg.reg_intno == INT_SYS_GETPID || reg.reg_intno == INT_SYS_PAGE_ALLOC
                || reg.reg_intno == INT_SYS_MAPPING || reg.reg_intno == INT_SYS_MEM_TOG)
                ==> ({
                let c = old(self).proc_table.current->Some_0 as int;
                let procs1 = final(self).proc_table.processes@;
                if procs1[c].p_state == Procstate::P_RUNNABLE {
                    t.exit == (Activation::Enter {
                        pid: c as usize,
                        registers: procs1[c].p_registers,
                        pagetable: old(self).vm.kernel_root,
                    })
                } else {
                    match next_runnable(procs1, c) {
                        None => t.exit is Idle,
                        Some(pid) => t.exit == (Activation::Enter {
                            pid: pid as usize,
                            registers: procs1[pid].p_registers,
                            pagetable: old(self).vm.kernel_root,
                        }),
                    }
                }
            }),
            // Unknown traps go to the shell's default handler and are
            // fatal for this kernel.
            !(reg.reg_intno == INT_SYS_PANIC || reg.reg_intno == INT_SYS_GETPID
                || reg.reg_intno == INT_SYS_YIELD || reg.reg_intno == INT_SYS_PAGE_ALLOC
                || reg.reg_intno == INT_SYS_MAPPING || reg.reg_intno == INT_SYS_MEM_TOG
                || reg.reg_intno == INT_TIMER || reg.reg_intno == INT_PAGEFAULT)
                ==> t.exit == (Activation::Halt {
                    reason: HaltReason::UnhandledTrap { intno: reg.reg_intno },
                }),
    {
        let c: usize = self.proc_table.current.unwrap();
        // Save the snapshot; the current process now sits in the kernel's
        // address space, so kernel data is safe to touch.
        self.proc_table.exception(reg, self.vm.kernel_root);
        proof {
            assert(self.wf());
        }
        // Check the virtual-memory invariants and decide on the memory
        // viewer, unless this trap is itself a kernel fault.
        let check_needed: bool = (reg.reg_intno != INT_PAGEFAULT
            && reg.reg_intno != INT_GPF) || reg.reg_err & PFERR_USER != 0;
        let mut show: bool = false;
        if check_needed {
            match self.check_virtual_memory() {
                Err(reason) => {
                    proof {
                        lemma_wf_mappings_ok(*self);
                        assert(false);
                    }
                    return TrapOutcome {
                        exit: Activation::Halt { reason },
                        show_memviewer: false,
                        mapping_copy: None,
                    };
                },
                Ok(()) => {},
            }
            if self.disp_global != 0 {
                show = true;
            }
        }
        // The keyboard poll for an outside stop request is the shell's.
        let curr: Proc = self.proc_table.get_current_process();
        let intno: u64 = reg.reg_intno;
        if intno == INT_SYS_PANIC {
            let addr: u64 = curr.p_registers.reg_rdi;
            if addr == 0 {
                return TrapOutcome {
                    exit: Activation::Halt { reason: HaltReason::PanicNullMessage },
                    show_memviewer: show,
                    mapping_copy: None,
                };
            }
            let rt: usize = curr.p_pagetable.unwrap();
            let map: VAMapping = self.vm.virtual_memory_lookup(rt, addr as usize);
            return TrapOutcome {
                exit: Activation::Halt {
                    reason: HaltReason::UserPanic { message_pa: map.pa },
                },
                show_memviewer: show,
                mapping_copy: None,
            };
        }
        if intno == INT_SYS_GETPID {
            self.proc_table.set_register_rax(curr.p_pid as u64);
            let exit: Activation = self.run_or_schedule();
            return TrapOutcome { exit, show_memviewer: show, mapping_copy: None };
        }
        if intno == INT_SYS_YIELD {
            let exit: Activation = self.sched();
            return TrapOutcome { exit, show_memviewer: show, mapping_copy: None };
        }
        if intno == INT_SYS_PAGE_ALLOC {
            let addr: u64 = curr.p_registers.reg_rdi;
            let r: i32 = self.assign_physical_page(addr as usize, curr.p_pid as usize);
            if r >= 0 {
                let rt: usize = curr.p_pagetable.unwrap();
                let au: usize = addr as usize;
                let ghost fs_mid = self.vm.frames@;
                proof {
                    assert forall|j: int| 0 <= j < 4096 as int / 4096
                        implies #[trigger] crate::vm::last_level_spec(fs_mid, rt as int,
                            (au + j * 4096) as u64, 0) is Some by {
                        assert(j == 0);
                        let vaj = (au + j * 4096) as u64;
                        assert(vaj == au);
                        assert(au < MEMSIZE_PHYSICAL);
                        assert(lookup_spec(fs_mid, rt as int, vaj).perm == 7);
                        if crate::vm::last_level_spec(fs_mid, rt as int, vaj, 0) is None {
                            assert(lookup_spec(fs_mid, rt as int, vaj).perm == 0);
                            assert(false);
                        }
                    }
                }
                let _mapped: i32 = self.vm.virtual_memory_map(&mut self.pageinfo_table,
                    rt, au, au, 4096, 7);
                proof {
                    assert(_mapped == 0);
                    assert(maps_to(self.vm.frames@, rt as int, (au + 0 * 4096) as u64,
                        (au + 0 * 4096) as u64, 7i32 as u64));
                    assert forall|j: int| 0 <= j < 4096 as int / 4096
                        implies #[trigger] maps_to(self.vm.frames@, rt as int,
                            (au as int + j * 4096) as u64, (au as int + j * 4096) as u64,
                            7u64) by {
                        assert(j == 0);
                    }
                    crate::vm::lemma_identity_after_identity_map(fs_mid, self.vm.frames@,
                        rt as int, au as int, 4096);
                }
            }
            self.proc_table.set_register_rax(r as u64);
            let exit: Activation = self.run_or_schedule();
            return TrapOutcome { exit, show_memviewer: show, mapping_copy: None };
        }
        if intno == INT_SYS_MAPPING {
            let copy: Option<MappingCopy> = syscall_mapping(&self.vm, &curr);
            let exit: Activation = self.run_or_schedule();
            return TrapOutcome { exit, show_memviewer: show, mapping_copy: copy };
        }
        if intno == INT_SYS_MEM_TOG {
            self.syscall_mem_tog();
            let exit: Activation = self.run_or_schedule();
            return TrapOutcome { exit, show_memviewer: show, mapping_copy: None };
        }
        if intno == INT_TIMER {
            self.ticks = if self.ticks == 0xFFFFFFFF {
                0
            } else {
                self.ticks + 1
            };
            let exit: Activation = self.sched();
            return TrapOutcome { exit, show_memviewer: show, mapping_copy: None };
        }
        if intno == INT_PAGEFAULT {
            if reg.reg_err & PFERR_USER == 0 {
                return TrapOutcome {
                    exit: Activation::Halt { reason: HaltReason::KernelPageFault },
                    show_memviewer: show,
                    mapping_copy: None,
                };
            }
            let mut broken: Proc = self.proc_table.processes[c];
            broken.p_state = Procstate::P_BROKEN;
            self.proc_table.processes[c] = broken;
            proof {
                assert(self.wf());
            }
            let exit: Activation = self.sched();
            proof {
                if exit is Enter {
                    assert(self.proc_table.processes@[exit->Enter_pid as int].p_state
                        == Procstate::P_RUNNABLE);
                }
            }
            return TrapOutcome { exit, show_memviewer: show, mapping_copy: None };
        }
        TrapOutcome {
            exit: Activation::Halt { reason: HaltReason::UnhandledTrap { intno } },
            show_memviewer: show,
            mapping_copy: None,
        }
    }
}


/// Process `pid` was set up from program `n`: runnable, its saved
/// instruction pointer at the program's declared entry address, and its
/// stack top at the pid-indexed stack address.
pub open spec fn boot_pair_ok(procs: Seq<Proc>, progs: Seq<RamImage>, pid: int, n: int)
    -> bool {
    &&& procs[pid].p_state == Procstate::P_RUNNABLE
    &&& procs[pid].p_registers.reg_rip == spec_entry(progs[n].bytes@) as u64
    &&& procs[pid].p_registers.reg_rsp == PROC_START_ADDR + PROC_SIZE * pid
}


/// The number of descriptors among the first `i` that are not free and
/// share the kernel's page table as their root.
pub open spec fn count_kernel_sharers(procs: Seq<Proc>, root: usize, i: int) -> int
    decreases i,
{
    if i <= 0 {
        0
    } else {
        count_kernel_sharers(procs, root, i - 1) + if procs[i - 1].p_state
            != Procstate::P_FREE && procs[i - 1].p_pagetable == Some(root) {
            1int
        } else {
            0int
        }
    }
}

impl Kernel {
    /// The ownership invariant of the page-table tree rooted at frame
    /// `pt` at depth `level`: the ledger records the frame with exactly
    /// this owner and reference count, and every non-zero entry of a
    /// non-leaf table points at a child table one level deeper whose
    /// frame is owned by the same owner with one reference.
    pub open spec fn ownership_ok(self, pt: int, level: int, owner: i8, refcount: i8)
        -> bool
        decreases 3 - level,
    {
        &&& 0 <= pt < NPAGES
        &&& self.pageinfo_table.pageinfo@[pt].owner == owner
        &&& self.pageinfo_table.pageinfo@[pt].refcount == refcount
        &&& (level < 3 ==> forall|i: int| 0 <= i < 512
            && #[trigger] entry_of(self.vm.frames@, pt, i) != 0 ==> {
                let child = target_of(entry_of(self.vm.frames@, pt, i));
                &&& is_table(self.vm.frames@, child)
                &&& level_of(self.vm.frames@, child) == level + 1
                &&& self.ownership_ok(child, level + 1, owner, 1i8)
            })
    }

    /// Walk the page-table tree under frame `pt` at depth `level` and
    /// check that the ledger records each frame with the expected owner
    /// and reference count — `refcount` for `pt` itself, one for every
    /// table below it. Succeeds exactly when `ownership_ok` holds; a
    /// violation is fatal to the caller.
    pub fn check_page_table_ownership_level(&self, pt: usize, level: usize, owner: i8,
        refcount: i8) -> (r: Result<(), HaltReason>)
        requires
            crate::vm::arena_wf(self.vm.frames@),
            self.pageinfo_table.wf(),
            is_table(self.vm.frames@, pt as int),
            level_of(self.vm.frames@, pt as int) == level,
            level <= 3,
        ensures
            r is Ok <==> self.ownership_ok(pt as int, level as int, owner, refcount),
        decreases 3 - level,
    {
        proof {
            assert(crate::vm::frame_wf(self.vm.frames@, pt as int));
        }
        let rec = self.pageinfo_table.get_page_info_ref(pt).unwrap();
        if rec.owner != owner || rec.refcount != refcount {
            return Err(HaltReason::PageOwnershipMismatch);
        }
        if level < 3 {
            let mut i: usize = 0;
            while i < 512
                invariant
                    crate::vm::arena_wf(self.vm.frames@),
                    self.pageinfo_table.wf(),
                    is_table(self.vm.frames@, pt as int),
                    level_of(self.vm.frames@, pt as int) == level,
                    level < 3,
                    i <= 512,
                    forall|j: int| 0 <= j < i
                        && #[trigger] entry_of(self.vm.frames@, pt as int, j) != 0 ==> {
                        let child = target_of(entry_of(self.vm.frames@, pt as int, j));
                        &&& is_table(self.vm.frames@, child)
                        &&& level_of(self.vm.frames@, child) == level + 1
                        &&& self.ownership_ok(child, level as int + 1, owner, 1i8)
                    },
                decreases 512 - i,
            {
                let e: u64 = self.vm.read_entry(pt, i);
                if e != 0 {
                    let child: usize = (e / 4096) as usize;
                    if !self.vm.is_table_exec(child) {
                        return Err(HaltReason::PageOwnershipMismatch);
                    }
                    if self.vm.read_level(child) != level + 1 {
                        return Err(HaltReason::PageOwnershipMismatch);
                    }
                    match self.check_page_table_ownership_level(child, level + 1, owner,
                        1) {
                        Err(reason) => {
                            return Err(reason);
                        },
                        Ok(()) => {},
                    }
                }
                i = i + 1;
            }
        }
        Ok(())
    }

    /// Check operating-system invariants about ownership and reference
    /// counts for the page-table tree rooted at `pt`. The kernel's own
    /// table is owned by the kernel and referenced once per process that
    /// shares it plus once for itself; any other tree belongs to `pid`
    /// with a single reference.
    pub fn check_page_table_ownership(&self, pt: usize, pid: i32)
        -> (r: Result<(), HaltReason>)
        requires
            crate::vm::arena_wf(self.vm.frames@),
            self.pageinfo_table.wf(),
            self.proc_table.wf(),
            is_table(self.vm.frames@, pt as int),
            level_of(self.vm.frames@, pt as int) == 0,
        ensures
            r is Ok <==> ({
                let owner = if pt == self.vm.kernel_root {
                    -2i8
                } else {
                    pid as i8
                };
                let expected = if pt == self.vm.kernel_root {
                    1 + count_kernel_sharers(self.proc_table.processes@,
                        self.vm.kernel_root, NPROC as int)
                } else {
                    1int
                };
                self.ownership_ok(pt as int, 0, owner, expected as i8)
            }),
    {
        let mut owner: i8 = pid as i8;
        let mut expected: i8 = 1;
        if pt == self.vm.kernel_root {
            owner = -2;
            let mut j: usize = 0;
            while j < NPROC
                invariant
                    self.proc_table.wf(),
                    j <= NPROC,
                    expected as int == 1 + count_kernel_sharers(
                        self.proc_table.processes@, self.vm.kernel_root, j as int),
                    1 <= expected as int <= 1 + j,
                decreases NPROC - j,
            {
                let p: &Proc = self.proc_table.get_process_by_pid(j);
                let shares: bool = match p.p_pagetable {
                    Some(rt) => rt == self.vm.kernel_root,
                    None => false,
                };
                if p.p_state != Procstate::P_FREE && shares {
                    expected = expected + 1;
                }
                j = j + 1;
            }
        }
        self.check_page_table_ownership_level(pt, 0, owner, expected)
    }
}

} // verus!
