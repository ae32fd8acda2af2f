//! Scenario tests for boot, per-process setup, the scheduler and the
//! exception dispatcher.

use weensy_kernel::control::{Activation, BootCommand, HaltReason};
use weensy_kernel::kernel::Kernel;
use weensy_kernel::kloader::RamImage;
use weensy_kernel::ph_page_info::PhysicalPageInfoTable;
use weensy_kernel::process::ProcessTable;
use weensy_kernel::vm::KernelPageTables;
use weensy_kernel::x86_64::{x86_64_registers, Procstate};

fn put_u16(b: &mut Vec<u8>, off: usize, v: u16) {
    b[off] = v as u8;
    b[off + 1] = (v >> 8) as u8;
}

fn put_u32(b: &mut Vec<u8>, off: usize, v: u32) {
    for i in 0..4 {
        b[off + i] = (v >> (8 * i)) as u8;
    }
}

fn put_u64(b: &mut Vec<u8>, off: usize, v: u64) {
    for i in 0..8 {
        b[off + i] = (v >> (8 * i)) as u8;
    }
}

fn mk_image(entry: u64, va: u64, memsz: u64) -> Vec<u8> {
    let mut b = vec![0u8; 120];
    put_u32(&mut b, 0, 1179403647);
    put_u64(&mut b, 24, entry);
    put_u64(&mut b, 32, 64);
    put_u16(&mut b, 56, 1);
    put_u32(&mut b, 64, 1);
    put_u64(&mut b, 64 + 16, va);
    put_u64(&mut b, 64 + 40, memsz);
    b
}

/// Seven distinct single-page programs at disjoint addresses.
fn programs() -> Vec<RamImage> {
    let mut v = Vec::new();
    for i in 0..7u64 {
        let va = 0x100000 + i * 0x2000;
        v.push(RamImage { bytes: mk_image(va, va, 0x1000) });
    }
    v
}

/// A kernel booted with the test program as process 1.
fn booted() -> Kernel {
    let mut k = Kernel::new();
    k.install_programs(programs());
    let reserved = vec![false; 512];
    let a = k.kernel(BootCommand::Test, &reserved, 0x40000);
    match a {
        Activation::Enter { pid, .. } => assert_eq!(pid, 1),
        _ => panic!("boot did not enter process 1"),
    }
    k
}

fn trap(intno: u64) -> x86_64_registers {
    let mut r = x86_64_registers::default();
    r.reg_intno = intno;
    r
}

#[test]
fn boot_enters_first_process() {
    let k = booted();
    let p1 = k.proc_table.get_process_by_pid(1);
    assert_eq!(p1.p_state, Procstate::P_RUNNABLE);
    // The saved instruction pointer is the test program's entry address.
    assert_eq!(p1.p_registers.reg_rip, 0x100000 + 6 * 0x2000);
    // The stack top sits at the pid-indexed stack address.
    assert_eq!(p1.p_registers.reg_rsp, 0x140000);
    assert_eq!(k.proc_table.current, Some(1));
}

#[test]
fn boot_default_spawns_four_processes() {
    let mut k = Kernel::new();
    k.install_programs(programs());
    let reserved = vec![false; 512];
    let a = k.kernel(BootCommand::Default, &reserved, 0x40000);
    assert!(matches!(a, Activation::Enter { pid: 1, .. }));
    for pid in 1..=4usize {
        let p = k.proc_table.get_process_by_pid(pid);
        assert_eq!(p.p_state, Procstate::P_RUNNABLE);
        assert_eq!(p.p_registers.reg_rip, 0x100000 + ((pid - 1) as u64) * 0x2000);
        assert_eq!(p.p_registers.reg_rsp, 0x100000 + 0x40000 * pid as u64);
    }
    assert_eq!(k.proc_table.get_process_by_pid(5).p_state, Procstate::P_FREE);
}

#[test]
fn boot_halts_on_bad_image() {
    let mut k = Kernel::new();
    let mut progs = programs();
    progs[6].bytes[0] = 0; // break the magic of the test program
    k.install_programs(progs);
    let reserved = vec![false; 512];
    let a = k.kernel(BootCommand::Test, &reserved, 0x40000);
    assert_eq!(a, Activation::Halt { reason: HaltReason::LoaderFailed });
}

#[test]
fn setup_marks_runnable_and_sets_entry() {
    // setup always leaves the descriptor runnable with the program's
    // declared entry address, for each program index.
    let mut k = Kernel::new();
    k.install_programs(programs());
    let reserved = vec![false; 512];
    let a = k.kernel(BootCommand::Test, &reserved, 0x40000);
    assert!(matches!(a, Activation::Enter { .. }));
    for n in 0..4usize {
        let pid = n + 1;
        if pid == 1 {
            continue; // already set up by boot
        }
        assert!(k.process_setup(pid, n).is_ok());
        let p = k.proc_table.get_process_by_pid(pid);
        assert_eq!(p.p_state, Procstate::P_RUNNABLE);
        assert_eq!(p.p_registers.reg_rip, 0x100000 + (n as u64) * 0x2000);
    }
}

#[test]
fn schedule_wraps_fully_around() {
    // With only process 1 runnable, scheduling from process 1's context
    // selects process 1 again rather than spinning on a non-runnable
    // neighbor.
    let (vm, pt) = {
        let mut vm = KernelPageTables::new();
        let mut ledger = PhysicalPageInfoTable::new();
        vm.virtual_memory_init(&mut ledger, 0x40000).unwrap();
        let mut pt = ProcessTable::new();
        pt.processes[1].p_state = Procstate::P_RUNNABLE;
        pt.processes[1].p_pagetable = Some(vm.kernel_root);
        pt.current = Some(1);
        (vm, pt)
    };
    let mut pt = pt;
    let a = pt.schedule(&vm);
    match a {
        Activation::Enter { pid, .. } => assert_eq!(pid, 1),
        _ => panic!("expected to re-enter process 1"),
    }
}

#[test]
fn schedule_picks_next_runnable() {
    let mut vm = KernelPageTables::new();
    let mut ledger = PhysicalPageInfoTable::new();
    vm.virtual_memory_init(&mut ledger, 0x40000).unwrap();
    let mut pt = ProcessTable::new();
    for pid in [2usize, 5] {
        pt.processes[pid].p_state = Procstate::P_RUNNABLE;
        pt.processes[pid].p_pagetable = Some(vm.kernel_root);
    }
    pt.current = Some(2);
    // From 2, the next runnable pid is 5; 3 and 4 are skipped.
    let a = pt.schedule(&vm);
    assert!(matches!(a, Activation::Enter { pid: 5, .. }));
    // From 5 it wraps past 0 (never used) back to 2.
    let a2 = pt.schedule(&vm);
    assert!(matches!(a2, Activation::Enter { pid: 2, .. }));
}

#[test]
fn schedule_idles_with_nothing_runnable() {
    let mut vm = KernelPageTables::new();
    let mut ledger = PhysicalPageInfoTable::new();
    vm.virtual_memory_init(&mut ledger, 0x40000).unwrap();
    let mut pt = ProcessTable::new();
    pt.current = Some(1);
    assert!(matches!(pt.schedule(&vm), Activation::Idle));
}

#[test]
fn getpid_answers_in_rax() {
    let mut k = booted();
    let t = k.exception(&trap(49));
    assert_eq!(k.proc_table.get_process_by_pid(1).p_registers.reg_rax, 1);
    match t.exit {
        Activation::Enter { pid, registers, .. } => {
            assert_eq!(pid, 1);
            assert_eq!(registers.reg_rax, 1);
        },
        _ => panic!("expected to re-enter the caller"),
    }
}

#[test]
fn yield_reschedules() {
    let mut k = booted();
    // Only process 1 is runnable: yielding selects it again.
    let t = k.exception(&trap(50));
    assert!(matches!(t.exit, Activation::Enter { pid: 1, .. }));
}

#[test]
fn timer_ticks_and_reschedules() {
    let mut k = booted();
    assert_eq!(k.ticks, 0);
    let t = k.exception(&trap(32));
    assert_eq!(k.ticks, 1);
    assert!(matches!(t.exit, Activation::Enter { pid: 1, .. }));
}

#[test]
fn page_alloc_allocates_and_maps() {
    let mut k = booted();
    let mut r = trap(51);
    r.reg_rdi = 0x180000;
    let t = k.exception(&r);
    assert_eq!(k.proc_table.get_process_by_pid(1).p_registers.reg_rax, 0);
    let rec = k.pageinfo_table.get_page_info_ref(0x180).unwrap();
    assert_eq!(rec.owner, 1);
    assert_eq!(rec.refcount, 1);
    let m = k.vm.virtual_memory_lookup(k.vm.kernel_root, 0x180000);
    assert_eq!(m.pa, 0x180000);
    assert_eq!(m.perm, 7);
    assert!(matches!(t.exit, Activation::Enter { pid: 1, .. }));
    // Allocating the same page again fails with -1 in rax.
    let _t2 = k.exception(&r);
    assert_eq!(k.proc_table.get_process_by_pid(1).p_registers.reg_rax, u64::MAX);
}

#[test]
fn mapping_copy_checks_permissions() {
    let mut k = booted();
    // No writable user mapping at the destination: no copy.
    let mut r = trap(54);
    r.reg_rdi = 0x40000000;
    r.reg_rsi = 0x2000;
    let t = k.exception(&r);
    assert!(t.mapping_copy.is_none());
    // Give the process one page and aim the destination at it.
    let mut ra = trap(51);
    ra.reg_rdi = 0x180000;
    k.exception(&ra);
    let mut r2 = trap(54);
    r2.reg_rdi = 0x180000;
    r2.reg_rsi = 0x5000;
    let t2 = k.exception(&r2);
    let copy = t2.mapping_copy.expect("permission checks pass");
    assert_eq!(copy.dst_pa, 0x180000);
    assert_eq!(copy.value.pa, 0x5000); // the identity-mapped source
    assert_eq!(copy.value.perm, 7);
}

#[test]
fn mapping_copy_demands_user_access_at_end() {
    // The destination range must be Writable and User-accessible at both
    // its start and its last byte; a last byte on a page mapped without
    // User access fails the check even though that page is Present and
    // Writable.
    let mut k = booted();
    let root = k.vm.kernel_root;
    let mut ra = trap(51);
    ra.reg_rdi = 0x190000; // a page with Present|Writable|User
    k.exception(&ra);
    // The next page is re-mapped Present|Writable only.
    assert_eq!(
        k.vm.virtual_memory_map(&mut k.pageinfo_table, root, 0x191000, 0x191000, 0x1000, 3),
        0
    );
    let mut r = trap(54);
    r.reg_rdi = 0x190FF8; // the 16-byte record straddles into the next page
    r.reg_rsi = 0x2000;
    let t = k.exception(&r);
    assert!(t.mapping_copy.is_none());
    // Wholly inside the user page, the copy is decided.
    let mut r2 = trap(54);
    r2.reg_rdi = 0x190100;
    r2.reg_rsi = 0x2000;
    let t2 = k.exception(&r2);
    assert!(t2.mapping_copy.is_some());
}

#[test]
fn mem_tog_flips_flags() {
    let mut k = booted();
    assert_eq!(k.disp_global, 1);
    let t = k.exception(&trap(56)); // target pid 0: global flag
    assert_eq!(k.disp_global, 0);
    assert!(matches!(t.exit, Activation::Enter { pid: 1, .. }));
    let mut r = trap(56);
    r.reg_rdi = 1; // the caller's own pid: its display flag
    k.exception(&r);
    assert_eq!(k.proc_table.get_process_by_pid(1).display_status, 0xFF);
    let mut r2 = trap(56);
    r2.reg_rdi = 2; // someone else's pid: a no-op
    k.exception(&r2);
    assert_eq!(k.proc_table.get_process_by_pid(2).display_status, 0);
}

#[test]
fn user_page_fault_breaks_only_faulting_process() {
    let mut k = Kernel::new();
    k.install_programs(programs());
    let reserved = vec![false; 512];
    k.kernel(BootCommand::Default, &reserved, 0x40000);
    // Process 1 faults in user mode.
    let mut r = trap(0xe);
    r.reg_err = 4;
    let t = k.exception(&r);
    assert_eq!(k.proc_table.get_process_by_pid(1).p_state, Procstate::P_BROKEN);
    for pid in 2..=4usize {
        assert_eq!(k.proc_table.get_process_by_pid(pid).p_state, Procstate::P_RUNNABLE);
    }
    // Scheduling moved on to the next runnable process.
    assert!(matches!(t.exit, Activation::Enter { pid: 2, .. }));
}

#[test]
fn kernel_page_fault_halts() {
    let mut k = booted();
    let mut r = trap(0xe);
    r.reg_err = 0;
    let t = k.exception(&r);
    assert_eq!(t.exit, Activation::Halt { reason: HaltReason::KernelPageFault });
    assert_eq!(k.proc_table.get_process_by_pid(1).p_state, Procstate::P_RUNNABLE);
}

#[test]
fn last_process_broken_idles() {
    let mut k = booted();
    let mut r = trap(0xe);
    r.reg_err = 4;
    let t = k.exception(&r);
    // Only process 1 existed; nothing is left to run.
    assert!(matches!(t.exit, Activation::Idle));
}

#[test]
fn panic_syscall_halts_with_message_address() {
    let mut k = booted();
    let t0 = k.exception(&trap(48));
    assert_eq!(t0.exit, Activation::Halt { reason: HaltReason::PanicNullMessage });
    let mut r = trap(48);
    r.reg_rdi = 0x180abc;
    let t = k.exception(&r);
    // The identity map resolves the message pointer to itself.
    assert_eq!(t.exit, Activation::Halt {
        reason: HaltReason::UserPanic { message_pa: 0x180abc },
    });
}

#[test]
fn unhandled_trap_goes_to_default_handler() {
    let mut k = booted();
    let t = k.exception(&trap(99));
    assert_eq!(t.exit, Activation::Halt {
        reason: HaltReason::UnhandledTrap { intno: 99 },
    });
}

#[test]
fn memviewer_decision_follows_global_flag() {
    let mut k = booted();
    let t = k.exception(&trap(49));
    assert!(t.show_memviewer);
    k.exception(&trap(56)); // switch the global flag off
    let t2 = k.exception(&trap(49));
    assert!(!t2.show_memviewer);
    // A kernel fault skips the display refresh.
    let mut r = trap(0xe);
    r.reg_err = 0;
    let mut k2 = booted();
    let t3 = k2.exception(&r);
    assert!(!t3.show_memviewer);
}

#[test]
fn ownership_check_counts_sharers() {
    let mut k = booted();
    // The kernel table tree: owned by the kernel, referenced once for
    // itself and once by the single process sharing it.
    assert!(k.check_page_table_ownership(k.vm.kernel_root, -1).is_ok());
    // An extra reference the checker does not expect is a violation.
    k.pageinfo_table.incr_refcount(k.vm.kernel_root);
    assert!(k.check_page_table_ownership(k.vm.kernel_root, -1).is_err());
}

#[test]
fn check_virtual_memory_passes_after_boot() {
    let k = booted();
    assert!(k.check_virtual_memory().is_ok());
    assert!(k.check_page_table_mappings(k.vm.kernel_root).is_ok());
}
