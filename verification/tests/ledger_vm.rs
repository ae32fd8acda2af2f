//! Scenario tests for the physical page ledger, the page-table manager,
//! and the program loader's decoding.

use weensy_kernel::kernel::Kernel;
use weensy_kernel::kloader::{ElfHeader, ElfProgram, RamImage};
use weensy_kernel::ph_page_info::PhysicalPageInfoTable;
use weensy_kernel::vm::KernelPageTables;
use weensy_kernel::x86_64::x86_64_pagetable;

fn fresh_vm() -> (KernelPageTables, PhysicalPageInfoTable) {
    let mut vm = KernelPageTables::new();
    let mut ledger = PhysicalPageInfoTable::new();
    vm.virtual_memory_init(&mut ledger, 0x40000).expect("kernel address space");
    (vm, ledger)
}

#[test]
fn assign_conflict_keeps_owner() {
    // assign(0x101000, pid 3) succeeds; an immediate assign(0x101000,
    // pid 4) fails and the page's owner remains 3.
    let mut k = Kernel::new();
    assert_eq!(k.assign_physical_page(0x101000, 3), 0);
    assert_eq!(k.assign_physical_page(0x101000, 4), -1);
    let rec = k.pageinfo_table.get_page_info_ref(0x101).unwrap();
    assert_eq!(rec.owner, 3);
    assert_eq!(rec.refcount, 1);
}

#[test]
fn assign_rejects_misaligned_and_out_of_range() {
    let mut led = PhysicalPageInfoTable::new();
    assert_eq!(led.assign_physical_page(0x101001, 3), -1);
    assert_eq!(led.assign_physical_page(0x200000, 3), -1);
    // Nothing changed: every page is still free.
    for pn in 0..512 {
        let rec = led.get_page_info_ref(pn).unwrap();
        assert_eq!(rec.refcount, 0);
        assert_eq!(rec.owner, 0);
    }
}

#[test]
fn ledger_invariant_holds_after_operations() {
    // refcount == 0 exactly when the owner is free, at every observation.
    let mut led = PhysicalPageInfoTable::new();
    assert_eq!(led.assign_physical_page(0x150000, 5), 0);
    led.incr_refcount(0x150);
    for pn in 0..512 {
        let rec = led.get_page_info_ref(pn).unwrap();
        assert_eq!(rec.refcount == 0, rec.owner == 0);
    }
    let rec = led.get_page_info_ref(0x150).unwrap();
    assert_eq!(rec.refcount, 2);
    assert_eq!(rec.owner, 5);
}

#[test]
fn pageinfo_init_classifies_pages() {
    let mut led = PhysicalPageInfoTable::new();
    let mut reserved = vec![false; 512];
    reserved[0] = true;
    led.pageinfo_init(&reserved, 0x80000);
    // Reserved page.
    let r0 = led.get_page_info_ref(0).unwrap();
    assert_eq!(r0.owner, -1);
    assert_eq!(r0.refcount, 1);
    // Kernel image page.
    let rk = led.get_page_info_ref(0x40).unwrap();
    assert_eq!(rk.owner, -2);
    assert_eq!(rk.refcount, 1);
    // Kernel stack page (just below 0x80000).
    let rs = led.get_page_info_ref(0x7F).unwrap();
    assert_eq!(rs.owner, -2);
    assert_eq!(rs.refcount, 1);
    // An ordinary free page.
    let rf = led.get_page_info_ref(0x100).unwrap();
    assert_eq!(rf.owner, 0);
    assert_eq!(rf.refcount, 0);
    // The invariant holds everywhere.
    for pn in 0..512 {
        let rec = led.get_page_info_ref(pn).unwrap();
        assert_eq!(rec.refcount == 0, rec.owner == 0);
    }
}

#[test]
fn map_then_lookup_round_trip() {
    // map(root, 0x2000, 0x3000, 0x1000, Present|Writable) then
    // lookup(root, 0x2000) returns physical address 0x3000 with both
    // Present and Writable set.
    let (mut vm, mut ledger) = fresh_vm();
    let root = vm.kernel_root;
    assert_eq!(vm.virtual_memory_map(&mut ledger, root, 0x2000, 0x3000, 0x1000, 3), 0);
    let m = vm.virtual_memory_lookup(root, 0x2000);
    assert_eq!(m.pa, 0x3000);
    assert_ne!(m.perm & 1, 0);
    assert_ne!(m.perm & 2, 0);
    // The rest of the identity map is untouched.
    let m2 = vm.virtual_memory_lookup(root, 0x5000);
    assert_eq!(m2.pa, 0x5000);
    assert_eq!(m2.perm, 7);
}

#[test]
fn map_multi_page_offsets() {
    let (mut vm, mut ledger) = fresh_vm();
    let root = vm.kernel_root;
    assert_eq!(vm.virtual_memory_map(&mut ledger, root, 0x10000, 0x30000, 0x3000, 7), 0);
    for k in 0..3usize {
        let m = vm.virtual_memory_lookup(root, 0x10000 + k * 0x1000);
        assert_eq!(m.pa, 0x30000 + k * 0x1000);
        assert_eq!(m.perm, 7);
    }
    // Offsets within a page carry through the translation.
    let m = vm.virtual_memory_lookup(root, 0x10abc);
    assert_eq!(m.pa, 0x30abc);
}

#[test]
fn identity_map_covers_physical_memory() {
    let (vm, _ledger) = fresh_vm();
    let root = vm.kernel_root;
    let mut addr = 0usize;
    while addr < 0x200000 {
        let m = vm.virtual_memory_lookup(root, addr);
        assert_eq!(m.pa, addr);
        assert_eq!(m.perm, 7);
        addr += 0x1000;
    }
}

#[test]
fn lookup_absent_returns_sentinel() {
    let (vm, _ledger) = fresh_vm();
    let root = vm.kernel_root;
    // Beyond every table the kernel wired: the walk is absent.
    let m = vm.virtual_memory_lookup(root, 0x40000000);
    assert_eq!(m.pn, -1);
    assert_eq!(m.pa, 0);
    assert_eq!(m.perm, 0);
}

#[test]
fn lookup_last_level_demands_each_mask_bit() {
    // Absent whenever a traversed entry is not Present or lacks a
    // requested permission bit.
    let (vm, _ledger) = fresh_vm();
    let root = vm.kernel_root;
    // All intermediate entries carry Present|Writable|User (7): a walk
    // demanding those bits succeeds.
    assert!(vm.lookup_l1pagetable(root, 0x2000, 7).is_some());
    // Demanding a bit the entries lack (Accessed, 32) fails.
    assert!(vm.lookup_l1pagetable(root, 0x2000, 32).is_none());
    // A path whose first entry is absent fails whatever the mask.
    assert!(vm.lookup_l1pagetable(root, 0x40000000, 0).is_none());
}

#[test]
fn set_pagetable_validates_root() {
    let (vm, _ledger) = fresh_vm();
    assert!(vm.set_pagetable(vm.kernel_root).is_ok());
    // A frame that holds no table is rejected.
    assert!(vm.set_pagetable(10).is_err());
}

#[test]
fn pagetable_new_is_empty() {
    let t = x86_64_pagetable::new();
    assert_eq!(t.entry.len(), 512);
    assert!(t.entry.iter().all(|&e| e == 0));
}

fn put_u16(b: &mut Vec<u8>, off: usize, v: u16) {
    b[off] = v as u8;
    b[off + 1] = (v >> 8) as u8;
}

fn put_u32(b: &mut Vec<u8>, off: usize, v: u32) {
    for i in 0..4 {
        b[off + i] = (v >> (8 * i)) as u8;
    }
}

fn put_u64(b: &mut Vec<u8>, off: usize, v: u64) {
    for i in 0..8 {
        b[off + i] = (v >> (8 * i)) as u8;
    }
}

/// A minimal single-segment image: entry address `entry`, one loadable
/// segment of `memsz` bytes at `va`.
fn mk_image(entry: u64, va: u64, memsz: u64) -> Vec<u8> {
    let mut b = vec![0u8; 120];
    put_u32(&mut b, 0, 1179403647);
    put_u64(&mut b, 24, entry);
    put_u64(&mut b, 32, 64); // program headers right after the header
    put_u16(&mut b, 56, 1); // one segment record
    put_u32(&mut b, 64, 1); // loadable
    put_u64(&mut b, 64 + 16, va);
    put_u64(&mut b, 64 + 40, memsz);
    b
}

#[test]
fn elf_header_decode_reads_fields() {
    let b = mk_image(0x123456, 0x100000, 0x1000);
    let h = ElfHeader::decode(&b, 0).unwrap();
    assert_eq!(h.e_magic, 1179403647);
    assert_eq!(h.e_entry, 0x123456);
    assert_eq!(h.e_phoff, 64);
    assert_eq!(h.e_phnum, 1);
    let ph = ElfProgram::decode(&b, 64).unwrap();
    assert_eq!(ph.p_type, 1);
    assert_eq!(ph.p_va, 0x100000);
    assert_eq!(ph.p_memsz, 0x1000);
}

#[test]
fn elf_decode_rejects_short_buffers() {
    let b = vec![0u8; 40];
    assert!(ElfHeader::decode(&b, 0).is_none());
    assert!(ElfProgram::decode(&b, 0).is_none());
}

#[test]
fn program_load_maps_segment_and_sets_entry() {
    let (mut vm, mut ledger) = fresh_vm();
    let root = vm.kernel_root;
    let image = RamImage { bytes: mk_image(0x100000, 0x100000, 0x2000) };
    let mut p = weensy_kernel::x86_64::Proc::new(3, weensy_kernel::x86_64::Procstate::P_FREE);
    p.p_pagetable = Some(root);
    let r = weensy_kernel::kloader::program_load(&mut p, &image, &mut vm, &mut ledger);
    assert_eq!(r, 0);
    assert_eq!(p.p_registers.reg_rip, 0x100000);
    // The segment's two pages belong to the process and are mapped.
    for pn in [0x100usize, 0x101] {
        let rec = ledger.get_page_info_ref(pn).unwrap();
        assert_eq!(rec.owner, 3);
        assert_eq!(rec.refcount, 1);
        let m = vm.virtual_memory_lookup(root, pn * 0x1000);
        assert_eq!(m.pa, pn * 0x1000);
        assert_eq!(m.perm, 7);
    }
}

#[test]
fn program_load_rejects_bad_magic() {
    let (mut vm, mut ledger) = fresh_vm();
    let root = vm.kernel_root;
    let mut bytes = mk_image(0x100000, 0x100000, 0x1000);
    bytes[0] = 0;
    let image = RamImage { bytes };
    let mut p = weensy_kernel::x86_64::Proc::new(3, weensy_kernel::x86_64::Procstate::P_FREE);
    p.p_pagetable = Some(root);
    assert_eq!(weensy_kernel::kloader::program_load(&mut p, &image, &mut vm, &mut ledger), -1);
    assert_eq!(p.p_registers.reg_rip, 0);
}

#[test]
fn pte_helpers_split_entries() {
    assert_eq!(weensy_kernel::page_number(0x101abc), 0x101);
    assert_eq!(weensy_kernel::x86_64::pte_addr(0x3007), 0x3000);
    assert_eq!(weensy_kernel::x86_64::pte_flags_of(0x3007), 7);
    assert_eq!(weensy_kernel::x86_64::page_offset(0x3007), 7);
}
