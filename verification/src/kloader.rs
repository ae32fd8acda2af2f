//! The program loader's decision half: bounds-checked decoding of an
//! executable image's header and program-segment records from a byte
//! buffer, and the page allocation and mapping for each loadable segment.
//! The bulk byte copy into the already-mapped pages is hardware work the
//! shell performs; everything the loader decides — which pages, which
//! mappings, which entry point — is verified here.

use vstd::prelude::*;
use crate::ph_page_info::{PhysicalPageInfo, PhysicalPageInfoTable};
use crate::vm::{arena_wf, kernel_identity_mapped, maps_to, root_ok, KernelPageTables};
use crate::x86_64::{x86_64_registers, Proc, MEMSIZE_PHYSICAL, NPAGES, NPROC};

verus! {

/// The first four bytes of every executable image.
pub const ELF_MAGIC: u32 = 1179403647;

/// Program-segment type: loadable.
pub const ELF_PTYPE_LOAD: u32 = 1;

/// The little-endian value of `n` bytes of `b` starting at `off`.
pub open spec fn le_bytes(b: Seq<u8>, off: int, n: int) -> int
    decreases n,
{
    if n <= 0 {
        0
    } else {
        b[off] + 256 * le_bytes(b, off + 1, n - 1)
    }
}

/// One statically embedded executable image.
pub struct RamImage {
    pub bytes: Vec<u8>,
}

/// An executable image's header record, decoded from the first 64 bytes.
#[derive(Clone, Copy, Debug, PartialEq, Eq, Structural)]
pub struct ElfHeader {
    pub e_magic: u32,
    pub e_type: u16,
    pub e_machine: u16,
    pub e_version: u32,
    pub e_entry: u64,
    pub e_phoff: u64,
    pub e_shoff: u64,
    pub e_flags: u32,
    pub e_ehsize: u16,
    pub e_phentsize: u16,
    pub e_phnum: u16,
    pub e_shentsize: u16,
    pub e_shnum: u16,
    pub e_shstrndx: u16,
}

/// One program-segment record, 56 bytes.
#[derive(Clone, Copy, Debug, PartialEq, Eq, Structural)]
pub struct ElfProgram {
    pub p_type: u32,
    pub p_flags: u32,
    pub p_offset: u64,
    pub p_va: u64,
    pub p_pa: u64,
    pub p_filesz: u64,
    pub p_memsz: u64,
    pub p_align: u64,
}

/// Read two bytes of `b` at `off` as a little-endian number.
pub fn read_le_u16(b: &Vec<u8>, off: usize) -> (v: u16)
    requires
        off + 2 <= b.len(),
    ensures
        v as int == le_bytes(b@, off as int, 2),
{
    proof {
        reveal_with_fuel(le_bytes, 3);
    }
    let b0: u16 = b[off] as u16;
    let b1: u16 = b[off + 1] as u16;
    b0 + b1 * 0x100
}

/// Read four bytes of `b` at `off` as a little-endian number.
pub fn read_le_u32(b: &Vec<u8>, off: usize) -> (v: u32)
    requires
        off + 4 <= b.len(),
    ensures
        v as int == le_bytes(b@, off as int, 4),
{
    proof {
        reveal_with_fuel(le_bytes, 5);
    }
    let b0: u32 = b[off] as u32;
    let b1: u32 = b[off + 1] as u32;
    let b2: u32 = b[off + 2] as u32;
    let b3: u32 = b[off + 3] as u32;
    b0 + b1 * 0x100 + b2 * 0x10000 + b3 * 0x1000000
}

/// Read eight bytes of `b` at `off` as a little-endian number.
pub fn read_le_u64(b: &Vec<u8>, off: usize) -> (v: u64)
    requires
        off + 8 <= b.len(),
    ensures
        v as int == le_bytes(b@, off as int, 8),
{
    proof {
        reveal_with_fuel(le_bytes, 9);
    }
    let b0: u64 = b[off] as u64;
    let b1: u64 = b[off + 1] as u64;
    let b2: u64 = b[off + 2] as u64;
    let b3: u64 = b[off + 3] as u64;
    let b4: u64 = b[off + 4] as u64;
    let b5: u64 = b[off + 5] as u64;
    let b6: u64 = b[off + 6] as u64;
    let b7: u64 = b[off + 7] as u64;
    b0 + b1 * 0x100 + b2 * 0x10000 + b3 * 0x1000000 + b4 * 0x100000000
        + b5 * 0x10000000000 + b6 * 0x1000000000000 + b7 * 0x100000000000000
}

impl ElfHeader {
    /// Field `f` of the header starting at `off` in `b`, as the
    /// little-endian number of its `n` bytes at relative offset `rel`.
    pub open spec fn field(b: Seq<u8>, off: int, rel: int, n: int) -> int {
        le_bytes(b, off + rel, n)
    }

    /// Decode the 64-byte header at `off`; `None` when `b` is too short.
    /// Never reads outside `b`.
    pub fn decode(b: &Vec<u8>, off: usize) -> (r: Option<ElfHeader>)
        ensures
            r is Some <==> off + 64 <= b@.len(),
            r is Some ==> {
                let h = r->Some_0;
                &&& h.e_magic as int == Self::field(b@, off as int, 0, 4)
                &&& h.e_type as int == Self::field(b@, off as int, 16, 2)
                &&& h.e_machine as int == Self::field(b@, off as int, 18, 2)
                &&& h.e_version as int == Self::field(b@, off as int, 20, 4)
                &&& h.e_entry as int == Self::field(b@, off as int, 24, 8)
                &&& h.e_phoff as int == Self::field(b@, off as int, 32, 8)
                &&& h.e_shoff as int == Self::field(b@, off as int, 40, 8)
                &&& h.e_flags as int == Self::field(b@, off as int, 48, 4)
                &&& h.e_ehsize as int == Self::field(b@, off as int, 52, 2)
                &&& h.e_phentsize as int == Self::field(b@, off as int, 54, 2)
                &&& h.e_phnum as int == Self::field(b@, off as int, 56, 2)
                &&& h.e_shentsize as int == Self::field(b@, off as int, 58, 2)
                &&& h.e_shnum as int == Self::field(b@, off as int, 60, 2)
                &&& h.e_shstrndx as int == Self::field(b@, off as int, 62, 2)
            },
    {
        if off > b.len() || b.len() - off < 64 {
            return None;
        }
        Some(ElfHeader {
            e_magic: read_le_u32(b, off),
            e_type: read_le_u16(b, off + 16),
            e_machine: read_le_u16(b, off + 18),
            e_version: read_le_u32(b, off + 20),
            e_entry: read_le_u64(b, off + 24),
            e_phoff: read_le_u64(b, off + 32),
            e_shoff: read_le_u64(b, off + 40),
            e_flags: read_le_u32(b, off + 48),
            e_ehsize: read_le_u16(b, off + 52),
            e_phentsize: read_le_u16(b, off + 54),
            e_phnum: read_le_u16(b, off + 56),
            e_shentsize: read_le_u16(b, off + 58),
            e_shnum: read_le_u16(b, off + 60),
            e_shstrndx: read_le_u16(b, off + 62),
        })
    }
}

impl ElfProgram {
    /// Decode the 56-byte program-segment record at `off`; `None` when
    /// `b` is too short. Never reads outside `b`.
    pub fn decode(b: &Vec<u8>, off: usize) -> (r: Option<ElfProgram>)
        ensures
            r is Some <==> off + 56 <= b@.len(),
            r is Some ==> {
                let ph = r->Some_0;
                &&& ph.p_type as int == le_bytes(b@, off as int, 4)
                &&& ph.p_flags as int == le_bytes(b@, off as int + 4, 4)
                &&& ph.p_offset as int == le_bytes(b@, off as int + 8, 8)
                &&& ph.p_va as int == le_bytes(b@, off as int + 16, 8)
                &&& ph.p_pa as int == le_bytes(b@, off as int + 24, 8)
                &&& ph.p_filesz as int == le_bytes(b@, off as int + 32, 8)
                &&& ph.p_memsz as int == le_bytes(b@, off as int + 40, 8)
                &&& ph.p_align as int == le_bytes(b@, off as int + 48, 8)
            },
    {
        if off > b.len() || b.len() - off < 56 {
            return None;
        }
        Some(ElfProgram {
            p_type: read_le_u32(b, off),
            p_flags: read_le_u32(b, off + 4),
            p_offset: read_le_u64(b, off + 8),
            p_va: read_le_u64(b, off + 16),
            p_pa: read_le_u64(b, off + 24),
            p_filesz: read_le_u64(b, off + 32),
            p_memsz: read_le_u64(b, off + 40),
            p_align: read_le_u64(b, off + 48),
        })
    }
}

/// The page-aligned start of the segment's virtual range.
pub open spec fn segment_first_page(ph: ElfProgram) -> int {
    (ph.p_va as int / 4096) * 4096
}

/// One past the end of the segment's virtual range.
pub open spec fn segment_end(ph: ElfProgram) -> int {
    ph.p_va as int + ph.p_memsz as int
}

/// A segment the loader accepts: it fits below the virtual and physical
/// bounds, so each of its pages can be allocated and identity-mapped.
pub open spec fn segment_in_bounds(ph: ElfProgram) -> bool {
    segment_end(ph) <= MEMSIZE_PHYSICAL
}

/// Allocate and identity-map every page of the loadable segment `ph` for
/// process `pid`: each page of `[p_va rounded down, p_va + p_memsz)` is
/// taken from the ledger for `pid` and mapped Present, Writable and
/// User-accessible in `root`. Fails with -1 — before touching anything —
/// when the segment does not fit below physical memory, and with -1
/// midway when a page is already owned or a table allocation fails; pages
/// handled before the failure keep their allocation and mapping.
pub fn program_load_segment(vm: &mut KernelPageTables, ledger: &mut PhysicalPageInfoTable,
    pid: usize, root: usize, ph: &ElfProgram) -> (r: i32)
    requires
        arena_wf(old(vm).frames@),
        old(ledger).wf(),
        root_ok(old(vm).frames@, root as int),
        1 <= pid < NPROC,
    ensures
        arena_wf(final(vm).frames@),
        final(ledger).wf(),
        root_ok(final(vm).frames@, root as int),
        final(vm).kernel_root == old(vm).kernel_root,
        final(vm).handler_va == old(vm).handler_va,
        r == 0 || r == -1,
        r == 0 ==> segment_in_bounds(*ph),
        r == 0 ==> forall|k: int| 0 <= k
            && segment_first_page(*ph) + k * 4096 < segment_end(*ph)
            ==> #[trigger] maps_to(final(vm).frames@, root as int,
                (segment_first_page(*ph) + k * 4096) as u64,
                (segment_first_page(*ph) + k * 4096) as u64, 7u64),
        // On success every covered page was taken from the ledger for the
        // process, with one reference.
        r == 0 ==> forall|q: int| segment_first_page(*ph) / 4096 <= q
            && q * 4096 < segment_end(*ph)
            ==> (#[trigger] final(ledger).pageinfo@[q])
                == (PhysicalPageInfo { owner: pid as i8, refcount: 1i8 }),
        forall|q: int| 0 <= q < NPAGES
            && (#[trigger] old(ledger).pageinfo@[q]).refcount != 0
            ==> final(ledger).pageinfo@[q] == old(ledger).pageinfo@[q],
        final(ledger).pageinfo@.len() == old(ledger).pageinfo@.len(),
        kernel_identity_mapped(*old(vm)) && root == old(vm).kernel_root
            ==> kernel_identity_mapped(*final(vm)),
        kernel_identity_mapped(*old(vm)) && root == old(vm).kernel_root
            ==> forall|q: int| 0 <= q < crate::x86_64::NPAGES
                && !(segment_first_page(*ph) / 4096 <= q && q * 4096 < segment_end(*ph))
                ==> final(ledger).pageinfo@[q] == old(ledger).pageinfo@[q],
        kernel_identity_mapped(*old(vm)) && root == old(vm).kernel_root
            && segment_in_bounds(*ph)
            && (forall|q: int| segment_first_page(*ph) / 4096 <= q
                && q * 4096 < segment_end(*ph)
                ==> (#[trigger] old(ledger).pageinfo@[q]).refcount == 0)
            ==> r == 0,
    {
        let ghost idmap = kernel_identity_mapped(*old(vm)) && root == old(vm).kernel_root;
        let ghost allfree = idmap && segment_in_bounds(*ph)
            && (forall|q: int| segment_first_page(*ph) / 4096 <= q
                && q * 4096 < segment_end(*ph)
                ==> (#[trigger] old(ledger).pageinfo@[q]).refcount == 0);
        let va0_u64: u64 = (ph.p_va / 4096) * 4096;
        if ph.p_memsz > MEMSIZE_PHYSICAL || ph.p_va > MEMSIZE_PHYSICAL - ph.p_memsz {
            proof {
                assert(!segment_in_bounds(*ph));
            }
            return -1;
        }
        let end_mem: u64 = ph.p_va + ph.p_memsz;
        let mut va: u64 = va0_u64;
        proof {
            vstd::arithmetic::div_mod::lemma_fundamental_div_mod(ph.p_va as int, 4096);
            assert(va0_u64 as int == segment_first_page(*ph));
            assert(va0_u64 % 4096 == 0) by {
                vstd::arithmetic::div_mod::lemma_fundamental_div_mod_converse(
                    va0_u64 as int, 4096, ph.p_va as int / 4096, 0);
            }
        }
        while va < end_mem
            invariant
                arena_wf(vm.frames@),
                ledger.wf(),
                root_ok(vm.frames@, root as int),
                vm.kernel_root == old(vm).kernel_root,
                vm.handler_va == old(vm).handler_va,
                1 <= pid < NPROC,
                va % 4096 == 0,
                va0_u64 % 4096 == 0,
                va0_u64 as int == segment_first_page(*ph),
                va0_u64 <= va,
                end_mem as int == segment_end(*ph),
                end_mem <= MEMSIZE_PHYSICAL,
                va <= end_mem + 4095,
                va == va0_u64 || va as int - 4096 < end_mem,
                (va as int - va0_u64 as int) % 4096 == 0,
                idmap == (kernel_identity_mapped(*old(vm)) && root == old(vm).kernel_root),
                allfree ==> idmap && segment_in_bounds(*ph)
                    && (forall|q: int| segment_first_page(*ph) / 4096 <= q
                        && q * 4096 < segment_end(*ph)
                        ==> (#[trigger] old(ledger).pageinfo@[q]).refcount == 0),
                idmap ==> kernel_identity_mapped(*vm),
                idmap ==> forall|q: int| 0 <= q < crate::x86_64::NPAGES
                    && !(va0_u64 as int / 4096 <= q && q * 4096 < va as int)
                    ==> ledger.pageinfo@[q] == old(ledger).pageinfo@[q],
                forall|q: int| 0 <= q < NPAGES
                    && (#[trigger] old(ledger).pageinfo@[q]).refcount != 0
                    ==> ledger.pageinfo@[q] == old(ledger).pageinfo@[q],
                ledger.pageinfo@.len() == old(ledger).pageinfo@.len(),
                forall|k: int| 0 <= k && va0_u64 + k * 4096 < va
                    ==> #[trigger] maps_to(vm.frames@, root as int,
                        (va0_u64 + k * 4096) as u64, (va0_u64 + k * 4096) as u64, 7u64),
                forall|q: int| va0_u64 as int / 4096 <= q && q * 4096 < va as int
                    ==> (#[trigger] ledger.pageinfo@[q])
                        == (PhysicalPageInfo { owner: pid as i8, refcount: 1i8 }),
            decreases end_mem + 4096 - va,
        {
            let ghost led_pre = *ledger;
            if ledger.assign_physical_page(va as usize, pid) < 0 {
                proof {
                    if allfree {
                        assert(va as int % 4096 == 0);
                        assert(va as int / 4096 < crate::x86_64::NPAGES) by {
                            assert(va < MEMSIZE_PHYSICAL);
                        }
                        assert(segment_first_page(*ph) / 4096 <= va as int / 4096) by {
                            vstd::arithmetic::div_mod::lemma_div_is_ordered(
                                va0_u64 as int, va as int, 4096);
                            vstd::arithmetic::div_mod::lemma_fundamental_div_mod(
                                va0_u64 as int, 4096);
                        }
                        assert((va as int / 4096) * 4096 == va as int) by {
                            vstd::arithmetic::div_mod::lemma_fundamental_div_mod(
                                va as int, 4096);
                        }
                        assert(led_pre.pageinfo@[va as int / 4096]
                            == old(ledger).pageinfo@[va as int / 4096]);
                        assert(old(ledger).pageinfo@[va as int / 4096].refcount == 0);
                        assert(false);
                    }
                }
                return -1;
            }
            let ghost fs_mid = vm.frames@;
            let ghost led_mid = *ledger;
            let r2: i32 = vm.virtual_memory_map(ledger, root, va as usize, va as usize,
                4096, 7);
            proof {
                if idmap {
                    // The single page's walk was present, so the map call
                    // neither failed nor touched the ledger.
                    assert forall|j: int| 0 <= j < 4096 as int / 4096
                        implies #[trigger] crate::vm::last_level_spec(fs_mid, root as int,
                            ((va as usize) + j * 4096) as u64, 0) is Some by {
                        assert(j == 0);
                        let vaj = ((va as usize) + j * 4096) as u64;
                        assert(vaj == va);
                        assert(va < MEMSIZE_PHYSICAL);
                        assert(crate::vm::lookup_spec(fs_mid, root as int, va).perm == 7);
                        if crate::vm::last_level_spec(fs_mid, root as int, va, 0) is None {
                            assert(crate::vm::lookup_spec(fs_mid, root as int, va).perm
                                == 0);
                            assert(false);
                        }
                    }
                    assert(r2 == 0);
                    assert(*ledger == led_mid);
                }
            }
            if r2 < 0 {
                return -1;
            }
            proof {
                if idmap {
                    assert(maps_to(vm.frames@, root as int,
                        ((va as usize) + 0 * 4096) as u64, ((va as usize) + 0 * 4096) as u64,
                        7i32 as u64));
                    assert forall|k: int| 0 <= k < 4096 as int / 4096
                        implies #[trigger] maps_to(vm.frames@, root as int,
                            (va as int + k * 4096) as u64, (va as int + k * 4096) as u64,
                            7u64) by {
                        assert(k == 0);
                    }
                    crate::vm::lemma_identity_after_identity_map(fs_mid, vm.frames@,
                        root as int, va as int, 4096);
                }
            }
            proof {
                assert(maps_to(vm.frames@, root as int,
                    ((va as usize) + 0 * 4096) as u64, ((va as usize) + 0 * 4096) as u64,
                    7i32 as u64));
                assert(((va as usize) + 0 * 4096) as u64 == va);
                assert(maps_to(vm.frames@, root as int, va as u64, va as u64, 7i32 as u64));
                let va_snap = va;
                assert forall|k: int| 0 <= k && va0_u64 + k * 4096 < va_snap + 4096
                    implies #[trigger] maps_to(vm.frames@, root as int,
                        (va0_u64 + k * 4096) as u64, (va0_u64 + k * 4096) as u64, 7u64) by {
                    let vak = (va0_u64 + k * 4096) as u64;
                    if va0_u64 + k * 4096 < va_snap {
                        assert(maps_to(fs_mid, root as int, vak, vak, 7u64));
                        assert(0 <= vak as int / 4096 < 512);
                        if crate::vm::last_level_spec(fs_mid, root as int, vak, 0) is None {
                            assert(crate::vm::lookup_spec(fs_mid, root as int, vak)
                                == (crate::x86_64::VAMapping { pn: -1i32, pa: 0usize,
                                    perm: 0i32 }));
                            assert(false);
                        }
                        crate::vm::lemma_aligned_page_number(va0_u64 as int, k);
                        crate::vm::lemma_aligned_page_number(va_snap as int, 0);
                        assert(vak as int / 4096 != va_snap as int / 4096);
                        assert(crate::vm::lookup_spec(vm.frames@, root as int, vak)
                            == crate::vm::lookup_spec(fs_mid, root as int, vak));
                    } else {
                        assert(va0_u64 + k * 4096 == va_snap) by {
                            assert((va_snap as int - va0_u64 as int) % 4096 == 0);
                            assert(va0_u64 + k * 4096 >= va_snap ==> k * 4096
                                >= va_snap as int - va0_u64 as int);
                            vstd::arithmetic::div_mod::lemma_fundamental_div_mod(
                                va_snap as int - va0_u64 as int, 4096);
                        }
                        assert(vak == va_snap);
                        assert(7i32 as u64 == 7u64);
                    }
                }
            }
            proof {
                let va_snap2 = va;
                assert forall|q: int| va0_u64 as int / 4096 <= q
                    && q * 4096 < va_snap2 as int + 4096
                    implies (#[trigger] ledger.pageinfo@[q])
                        == (PhysicalPageInfo { owner: pid as i8, refcount: 1i8 }) by {
                    if q * 4096 < va_snap2 as int {
                        assert(led_mid.pageinfo@[q]
                            == (PhysicalPageInfo { owner: pid as i8, refcount: 1i8 }));
                        assert(led_mid.pageinfo@[q].refcount != 0);
                    } else {
                        assert(q == va_snap2 as int / 4096) by {
                            vstd::arithmetic::div_mod::lemma_fundamental_div_mod(
                                va_snap2 as int, 4096);
                        }
                        assert(led_mid.pageinfo@[q]
                            == (PhysicalPageInfo { owner: pid as i8, refcount: 1i8 }));
                        assert(led_mid.pageinfo@[q].refcount != 0);
                    }
                }
            }
            va = va + 4096;
        }
        proof {
            assert forall|k: int| 0 <= k && va0_u64 as int + k * 4096 < end_mem as int
                implies #[trigger] maps_to(vm.frames@, root as int,
                    (va0_u64 + k * 4096) as u64, (va0_u64 + k * 4096) as u64, 7u64) by {
                assert(va0_u64 + k * 4096 < va);
            }
        }
        0
    }


/// 256 to the `n`th power: the number of values of `n` bytes.
pub open spec fn pow256(n: int) -> int
    decreases n,
{
    if n <= 0 {
        1
    } else {
        256 * pow256(n - 1)
    }
}

/// A little-endian value of `n` bytes is non-negative and below 256^n.
pub proof fn lemma_le_bytes_bound(b: Seq<u8>, off: int, n: int)
    ensures
        0 <= le_bytes(b, off, n),
        le_bytes(b, off, n) < pow256(n),
    decreases n,
{
    if n <= 0 {
    } else {
        lemma_le_bytes_bound(b, off + 1, n - 1);
    }
}

/// The image's entry address, from its header.
pub open spec fn spec_entry(b: Seq<u8>) -> int {
    le_bytes(b, 24, 8)
}

/// The offset of the image's program-segment records, from its header.
pub open spec fn spec_phoff(b: Seq<u8>) -> int {
    le_bytes(b, 32, 8)
}

/// The number of the image's program-segment records, from its header.
pub open spec fn spec_phnum(b: Seq<u8>) -> int {
    le_bytes(b, 56, 2)
}

/// The image is long enough for a header and starts with the magic.
pub open spec fn image_magic_ok(b: Seq<u8>) -> bool {
    b.len() >= 64 && le_bytes(b, 0, 4) == ELF_MAGIC
}

/// The program-segment record decoded at `off`.
pub open spec fn spec_segment(b: Seq<u8>, off: int) -> ElfProgram {
    ElfProgram {
        p_type: le_bytes(b, off, 4) as u32,
        p_flags: le_bytes(b, off + 4, 4) as u32,
        p_offset: le_bytes(b, off + 8, 8) as u64,
        p_va: le_bytes(b, off + 16, 8) as u64,
        p_pa: le_bytes(b, off + 24, 8) as u64,
        p_filesz: le_bytes(b, off + 32, 8) as u64,
        p_memsz: le_bytes(b, off + 40, 8) as u64,
        p_align: le_bytes(b, off + 48, 8) as u64,
    }
}

/// A well-formed single-segment image: valid magic, exactly one
/// program-segment record, and that record inside the buffer.
pub open spec fn simple_image(b: Seq<u8>) -> bool {
    &&& image_magic_ok(b)
    &&& spec_phnum(b) == 1
    &&& spec_phoff(b) + 56 <= b.len()
}

/// A single-segment image the loader is sure to load against `led`: if
/// its record is loadable, the segment fits below physical memory and
/// every page it covers is free.
pub open spec fn simple_image_loadable(b: Seq<u8>, led: PhysicalPageInfoTable) -> bool {
    &&& simple_image(b)
    &&& {
        let ph = spec_segment(b, spec_phoff(b));
        ph.p_type == ELF_PTYPE_LOAD ==> {
            &&& segment_in_bounds(ph)
            &&& forall|q: int| segment_first_page(ph) / 4096 <= q
                && q * 4096 < segment_end(ph)
                ==> (#[trigger] led.pageinfo@[q]).refcount == 0
        }
    }
}

/// Load the program in `image` into the address space of process `p`:
/// decode the header, allocate and map every loadable segment's pages,
/// and set the process's saved instruction pointer to the image's
/// declared entry address. Returns -1 — leaving the instruction pointer
/// alone — on a malformed image or when a page cannot be had; a
/// well-formed single-segment image whose pages are free always loads.
/// The shell copies the segment bytes afterwards.
pub fn program_load(p: &mut Proc, image: &RamImage, vm: &mut KernelPageTables,
    ledger: &mut PhysicalPageInfoTable) -> (r: i32)
    requires
        arena_wf(old(vm).frames@),
        old(ledger).wf(),
        old(p).p_pagetable is Some,
        root_ok(old(vm).frames@, old(p).p_pagetable->Some_0 as int),
        1 <= old(p).p_pid < NPROC,
    ensures
        arena_wf(final(vm).frames@),
        final(ledger).wf(),
        root_ok(final(vm).frames@, old(p).p_pagetable->Some_0 as int),
        final(vm).kernel_root == old(vm).kernel_root,
        final(vm).handler_va == old(vm).handler_va,
        r == 0 || r == -1,
        final(p).p_pid == old(p).p_pid,
        final(p).p_state == old(p).p_state,
        final(p).p_pagetable == old(p).p_pagetable,
        final(p).display_status == old(p).display_status,
        r == -1 ==> *final(p) == *old(p),
        r == 0 ==> image_magic_ok(image.bytes@)
            && final(p).p_registers == (x86_64_registers {
                reg_rip: spec_entry(image.bytes@) as u64,
                ..old(p).p_registers
            }),
        forall|q: int| 0 <= q < NPAGES
            && (#[trigger] old(ledger).pageinfo@[q]).refcount != 0
            ==> final(ledger).pageinfo@[q] == old(ledger).pageinfo@[q],
        final(ledger).pageinfo@.len() == old(ledger).pageinfo@.len(),
        kernel_identity_mapped(*old(vm))
            && old(p).p_pagetable->Some_0 == old(vm).kernel_root
            ==> kernel_identity_mapped(*final(vm)),
        kernel_identity_mapped(*old(vm))
            && old(p).p_pagetable->Some_0 == old(vm).kernel_root
            && simple_image_loadable(image.bytes@, *old(ledger))
            ==> r == 0,
        kernel_identity_mapped(*old(vm))
            && old(p).p_pagetable->Some_0 == old(vm).kernel_root
            && simple_image(image.bytes@)
            ==> forall|q: int| 0 <= q < NPAGES
                && !(segment_first_page(spec_segment(image.bytes@,
                        spec_phoff(image.bytes@))) / 4096 <= q
                    && q * 4096 < segment_end(spec_segment(image.bytes@,
                        spec_phoff(image.bytes@))))
                ==> final(ledger).pageinfo@[q] == old(ledger).pageinfo@[q],
{
    let ghost bspec = image.bytes@;
    let ghost idmap = kernel_identity_mapped(*old(vm))
        && old(p).p_pagetable->Some_0 == old(vm).kernel_root;
    let ghost simple = simple_image(bspec);
    let b: &Vec<u8> = &image.bytes;
    let eh_opt = ElfHeader::decode(b, 0);
    if eh_opt.is_none() {
        return -1;
    }
    let eh: ElfHeader = eh_opt.unwrap();
    if eh.e_magic != ELF_MAGIC {
        proof {
            lemma_le_bytes_bound(bspec, 0, 4);
            proof_pow256_values();
        }
        return -1;
    }
    if eh.e_phoff > b.len() as u64 {
        proof {
            if simple {
                lemma_le_bytes_bound(bspec, 32, 8);
                assert(false);
            }
        }
        return -1;
    }
    let phoff: usize = eh.e_phoff as usize;
    let rem: usize = b.len() - phoff;
    let root: usize = p.p_pagetable.unwrap();
    let pid: usize = p.p_pid as usize;
    let phnum: usize = eh.e_phnum as usize;
    proof {
        lemma_le_bytes_bound(bspec, 56, 2);
        proof_pow256_values();
    }
    let mut i: usize = 0;
    while i < phnum
        invariant
            arena_wf(vm.frames@),
            ledger.wf(),
            root_ok(vm.frames@, root as int),
            vm.kernel_root == old(vm).kernel_root,
            vm.handler_va == old(vm).handler_va,
            *p == *old(p),
            root == old(p).p_pagetable->Some_0,
            1 <= pid < NPROC,
            i <= phnum,
            phnum < 0x10000,
            bspec == image.bytes@,
            phnum as int == spec_phnum(bspec),
            phoff as int == spec_phoff(bspec),
            phoff <= b.len(),
            rem == b.len() - phoff,
            b == &image.bytes,
            idmap == (kernel_identity_mapped(*old(vm))
                && old(p).p_pagetable->Some_0 == old(vm).kernel_root),
            simple == simple_image(bspec),
            idmap ==> kernel_identity_mapped(*vm),
            forall|q: int| 0 <= q < NPAGES
                && (#[trigger] old(ledger).pageinfo@[q]).refcount != 0
                ==> ledger.pageinfo@[q] == old(ledger).pageinfo@[q],
            ledger.pageinfo@.len() == old(ledger).pageinfo@.len(),
            idmap && simple ==> forall|q: int| 0 <= q < NPAGES
                && !(segment_first_page(spec_segment(bspec, spec_phoff(bspec))) / 4096 <= q
                    && q * 4096 < segment_end(spec_segment(bspec, spec_phoff(bspec))))
                ==> ledger.pageinfo@[q] == old(ledger).pageinfo@[q],
            idmap && simple && i == 0 ==> *ledger == *old(ledger),
            ({
                let ph = spec_segment(bspec, spec_phoff(bspec));
                simple && 1 <= i && ph.p_type == ELF_PTYPE_LOAD ==> {
                    &&& (forall|k: int| 0 <= k && segment_first_page(ph) + k * 4096
                        < segment_end(ph)
                        ==> #[trigger] maps_to(vm.frames@, root as int,
                            (segment_first_page(ph) + k * 4096) as u64,
                            (segment_first_page(ph) + k * 4096) as u64, 7u64))
                    &&& (forall|q: int| segment_first_page(ph) / 4096 <= q
                        && q * 4096 < segment_end(ph)
                        ==> (#[trigger] ledger.pageinfo@[q])
                            == (PhysicalPageInfo { owner: pid as i8, refcount: 1i8 }))
                }
            }),
        decreases phnum - i,
    {
        let i_off: usize = i * 56;
        if i_off > rem || rem - i_off < 56 {
            proof {
                if simple {
                    assert(i == 0);
                    assert(false);
                }
            }
            return -1;
        }
        let off: usize = phoff + i_off;
        let ph_opt = ElfProgram::decode(b, off);
        let ph: ElfProgram = ph_opt.unwrap();
        proof {
            if simple {
                assert(i == 0 && off as int == spec_phoff(bspec));
                lemma_spec_segment_decoded(bspec, off as int, ph);
            }
        }
        if ph.p_type == ELF_PTYPE_LOAD {
            let r2: i32 = program_load_segment(vm, ledger, pid, root, &ph);
            proof {
                if idmap && simple {
                    assert(ph == spec_segment(bspec, spec_phoff(bspec)));
                    if simple_image_loadable(bspec, *old(ledger)) {
                        assert(r2 == 0);
                    }
                }
            }
            if r2 < 0 {
                proof {
                    if idmap && simple_image_loadable(bspec, *old(ledger)) {
                        assert(false);
                    }
                }
                return -1;
            }
        }
        i = i + 1;
    }
    p.p_registers.reg_rip = eh.e_entry;
    0
}

/// Concrete powers of 256 the contracts mention.
pub proof fn proof_pow256_values()
    ensures
        pow256(2) == 0x10000,
        pow256(4) == 0x100000000,
        pow256(8) == 0x10000000000000000,
{
    reveal_with_fuel(pow256, 9);
}

/// A decoded record whose fields match the raw little-endian reads equals
/// the record `spec_segment` describes.
pub proof fn lemma_spec_segment_decoded(b: Seq<u8>, off: int, ph: ElfProgram)
    requires
        ph.p_type as int == le_bytes(b, off, 4),
        ph.p_flags as int == le_bytes(b, off + 4, 4),
        ph.p_offset as int == le_bytes(b, off + 8, 8),
        ph.p_va as int == le_bytes(b, off + 16, 8),
        ph.p_pa as int == le_bytes(b, off + 24, 8),
        ph.p_filesz as int == le_bytes(b, off + 32, 8),
        ph.p_memsz as int == le_bytes(b, off + 40, 8),
        ph.p_align as int == le_bytes(b, off + 48, 8),
    ensures
        ph == spec_segment(b, off),
{
    proof_pow256_values();
    lemma_le_bytes_bound(b, off, 4);
    lemma_le_bytes_bound(b, off + 4, 4);
    lemma_le_bytes_bound(b, off + 8, 8);
    lemma_le_bytes_bound(b, off + 16, 8);
    lemma_le_bytes_bound(b, off + 24, 8);
    lemma_le_bytes_bound(b, off + 32, 8);
    lemma_le_bytes_bound(b, off + 40, 8);
    lemma_le_bytes_bound(b, off + 48, 8);
}

} // verus!
