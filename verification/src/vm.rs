//! The page-table manager. An address space is a four-level radix tree of
//! 512-entry tables; every table lives in one physical page frame, so the
//! manager holds an arena of frames indexed by physical page number. A
//! non-leaf entry stores the frame address of the next-level table OR'd
//! with flag bits; a last-level entry stores the mapped physical page and
//! the effective permissions.
//!
//! Policy choices, fixed here deliberately: an intermediate table that
//! `virtual_memory_map` allocates lazily is owned by the kernel in the
//! ledger, and a failure partway through a multi-page map leaves the pages
//! already mapped in place.

use vstd::prelude::*;
use vstd::arithmetic::div_mod::{
    lemma_fundamental_div_mod, lemma_fundamental_div_mod_converse,
};
use crate::control::HaltReason;
use crate::ph_page_info::{PhysicalPageInfo, PhysicalPageInfoTable};
use crate::x86_64::{x86_64_pagetable, VAMapping, MEMSIZE_PHYSICAL, MEMSIZE_VIRTUAL, NPAGES};

verus! {

/// One allocated page-table frame: the table itself and the depth at which
/// it stands in the tree (0 is a root, 3 is a last-level table).
pub struct TableFrame {
    pub level: usize,
    pub table: x86_64_pagetable,
}

/// The arena of page-table frames. `frames[pn]` is `Some` exactly when
/// physical page `pn` holds a page table. `kernel_root` is the page number
/// of the kernel's own root table and `handler_va` the address of the
/// kernel's trap-entry code, both fixed by `virtual_memory_init`.
pub struct KernelPageTables {
    pub frames: Vec<Option<TableFrame>>,
    pub kernel_root: usize,
    pub handler_va: usize,
}

/// Physical page `pn` holds a page table.
pub open spec fn is_table(fs: Seq<Option<TableFrame>>, pn: int) -> bool {
    0 <= pn < fs.len() && fs[pn] is Some
}

/// The depth of the table in frame `pn`.
pub open spec fn level_of(fs: Seq<Option<TableFrame>>, pn: int) -> int {
    fs[pn]->Some_0.level as int
}

/// Entry `i` of the table in frame `pn`.
pub open spec fn entry_of(fs: Seq<Option<TableFrame>>, pn: int, i: int) -> u64 {
    fs[pn]->Some_0.table.entry@[i]
}

/// An entry is Present when its low bit is set.
pub open spec fn present(e: u64) -> bool {
    e % 2 == 1
}

/// The page number of the frame an entry points at: its address bits.
pub open spec fn target_of(e: u64) -> int {
    e as int / 4096
}

/// The index of `va` within the table at depth `level`: bits 39.. for the
/// root, then 30.., 21.., and 12.. for the last level.
pub open spec fn pt_index(va: u64, level: int) -> int {
    if level == 0 {
        (va as int / 0x8000000000) % 512
    } else if level == 1 {
        (va as int / 0x40000000) % 512
    } else if level == 2 {
        (va as int / 0x200000) % 512
    } else {
        (va as int / 4096) % 512
    }
}

/// Frame `pn` is a well-formed table: 512 entries, every entry within
/// physical memory, a depth of at most 3, and every present entry of a
/// non-leaf table pointing at a table one level deeper.
pub open spec fn frame_wf(fs: Seq<Option<TableFrame>>, pn: int) -> bool {
    &&& fs[pn]->Some_0.table.entry@.len() == 512
    &&& 0 <= level_of(fs, pn) <= 3
    &&& forall|i: int| 0 <= i < 512 ==> #[trigger] entry_of(fs, pn, i) < MEMSIZE_PHYSICAL
    &&& level_of(fs, pn) < 3 ==> forall|i: int| 0 <= i < 512
        && present(#[trigger] entry_of(fs, pn, i)) ==> {
            &&& is_table(fs, target_of(entry_of(fs, pn, i)))
            &&& level_of(fs, target_of(entry_of(fs, pn, i))) == level_of(fs, pn) + 1
        }
}

/// A present entry of a non-leaf table: a parent-to-child edge in the tree.
pub open spec fn is_edge(fs: Seq<Option<TableFrame>>, pn: int, i: int) -> bool {
    &&& is_table(fs, pn)
    &&& level_of(fs, pn) < 3
    &&& 0 <= i < 512
    &&& present(entry_of(fs, pn, i))
}

/// No table has two parents: two edges with the same target are the same
/// entry of the same table.
pub open spec fn edges_injective(fs: Seq<Option<TableFrame>>) -> bool {
    forall|p1: int, i1: int, p2: int, i2: int|
        #[trigger] is_edge(fs, p1, i1) && #[trigger] is_edge(fs, p2, i2)
        && target_of(entry_of(fs, p1, i1)) == target_of(entry_of(fs, p2, i2))
        ==> p1 == p2 && i1 == i2
}

/// The arena invariant: one slot per physical page, every allocated frame a
/// well-formed table, and no table with two parents.
pub open spec fn arena_wf(fs: Seq<Option<TableFrame>>) -> bool {
    &&& fs.len() == NPAGES
    &&& forall|pn: int| #[trigger] is_table(fs, pn) ==> frame_wf(fs, pn)
    &&& edges_injective(fs)
}

/// `pn` can serve as the root of a walk: it is a table at depth 0.
pub open spec fn root_ok(fs: Seq<Option<TableFrame>>, pn: int) -> bool {
    is_table(fs, pn) && level_of(fs, pn) == 0
}

/// One step of a walk succeeds: the frame is a table and the entry for
/// `va` at this depth is Present and has every bit of `mask`.
pub open spec fn step_ok(fs: Seq<Option<TableFrame>>, pn: int, va: u64, level: int, mask: u64)
    -> bool {
    &&& is_table(fs, pn)
    &&& present(entry_of(fs, pn, pt_index(va, level)))
    &&& entry_of(fs, pn, pt_index(va, level)) & mask == mask
}

/// The frame one step of the walk moves to.
pub open spec fn step_to(fs: Seq<Option<TableFrame>>, pn: int, va: u64, level: int) -> int {
    target_of(entry_of(fs, pn, pt_index(va, level)))
}

/// Walk the three non-leaf levels from `root` towards `va`, demanding that
/// each traversed entry is Present and has every bit of `mask`. Yields the
/// page number of the last-level table, or `None` — "absent" — as soon as
/// one traversed entry fails the demand.
pub open spec fn last_level_spec(fs: Seq<Option<TableFrame>>, root: int, va: u64, mask: u64)
    -> Option<int> {
    if !step_ok(fs, root, va, 0, mask) {
        None
    } else {
        let p1 = step_to(fs, root, va, 0);
        if !step_ok(fs, p1, va, 1, mask) {
            None
        } else {
            let p2 = step_to(fs, p1, va, 1);
            if !step_ok(fs, p2, va, 2, mask) {
                None
            } else {
                Some(step_to(fs, p2, va, 2))
            }
        }
    }
}

/// What resolving `va` from `root` yields: the sentinel record (page
/// number -1, permission 0) when the walk is absent, else the physical
/// address `(entry address bits) | (offset of va)` and the permission
/// `entry flag bits` taken from the last-level entry.
pub open spec fn lookup_spec(fs: Seq<Option<TableFrame>>, root: int, va: u64) -> VAMapping {
    match last_level_spec(fs, root, va, 0) {
        None => VAMapping { pn: -1i32, pa: 0usize, perm: 0i32 },
        Some(t) => {
            let e = entry_of(fs, t, pt_index(va, 3));
            VAMapping {
                pn: (e as int / 4096) as i32,
                pa: ((e as int / 4096) * 4096 + (va as int % 4096)) as usize,
                perm: (e as int % 4096) as i32,
            }
        }
    }
}

/// `va` resolves from `root` to physical address `pa + (va % 4096)` with
/// permission exactly `perm`.
pub open spec fn maps_to(fs: Seq<Option<TableFrame>>, root: int, va: u64, pa: u64, perm: u64)
    -> bool {
    lookup_spec(fs, root, va) == (VAMapping {
        pn: (pa as int / 4096) as i32,
        pa: (pa as int + va as int % 4096) as usize,
        perm: perm as i32,
    })
}

impl KernelPageTables {
    /// The manager invariant: a well-formed arena whose `kernel_root` is a
    /// root table, with the trap-entry code inside physical memory.
    pub open spec fn wf(self) -> bool {
        &&& arena_wf(self.frames@)
        &&& root_ok(self.frames@, self.kernel_root as int)
        &&& self.handler_va < MEMSIZE_PHYSICAL
    }

    /// An empty arena; `virtual_memory_init` builds the kernel's tables.
    pub fn new() -> (t: Self)
        ensures
            t.frames@.len() == NPAGES,
            forall|pn: int| 0 <= pn < NPAGES ==> t.frames@[pn] is None,
            t.kernel_root == 0,
            t.handler_va == 0,
    {
        let mut frames: Vec<Option<TableFrame>> = Vec::new();
        let mut i: usize = 0;
        while i < NPAGES as usize
            invariant
                i <= NPAGES,
                frames@.len() == i,
                forall|pn: int| 0 <= pn < i ==> frames@[pn] is None,
            decreases NPAGES - i,
        {
            frames.push(None);
            i = i + 1;
        }
        KernelPageTables { frames, kernel_root: 0, handler_va: 0 }
    }

    /// Physical page `pn` holds a page table.
    pub(crate) fn is_table_exec(&self, pn: usize) -> (b: bool)
        ensures
            b == is_table(self.frames@, pn as int),
    {
        pn < self.frames.len() && self.frames[pn].is_some()
    }

    /// Entry `i` of the table in frame `pn`.
    pub(crate) fn read_entry(&self, pn: usize, i: usize) -> (e: u64)
        requires
            arena_wf(self.frames@),
            is_table(self.frames@, pn as int),
            i < 512,
        ensures
            e == entry_of(self.frames@, pn as int, i as int),
            e < MEMSIZE_PHYSICAL,
    {
        proof {
            assert(is_table(self.frames@, pn as int));
            assert(frame_wf(self.frames@, pn as int));
            assert(entry_of(self.frames@, pn as int, i as int) < MEMSIZE_PHYSICAL);
        }
        match &self.frames[pn] {
            Some(f) => f.table.entry[i],
            None => 0,
        }
    }

    /// The depth of the table in frame `pn`.
    pub(crate) fn read_level(&self, pn: usize) -> (l: usize)
        requires
            is_table(self.frames@, pn as int),
        ensures
            l == level_of(self.frames@, pn as int),
    {
        match &self.frames[pn] {
            Some(f) => f.level,
            None => 0,
        }
    }

    /// Find the last-level table for `va` under `pagetable`, demanding at
    /// each traversed non-leaf level that the entry is Present and has
    /// every bit of the requested permission mask `perm`. Yields "absent"
    /// (`None`) exactly when some traversed entry fails that demand.
    pub fn lookup_l1pagetable(&self, pagetable: usize, va: usize, perm: i32) -> (r: Option<usize>)
        requires
            arena_wf(self.frames@),
            perm >= 0,
        ensures
            r is None <==> last_level_spec(self.frames@, pagetable as int, va as u64, perm as u64)
                is None,
            r is Some ==> last_level_spec(self.frames@, pagetable as int, va as u64, perm as u64)
                == Some(r->Some_0 as int),
            r is Some ==> r->Some_0 < NPAGES,
    {
        let ghost fs = self.frames@;
        let mask: u64 = perm as u64;
        let va64: u64 = va as u64;
        if !self.is_table_exec(pagetable) {
            return None;
        }
        let i0: usize = ((va64 / 0x8000000000) % 512) as usize;
        let e0: u64 = self.read_entry(pagetable, i0);
        if !(e0 % 2 == 1 && e0 & mask == mask) {
            proof {
                assert(!step_ok(fs, pagetable as int, va64, 0, mask));
            }
            return None;
        }
        let p1: usize = (e0 / 4096) as usize;
        if !self.is_table_exec(p1) {
            return None;
        }
        let i1: usize = ((va64 / 0x40000000) % 512) as usize;
        let e1: u64 = self.read_entry(p1, i1);
        if !(e1 % 2 == 1 && e1 & mask == mask) {
            return None;
        }
        let p2: usize = (e1 / 4096) as usize;
        if !self.is_table_exec(p2) {
            return None;
        }
        let i2: usize = ((va64 / 0x200000) % 512) as usize;
        let e2: u64 = self.read_entry(p2, i2);
        if !(e2 % 2 == 1 && e2 & mask == mask) {
            return None;
        }
        let t: usize = (e2 / 4096) as usize;
        Some(t)
    }

    /// Resolve `va` in the address space rooted at `pagetable`. Produces
    /// the sentinel record when the walk is absent; otherwise the physical
    /// address combines the last-level entry's address bits with the
    /// offset of `va`, and the permission is the entry's flag bits.
    pub fn virtual_memory_lookup(&self, pagetable: usize, va: usize) -> (m: VAMapping)
        requires
            arena_wf(self.frames@),
            root_ok(self.frames@, pagetable as int),
        ensures
            m == lookup_spec(self.frames@, pagetable as int, va as u64),
    {
        let ghost fs = self.frames@;
        let ghost va64 = va as u64;
        match self.lookup_l1pagetable(pagetable, va, 0) {
            None => VAMapping { pn: -1, pa: 0, perm: 0 },
            Some(t) => {
                proof {
                    lemma_walk_reaches_tables(fs, pagetable as int, va64, 0);
                }
                let i3: usize = (((va as u64) / 4096) % 512) as usize;
                let e: u64 = self.read_entry(t, i3);
                let pa: usize = ((e / 4096) * 4096 + (va as u64) % 4096) as usize;
                VAMapping { pn: (e / 4096) as i32, pa, perm: (e % 4096) as i32 }
            },
        }
    }
}

/// Under the arena invariant, a walk that starts at a root table only
/// moves through tables: the frames it visits at depths 1, 2 and — when it
/// succeeds — 3 are tables of exactly those depths.
pub proof fn lemma_walk_reaches_tables(fs: Seq<Option<TableFrame>>, root: int, va: u64, mask: u64)
    requires
        arena_wf(fs),
        root_ok(fs, root),
        last_level_spec(fs, root, va, mask) is Some,
    ensures
        is_table(fs, last_level_spec(fs, root, va, mask)->Some_0),
        level_of(fs, last_level_spec(fs, root, va, mask)->Some_0) == 3,
        is_table(fs, step_to(fs, root, va, 0)),
        level_of(fs, step_to(fs, root, va, 0)) == 1,
        is_table(fs, step_to(fs, step_to(fs, root, va, 0), va, 1)),
        level_of(fs, step_to(fs, step_to(fs, root, va, 0), va, 1)) == 2,
{
    let i0 = pt_index(va, 0);
    let i1 = pt_index(va, 1);
    let i2 = pt_index(va, 2);
    assert(0 <= i0 < 512 && 0 <= i1 < 512 && 0 <= i2 < 512);
    assert(is_table(fs, root));
    assert(frame_wf(fs, root));
    let p1 = step_to(fs, root, va, 0);
    assert(present(entry_of(fs, root, i0)));
    assert(is_table(fs, p1) && level_of(fs, p1) == 1);
    assert(frame_wf(fs, p1));
    let p2 = step_to(fs, p1, va, 1);
    assert(present(entry_of(fs, p1, i1)));
    assert(is_table(fs, p2) && level_of(fs, p2) == 2);
    assert(frame_wf(fs, p2));
    let t = step_to(fs, p2, va, 2);
    assert(present(entry_of(fs, p2, i2)));
    assert(is_table(fs, t) && level_of(fs, t) == 3);
}


/// Every value has no bits of the empty mask.
pub proof fn lemma_mask_zero(e: u64)
    ensures
        e & 0 == 0,
{
    assert(e & 0 == 0) by (bit_vector);
}

/// An entry composed as `c * 4096 + f` with flag bits `f < 4096` decomposes
/// back into its frame number and flags.
pub proof fn lemma_entry_compose(c: int, f: int)
    requires
        0 <= c,
        0 <= f < 4096,
    ensures
        (c * 4096 + f) / 4096 == c,
        (c * 4096 + f) % 4096 == f,
{
    lemma_fundamental_div_mod_converse(c * 4096 + f, 4096, c, f);
}

/// An entry composed with flag bits 7 (Present, Writable, User) is Present.
pub proof fn lemma_entry_compose_present(c: int)
    requires
        0 <= c < 512,
    ensures
        present((c * 4096 + 7) as u64),
{
    assert(0 <= c * 4096 + 7 < 0x200000);
    assert((c * 4096 + 7) as u64 == c * 4096 + 7);
    lemma_fundamental_div_mod_converse(c * 4096 + 7, 2, c * 2048 + 3, 1);
}

/// `fs2` extends `fs1`: the same number of slots, every table of `fs1`
/// still a table of the same depth and size, and every edge of `fs1` kept
/// with the same entry value. Leaf entries and empty slots may change.
pub open spec fn frames_extend(fs1: Seq<Option<TableFrame>>, fs2: Seq<Option<TableFrame>>)
    -> bool {
    &&& fs1.len() == fs2.len()
    &&& forall|pn: int| #[trigger] is_table(fs1, pn) ==> {
        &&& is_table(fs2, pn)
        &&& level_of(fs2, pn) == level_of(fs1, pn)
        &&& fs2[pn]->Some_0.table.entry@.len() == fs1[pn]->Some_0.table.entry@.len()
    }
    &&& forall|pn: int, i: int| #[trigger] is_edge(fs1, pn, i)
        ==> entry_of(fs2, pn, i) == entry_of(fs1, pn, i)
}

/// Extension is transitive.
pub proof fn lemma_extend_trans(
    fs1: Seq<Option<TableFrame>>,
    fs2: Seq<Option<TableFrame>>,
    fs3: Seq<Option<TableFrame>>,
)
    requires
        frames_extend(fs1, fs2),
        frames_extend(fs2, fs3),
    ensures
        frames_extend(fs1, fs3),
{
    assert forall|pn: int| #[trigger] is_table(fs1, pn) implies {
        &&& is_table(fs3, pn)
        &&& level_of(fs3, pn) == level_of(fs1, pn)
        &&& fs3[pn]->Some_0.table.entry@.len() == fs1[pn]->Some_0.table.entry@.len()
    } by {
        assert(is_table(fs2, pn));
    }
    assert forall|pn: int, i: int| #[trigger] is_edge(fs1, pn, i)
        implies entry_of(fs3, pn, i) == entry_of(fs1, pn, i) by {
        assert(is_table(fs2, pn));
        assert(entry_of(fs2, pn, i) == entry_of(fs1, pn, i));
        assert(is_edge(fs2, pn, i));
    }
}

/// A walk that succeeds keeps its exact result in any extension, because
/// extension preserves every edge it traverses.
pub proof fn lemma_walk_preserved(
    fs1: Seq<Option<TableFrame>>,
    fs2: Seq<Option<TableFrame>>,
    root: int,
    va: u64,
    mask: u64,
)
    requires
        arena_wf(fs1),
        frames_extend(fs1, fs2),
        root_ok(fs1, root),
        last_level_spec(fs1, root, va, mask) is Some,
    ensures
        last_level_spec(fs2, root, va, mask) == last_level_spec(fs1, root, va, mask),
{
    lemma_walk_reaches_tables(fs1, root, va, mask);
    let i0 = pt_index(va, 0);
    let i1 = pt_index(va, 1);
    let i2 = pt_index(va, 2);
    let p1 = step_to(fs1, root, va, 0);
    let p2 = step_to(fs1, p1, va, 1);
    assert(is_edge(fs1, root, i0));
    assert(entry_of(fs2, root, i0) == entry_of(fs1, root, i0));
    assert(is_table(fs2, root));
    assert(step_ok(fs2, root, va, 0, mask));
    assert(step_to(fs2, root, va, 0) == p1);
    assert(is_edge(fs1, p1, i1));
    assert(entry_of(fs2, p1, i1) == entry_of(fs1, p1, i1));
    assert(is_table(fs2, p1));
    assert(step_ok(fs2, p1, va, 1, mask));
    assert(step_to(fs2, p1, va, 1) == p2);
    assert(is_edge(fs1, p2, i2));
    assert(entry_of(fs2, p2, i2) == entry_of(fs1, p2, i2));
    assert(is_table(fs2, p2));
    assert(step_ok(fs2, p2, va, 2, mask));
    assert(step_to(fs2, p2, va, 2) == step_to(fs1, p2, va, 2));
}

/// For addresses below `MEMSIZE_VIRTUAL`, the virtual page number is
/// recovered from the two low walk indices; the two high indices are zero.
pub proof fn lemma_low_va_indices(va: u64)
    requires
        va < MEMSIZE_VIRTUAL,
    ensures
        pt_index(va, 0) == 0,
        pt_index(va, 1) == 0,
        pt_index(va, 2) == va as int / 0x200000,
        0 <= pt_index(va, 2) < 2,
        va as int / 4096 == pt_index(va, 2) * 512 + pt_index(va, 3),
{
    let v = va as int;
    assert(v / 0x8000000000 == 0);
    assert(v / 0x40000000 == 0);
    vstd::arithmetic::div_mod::lemma_small_mod(0nat, 512nat);
    assert(v / 0x200000 < 2);
    vstd::arithmetic::div_mod::lemma_small_mod((v / 0x200000) as nat, 512nat);
    vstd::arithmetic::div_mod::lemma_div_denominator(v, 4096, 512);
    assert((v / 4096) / 512 == v / 0x200000);
    lemma_fundamental_div_mod(v / 4096, 512);
    assert(v / 4096 == 512 * ((v / 4096) / 512) + ((v / 4096) % 512));
}

/// Two addresses below `MEMSIZE_VIRTUAL` whose walks from the same root
/// both succeed at the same last-level table and leaf index lie on the
/// same virtual page: no two distinct pages share a leaf entry.
pub proof fn lemma_walk_injective(fs: Seq<Option<TableFrame>>, root: int, va1: u64, va2: u64)
    requires
        arena_wf(fs),
        root_ok(fs, root),
        va1 < MEMSIZE_VIRTUAL,
        va2 < MEMSIZE_VIRTUAL,
        last_level_spec(fs, root, va1, 0) is Some,
        last_level_spec(fs, root, va1, 0) == last_level_spec(fs, root, va2, 0),
        pt_index(va1, 3) == pt_index(va2, 3),
    ensures
        va1 as int / 4096 == va2 as int / 4096,
{
    lemma_walk_reaches_tables(fs, root, va1, 0);
    lemma_walk_reaches_tables(fs, root, va2, 0);
    let p1a = step_to(fs, root, va1, 0);
    let p2a = step_to(fs, p1a, va1, 1);
    let p1b = step_to(fs, root, va2, 0);
    let p2b = step_to(fs, p1b, va2, 1);
    assert(is_edge(fs, p2a, pt_index(va1, 2)));
    assert(is_edge(fs, p2b, pt_index(va2, 2)));
    assert(target_of(entry_of(fs, p2a, pt_index(va1, 2)))
        == target_of(entry_of(fs, p2b, pt_index(va2, 2))));
    assert(p2a == p2b && pt_index(va1, 2) == pt_index(va2, 2));
    lemma_low_va_indices(va1);
    lemma_low_va_indices(va2);
}

/// Re-establishes the arena invariant after a fresh, empty table is placed
/// in a previously empty slot `c`; the new arena extends the old one.
pub proof fn lemma_arena_new_frame(
    fs1: Seq<Option<TableFrame>>,
    fs2: Seq<Option<TableFrame>>,
    c: int,
    level: int,
)
    requires
        arena_wf(fs1),
        0 <= c < fs1.len(),
        !is_table(fs1, c),
        fs2.len() == fs1.len(),
        forall|q: int| 0 <= q < fs1.len() && q != c ==> fs2[q] == fs1[q],
        is_table(fs2, c),
        level_of(fs2, c) == level,
        1 <= level <= 3,
        fs2[c]->Some_0.table.entry@.len() == 512,
        forall|j: int| 0 <= j < 512 ==> entry_of(fs2, c, j) == 0,
    ensures
        arena_wf(fs2),
        frames_extend(fs1, fs2),
{
    assert forall|pn: int| #[trigger] is_table(fs2, pn) implies frame_wf(fs2, pn) by {
        if pn == c {
            assert(forall|j: int| 0 <= j < 512 ==> !present(#[trigger] entry_of(fs2, c, j)));
        } else {
            assert(is_table(fs1, pn));
            assert(frame_wf(fs1, pn));
            assert forall|i: int| 0 <= i < 512 implies #[trigger] entry_of(fs2, pn, i)
                < MEMSIZE_PHYSICAL by {
                assert(entry_of(fs2, pn, i) == entry_of(fs1, pn, i));
            }
            if level_of(fs2, pn) < 3 {
                assert forall|i: int| 0 <= i < 512
                    && present(#[trigger] entry_of(fs2, pn, i)) implies {
                    &&& is_table(fs2, target_of(entry_of(fs2, pn, i)))
                    &&& level_of(fs2, target_of(entry_of(fs2, pn, i))) == level_of(fs2, pn) + 1
                } by {
                    assert(entry_of(fs2, pn, i) == entry_of(fs1, pn, i));
                    let tgt = target_of(entry_of(fs1, pn, i));
                    assert(is_table(fs1, tgt));
                    assert(tgt != c);
                }
            }
        }
    }
    assert forall|p1: int, i1: int, p2: int, i2: int|
        #[trigger] is_edge(fs2, p1, i1) && #[trigger] is_edge(fs2, p2, i2)
        && target_of(entry_of(fs2, p1, i1)) == target_of(entry_of(fs2, p2, i2))
        implies p1 == p2 && i1 == i2 by {
        assert(p1 != c && p2 != c);
        assert(is_edge(fs1, p1, i1));
        assert(is_edge(fs1, p2, i2));
    }
    assert forall|pn: int, i: int| #[trigger] is_edge(fs1, pn, i)
        implies entry_of(fs2, pn, i) == entry_of(fs1, pn, i) by {
        assert(pn != c);
    }
}

/// Re-establishes the arena invariant after a previously non-present entry
/// `(pn, i)` of a non-leaf table is pointed at table `c`, a table one level
/// deeper that no edge targets yet.
pub proof fn lemma_arena_install_edge(
    fs1: Seq<Option<TableFrame>>,
    fs2: Seq<Option<TableFrame>>,
    pn: int,
    i: int,
    c: int,
)
    requires
        arena_wf(fs1),
        is_table(fs1, pn),
        level_of(fs1, pn) < 3,
        0 <= i < 512,
        !present(entry_of(fs1, pn, i)),
        is_table(fs1, c),
        level_of(fs1, c) == level_of(fs1, pn) + 1,
        forall|p: int, j: int| #[trigger] is_edge(fs1, p, j)
            ==> target_of(entry_of(fs1, p, j)) != c,
        fs2.len() == fs1.len(),
        forall|q: int| 0 <= q < fs1.len() && q != pn ==> fs2[q] == fs1[q],
        is_table(fs2, pn),
        level_of(fs2, pn) == level_of(fs1, pn),
        fs2[pn]->Some_0.table.entry@ == fs1[pn]->Some_0.table.entry@.update(
            i,
            (c * 4096 + 7) as u64,
        ),
    ensures
        arena_wf(fs2),
        frames_extend(fs1, fs2),
        is_edge(fs2, pn, i),
        target_of(entry_of(fs2, pn, i)) == c,
{
    assert(frame_wf(fs1, pn));
    assert(frame_wf(fs1, c));
    let e = (c * 4096 + 7) as u64;
    assert(c < 512);
    assert(e == c * 4096 + 7);
    lemma_entry_compose(c, 7);
    lemma_entry_compose_present(c);
    assert(target_of(e) == c);
    assert(present(e));
    assert(entry_of(fs2, pn, i) == e);
    assert(c != pn);
    assert forall|j: int| 0 <= j < 512 && j != i implies #[trigger] entry_of(fs2, pn, j)
        == entry_of(fs1, pn, j) by {}
    assert forall|q: int| #[trigger] is_table(fs2, q) implies frame_wf(fs2, q) by {
        if q == pn {
            assert(fs2[pn]->Some_0.table.entry@.len() == 512);
            assert forall|j: int| 0 <= j < 512 implies #[trigger] entry_of(fs2, pn, j)
                < MEMSIZE_PHYSICAL by {
                if j == i {
                    assert(entry_of(fs2, pn, i) == e);
                    assert(e < MEMSIZE_PHYSICAL);
                } else {
                    assert(entry_of(fs2, pn, j) == entry_of(fs1, pn, j));
                }
            }
            assert forall|j: int| 0 <= j < 512
                && present(#[trigger] entry_of(fs2, pn, j)) implies {
                &&& is_table(fs2, target_of(entry_of(fs2, pn, j)))
                &&& level_of(fs2, target_of(entry_of(fs2, pn, j))) == level_of(fs2, pn) + 1
            } by {
                if j == i {
                    assert(is_table(fs2, c));
                    assert(level_of(fs2, c) == level_of(fs1, c));
                } else {
                    assert(entry_of(fs2, pn, j) == entry_of(fs1, pn, j));
                    let tgt = target_of(entry_of(fs1, pn, j));
                    assert(is_table(fs1, tgt));
                    if tgt == pn {
                    } else {
                        assert(fs2[tgt] == fs1[tgt]);
                    }
                }
            }
        } else {
            assert(fs2[q] == fs1[q]);
            assert(is_table(fs1, q));
            assert(frame_wf(fs1, q));
            assert forall|j: int| 0 <= j < 512 implies #[trigger] entry_of(fs2, q, j)
                < MEMSIZE_PHYSICAL by {
                assert(entry_of(fs2, q, j) == entry_of(fs1, q, j));
            }
            if level_of(fs2, q) < 3 {
                assert forall|j: int| 0 <= j < 512
                    && present(#[trigger] entry_of(fs2, q, j)) implies {
                    &&& is_table(fs2, target_of(entry_of(fs2, q, j)))
                    &&& level_of(fs2, target_of(entry_of(fs2, q, j))) == level_of(fs2, q) + 1
                } by {
                    assert(entry_of(fs2, q, j) == entry_of(fs1, q, j));
                    let tgt = target_of(entry_of(fs1, q, j));
                    assert(is_table(fs1, tgt));
                    if tgt == pn {
                    } else {
                        assert(fs2[tgt] == fs1[tgt]);
                    }
                }
            }
        }
    }
    assert forall|q1: int, j1: int, q2: int, j2: int|
        #[trigger] is_edge(fs2, q1, j1) && #[trigger] is_edge(fs2, q2, j2)
        && target_of(entry_of(fs2, q1, j1)) == target_of(entry_of(fs2, q2, j2))
        implies q1 == q2 && j1 == j2 by {
        let new1 = q1 == pn && j1 == i;
        let new2 = q2 == pn && j2 == i;
        if new1 && new2 {
        } else if new1 {
            assert(entry_of(fs2, q2, j2) == entry_of(fs1, q2, j2));
            assert(is_edge(fs1, q2, j2));
            assert(target_of(entry_of(fs1, q2, j2)) != c);
            assert(false);
        } else if new2 {
            assert(entry_of(fs2, q1, j1) == entry_of(fs1, q1, j1));
            assert(is_edge(fs1, q1, j1));
            assert(target_of(entry_of(fs1, q1, j1)) != c);
            assert(false);
        } else {
            if q1 == pn {
                assert(entry_of(fs2, q1, j1) == entry_of(fs1, q1, j1));
            } else {
                assert(fs2[q1] == fs1[q1]);
            }
            if q2 == pn {
                assert(entry_of(fs2, q2, j2) == entry_of(fs1, q2, j2));
            } else {
                assert(fs2[q2] == fs1[q2]);
            }
            assert(is_edge(fs1, q1, j1));
            assert(is_edge(fs1, q2, j2));
        }
    }
    assert forall|q: int, j: int| #[trigger] is_edge(fs1, q, j)
        implies entry_of(fs2, q, j) == entry_of(fs1, q, j) by {
        if q == pn && j == i {
            assert(false);
        } else if q == pn {
        } else {
            assert(fs2[q] == fs1[q]);
        }
    }
}


impl KernelPageTables {
    /// Overwrite entry `i` of the table in frame `pn`.
    fn write_entry(&mut self, pn: usize, i: usize, e: u64)
        requires
            is_table(old(self).frames@, pn as int),
            old(self).frames@[pn as int]->Some_0.table.entry@.len() == 512,
            i < 512,
        ensures
            final(self).frames@.len() == old(self).frames@.len(),
            forall|q: int| 0 <= q < old(self).frames@.len() && q != pn
                ==> final(self).frames@[q] == old(self).frames@[q],
            is_table(final(self).frames@, pn as int),
            final(self).frames@[pn as int]->Some_0.level
                == old(self).frames@[pn as int]->Some_0.level,
            final(self).frames@[pn as int]->Some_0.table.entry@
                == old(self).frames@[pn as int]->Some_0.table.entry@.update(i as int, e),
            final(self).kernel_root == old(self).kernel_root,
            final(self).handler_va == old(self).handler_va,
    {
        let fr: &mut Option<TableFrame> = &mut self.frames[pn];
        match fr {
            Some(f) => {
                f.table.entry[i] = e;
            },
            None => {},
        }
    }

    /// Take one free physical page from the ledger for a new, empty table
    /// at depth `level`. By policy the frame is owned by the kernel. Fails
    /// only when no page is both free in the ledger and empty in the arena.
    fn alloc_table_frame(&mut self, ledger: &mut PhysicalPageInfoTable, level: usize)
        -> (r: Option<usize>)
        requires
            arena_wf(old(self).frames@),
            old(ledger).wf(),
            1 <= level <= 3,
        ensures
            final(ledger).wf(),
            final(self).kernel_root == old(self).kernel_root,
            final(self).handler_va == old(self).handler_va,
            r is None ==> *final(self) == *old(self) && *final(ledger) == *old(ledger)
                && forall|pn: int| 0 <= pn < NPAGES
                    ==> old(ledger).pageinfo@[pn].refcount != 0
                        || is_table(old(self).frames@, pn),
            r is Some ==> {
                let c = r->Some_0 as int;
                &&& 0 <= c < NPAGES
                &&& !is_table(old(self).frames@, c)
                &&& old(ledger).pageinfo@[c].refcount == 0
                &&& final(ledger).pageinfo@ == old(ledger).pageinfo@.update(c,
                    PhysicalPageInfo { owner: -2i8, refcount: 1i8 })
                &&& final(self).frames@.len() == old(self).frames@.len()
                &&& (forall|q: int| 0 <= q < NPAGES && q != c
                    ==> final(self).frames@[q] == old(self).frames@[q])
                &&& is_table(final(self).frames@, c)
                &&& level_of(final(self).frames@, c) == level
                &&& final(self).frames@[c]->Some_0.table.entry@.len() == 512
                &&& (forall|j: int| 0 <= j < 512 ==> entry_of(final(self).frames@, c, j) == 0)
                &&& arena_wf(final(self).frames@)
                &&& frames_extend(old(self).frames@, final(self).frames@)
            },
    {
        let ghost fs1 = self.frames@;
        let mut pn: usize = 0;
        while pn < NPAGES as usize
            invariant
                pn <= NPAGES,
                1 <= level <= 3,
                *self == *old(self),
                *ledger == *old(ledger),
                self.frames@ == fs1,
                arena_wf(fs1),
                ledger.wf(),
                forall|j: int| 0 <= j < pn ==> ledger.pageinfo@[j].refcount != 0
                    || is_table(fs1, j),
            decreases NPAGES - pn,
        {
            if self.frames[pn].is_none() && ledger.pageinfo[pn].refcount == 0 {
                ledger.assign_kernel_page(pn);
                self.frames[pn] = Some(TableFrame { level, table: x86_64_pagetable::new() });
                proof {
                    let fs2 = self.frames@;
                    assert(is_table(fs2, pn as int));
                    assert(level_of(fs2, pn as int) == level);
                    lemma_arena_new_frame(fs1, fs2, pn as int, level as int);
                }
                return Some(pn);
            }
            pn = pn + 1;
        }
        None
    }

    /// Follow the entry `i` of non-leaf table `pn` to its child table,
    /// allocating and installing a fresh child (flags Present, Writable,
    /// User-accessible) when the entry is absent. Fails only when an
    /// allocation was needed and no free page existed.
    fn ensure_child(&mut self, ledger: &mut PhysicalPageInfoTable, pn: usize, i: usize)
        -> (r: Option<usize>)
        requires
            arena_wf(old(self).frames@),
            old(ledger).wf(),
            is_table(old(self).frames@, pn as int),
            level_of(old(self).frames@, pn as int) < 3,
            i < 512,
        ensures
            final(ledger).wf(),
            final(self).kernel_root == old(self).kernel_root,
            final(self).handler_va == old(self).handler_va,
            arena_wf(final(self).frames@),
            frames_extend(old(self).frames@, final(self).frames@),
            final(ledger).pageinfo@.len() == old(ledger).pageinfo@.len(),
            forall|q: int| 0 <= q < NPAGES ==> final(ledger).pageinfo@[q]
                == old(ledger).pageinfo@[q]
                || (old(ledger).pageinfo@[q].refcount == 0 && final(ledger).pageinfo@[q]
                    == (PhysicalPageInfo { owner: -2i8, refcount: 1i8 })),
            forall|q: int| is_table(old(self).frames@, q) && q != pn
                ==> final(self).frames@[q] == old(self).frames@[q],
            r is None ==> *final(self) == *old(self) && *final(ledger) == *old(ledger)
                && forall|q: int| 0 <= q < NPAGES
                    ==> old(ledger).pageinfo@[q].refcount != 0
                        || is_table(old(self).frames@, q),
            r is Some ==> {
                let c = r->Some_0 as int;
                &&& is_edge(final(self).frames@, pn as int, i as int)
                &&& target_of(entry_of(final(self).frames@, pn as int, i as int)) == c
                &&& is_table(final(self).frames@, c)
                &&& level_of(final(self).frames@, c)
                    == level_of(old(self).frames@, pn as int) + 1
            },
            // Any entry this call makes present carries Present, Writable
            // and User-accessible.
            forall|p: int, j: int| #[trigger] is_edge(final(self).frames@, p, j)
                && !is_edge(old(self).frames@, p, j)
                ==> entry_of(final(self).frames@, p, j) & 7 == 7,
            // The table set grows by at most the returned child.
            forall|q: int| #[trigger] is_table(final(self).frames@, q)
                ==> is_table(old(self).frames@, q)
                    || (r is Some && q == r->Some_0 as int),
            // Of table `pn` only entry `i` can change.
            forall|j: int| 0 <= j < 512 && j != i
                ==> #[trigger] entry_of(final(self).frames@, pn as int, j)
                    == entry_of(old(self).frames@, pn as int, j),
            // A freshly allocated child starts empty.
            r is Some && !present(entry_of(old(self).frames@, pn as int, i as int)) ==> {
                let c = r->Some_0 as int;
                &&& !is_table(old(self).frames@, c)
                &&& forall|j: int| 0 <= j < 512 ==> entry_of(final(self).frames@, c, j)
                    == 0
            },
            present(entry_of(old(self).frames@, pn as int, i as int))
                ==> r is Some && *final(self) == *old(self) && *final(ledger) == *old(ledger)
                    && r->Some_0 as int
                        == target_of(entry_of(old(self).frames@, pn as int, i as int)),
    {
        let ghost fs1 = self.frames@;
        proof {
            assert(is_table(fs1, pn as int));
            assert(frame_wf(fs1, pn as int));
        }
        let e: u64 = self.read_entry(pn, i);
        if e % 2 == 1 {
            proof {
                assert(present(entry_of(fs1, pn as int, i as int)));
                assert(is_table(fs1, target_of(entry_of(fs1, pn as int, i as int))));
                assert(is_edge(fs1, pn as int, i as int));
            }
            return Some((e / 4096) as usize);
        }
        let level: usize = self.read_level(pn);
        proof {
            assert(level < 3);
        }
        match self.alloc_table_frame(ledger, level + 1) {
            None => None,
            Some(c) => {
                let ghost fs2 = self.frames@;
                proof {
                    assert forall|p: int, j: int| #[trigger] is_edge(fs2, p, j)
                        implies target_of(entry_of(fs2, p, j)) != c by {
                        if p == c as int {
                            assert(entry_of(fs2, c as int, j) == 0);
                            assert(!present(0u64));
                            assert(false);
                        } else {
                            assert(fs2[p] == fs1[p]);
                            assert(is_edge(fs1, p, j));
                            assert(frame_wf(fs1, p));
                            let tgt = target_of(entry_of(fs1, p, j));
                            assert(is_table(fs1, tgt));
                            assert(tgt != c as int);
                        }
                    }
                    assert(is_table(fs2, pn as int));
                    assert(frame_wf(fs2, pn as int));
                    assert(entry_of(fs2, pn as int, i as int) == entry_of(fs1, pn as int, i as int));
                }
                let e2: u64 = (c as u64) * 4096 + 7;
                let ghost cu = c as u64;
                self.write_entry(pn, i, e2);
                proof {
                    let fs3 = self.frames@;
                    assert(e2 == (c as int) * 4096 + 7);
                    lemma_arena_install_edge(fs2, fs3, pn as int, i as int, c as int);
                    lemma_extend_trans(fs1, fs2, fs3);
                    assert(e2 & 7 == 7) by (bit_vector)
                        requires
                            e2 == cu * 4096 + 7,
                            cu < 512,
                    ;
                    assert(c as int != pn as int);
                    assert forall|j: int| 0 <= j < 512
                        implies entry_of(fs3, c as int, j) == 0 by {
                        assert(entry_of(fs2, c as int, j) == 0);
                        assert(fs3[c as int] == fs2[c as int]);
                        assert(entry_of(fs3, c as int, j) == entry_of(fs2, c as int, j));
                    }
                    assert forall|p: int, j: int| #[trigger] is_edge(fs3, p, j)
                        && !is_edge(fs1, p, j)
                        implies entry_of(fs3, p, j) & 7 == 7 by {
                        if p == pn as int && j == i as int {
                            assert(entry_of(fs3, p, j) == e2);
                        } else {
                            if p == pn as int {
                                assert(entry_of(fs3, p, j) == entry_of(fs2, p, j));
                            } else {
                                assert(fs3[p] == fs2[p]);
                            }
                            if p == c as int {
                                assert(entry_of(fs2, p, j) == 0);
                                assert(!present(0u64));
                                assert(false);
                            } else {
                                assert(fs2[p] == fs1[p]);
                                assert(is_edge(fs1, p, j));
                                assert(false);
                            }
                        }
                    }
                }
                Some(c)
            },
        }
    }
}


/// Re-establishes the arena invariant after a last-level entry is written,
/// and shows the write is an extension: no edge moves.
pub proof fn lemma_extend_leaf_write(
    fs1: Seq<Option<TableFrame>>,
    fs2: Seq<Option<TableFrame>>,
    t: int,
    i: int,
    e: u64,
)
    requires
        arena_wf(fs1),
        is_table(fs1, t),
        level_of(fs1, t) == 3,
        0 <= i < 512,
        e < MEMSIZE_PHYSICAL,
        fs2.len() == fs1.len(),
        forall|q: int| 0 <= q < fs1.len() && q != t ==> fs2[q] == fs1[q],
        is_table(fs2, t),
        level_of(fs2, t) == level_of(fs1, t),
        fs2[t]->Some_0.table.entry@ == fs1[t]->Some_0.table.entry@.update(i, e),
    ensures
        arena_wf(fs2),
        frames_extend(fs1, fs2),
        entry_of(fs2, t, i) == e,
{
    assert(frame_wf(fs1, t));
    assert forall|q: int| #[trigger] is_table(fs2, q) implies frame_wf(fs2, q) by {
        if q == t {
            assert(fs2[t]->Some_0.table.entry@.len() == 512);
            assert forall|j: int| 0 <= j < 512 implies #[trigger] entry_of(fs2, t, j)
                < MEMSIZE_PHYSICAL by {
                if j != i {
                    assert(entry_of(fs2, t, j) == entry_of(fs1, t, j));
                }
            }
        } else {
            assert(fs2[q] == fs1[q]);
            assert(is_table(fs1, q));
            assert(frame_wf(fs1, q));
            assert forall|j: int| 0 <= j < 512 implies #[trigger] entry_of(fs2, q, j)
                < MEMSIZE_PHYSICAL by {
                assert(entry_of(fs2, q, j) == entry_of(fs1, q, j));
            }
            if level_of(fs2, q) < 3 {
                assert forall|j: int| 0 <= j < 512
                    && present(#[trigger] entry_of(fs2, q, j)) implies {
                    &&& is_table(fs2, target_of(entry_of(fs2, q, j)))
                    &&& level_of(fs2, target_of(entry_of(fs2, q, j))) == level_of(fs2, q) + 1
                } by {
                    assert(entry_of(fs2, q, j) == entry_of(fs1, q, j));
                    let tgt = target_of(entry_of(fs1, q, j));
                    assert(is_table(fs1, tgt));
                    if tgt != t {
                        assert(fs2[tgt] == fs1[tgt]);
                    }
                }
            }
        }
    }
    assert forall|q1: int, j1: int, q2: int, j2: int|
        #[trigger] is_edge(fs2, q1, j1) && #[trigger] is_edge(fs2, q2, j2)
        && target_of(entry_of(fs2, q1, j1)) == target_of(entry_of(fs2, q2, j2))
        implies q1 == q2 && j1 == j2 by {
        assert(q1 != t && q2 != t);
        assert(fs2[q1] == fs1[q1]);
        assert(fs2[q2] == fs1[q2]);
        assert(is_edge(fs1, q1, j1));
        assert(is_edge(fs1, q2, j2));
    }
    assert forall|q: int, j: int| #[trigger] is_edge(fs1, q, j)
        implies entry_of(fs2, q, j) == entry_of(fs1, q, j) by {
        assert(q != t);
        assert(fs2[q] == fs1[q]);
    }
}

/// A successful lookup is unchanged by an extension that leaves every
/// last-level table as it was.
pub proof fn lemma_lookup_preserved_nonleaf(
    fs1: Seq<Option<TableFrame>>,
    fs2: Seq<Option<TableFrame>>,
    root: int,
    va: u64,
)
    requires
        arena_wf(fs1),
        frames_extend(fs1, fs2),
        root_ok(fs1, root),
        last_level_spec(fs1, root, va, 0) is Some,
        forall|q: int| is_table(fs1, q) && level_of(fs1, q) == 3 ==> fs2[q] == fs1[q],
    ensures
        lookup_spec(fs2, root, va) == lookup_spec(fs1, root, va),
{
    lemma_walk_preserved(fs1, fs2, root, va, 0);
    lemma_walk_reaches_tables(fs1, root, va, 0);
    let t = last_level_spec(fs1, root, va, 0)->Some_0;
    assert(fs2[t] == fs1[t]);
    assert(entry_of(fs2, t, pt_index(va, 3)) == entry_of(fs1, t, pt_index(va, 3)));
}

impl KernelPageTables {
    /// Map the single page at `va` to the physical page at `pa` with
    /// permission bits `perm`, allocating missing intermediate tables from
    /// the ledger. Fails — leaving no mapping changed — only when an
    /// intermediate table was needed and no free page existed; every other
    /// virtual page keeps its resolution.
    fn map_page(&mut self, ledger: &mut PhysicalPageInfoTable, pagetable: usize, va: usize,
        pa: usize, perm: i32) -> (r: i32)
        requires
            arena_wf(old(self).frames@),
            old(ledger).wf(),
            root_ok(old(self).frames@, pagetable as int),
            va % 4096 == 0,
            va + 4096 <= MEMSIZE_VIRTUAL,
            pa % 4096 == 0,
            pa + 4096 <= MEMSIZE_PHYSICAL,
            0 <= perm < 4096,
        ensures
            arena_wf(final(self).frames@),
            final(ledger).wf(),
            frames_extend(old(self).frames@, final(self).frames@),
            root_ok(final(self).frames@, pagetable as int),
            final(self).kernel_root == old(self).kernel_root,
            final(self).handler_va == old(self).handler_va,
            final(ledger).pageinfo@.len() == old(ledger).pageinfo@.len(),
            forall|q: int| 0 <= q < NPAGES ==> final(ledger).pageinfo@[q]
                == old(ledger).pageinfo@[q]
                || (old(ledger).pageinfo@[q].refcount == 0 && final(ledger).pageinfo@[q]
                    == (PhysicalPageInfo { owner: -2i8, refcount: 1i8 })),
            r == 0 || r == -1,
            r == 0 ==> maps_to(final(self).frames@, pagetable as int, va as u64, pa as u64,
                perm as u64),
            forall|va2: u64| va2 < MEMSIZE_VIRTUAL && va2 as int / 4096 != va as int / 4096
                && last_level_spec(old(self).frames@, pagetable as int, va2, 0) is Some
                ==> lookup_spec(final(self).frames@, pagetable as int, va2)
                    == lookup_spec(old(self).frames@, pagetable as int, va2),
            forall|va2: u64| last_level_spec(old(self).frames@, pagetable as int, va2, 0)
                is Some ==> last_level_spec(final(self).frames@, pagetable as int, va2, 0)
                    == last_level_spec(old(self).frames@, pagetable as int, va2, 0),
            last_level_spec(old(self).frames@, pagetable as int, va as u64, 0) is Some
                ==> r == 0 && *final(ledger) == *old(ledger),
            // When the path already existed, only this page's last-level
            // entry changes: every other address — resolved or not —
            // keeps its exact resolution.
            last_level_spec(old(self).frames@, pagetable as int, va as u64, 0) is Some
                ==> forall|va2: u64| va2 < MEMSIZE_VIRTUAL
                    && va2 as int / 4096 != va as int / 4096
                    ==> lookup_spec(final(self).frames@, pagetable as int, va2)
                        == lookup_spec(old(self).frames@, pagetable as int, va2),
            // No readable mapping appears on another page: an address that
            // resolved to nothing before resolves, at most, through fresh
            // all-zero tables afterwards, with no permission bits.
            forall|va2: u64| va2 < MEMSIZE_VIRTUAL && va2 as int / 4096 != va as int / 4096
                && last_level_spec(old(self).frames@, pagetable as int, va2, 0) is None
                ==> (#[trigger] lookup_spec(final(self).frames@, pagetable as int,
                    va2)).perm == 0,
            r == -1 ==> forall|q: int| 0 <= q < NPAGES
                ==> final(ledger).pageinfo@[q].refcount != 0
                    || is_table(final(self).frames@, q),
            r == -1 ==> forall|va2: u64| va2 < MEMSIZE_VIRTUAL
                && last_level_spec(old(self).frames@, pagetable as int, va2, 0) is Some
                ==> lookup_spec(final(self).frames@, pagetable as int, va2)
                    == lookup_spec(old(self).frames@, pagetable as int, va2),
            forall|p: int, j: int| #[trigger] is_edge(final(self).frames@, p, j)
                && !is_edge(old(self).frames@, p, j)
                ==> entry_of(final(self).frames@, p, j) & 7 == 7,
    {
        let ghost fs0 = self.frames@;
        let ghost led0 = *ledger;
        let va64: u64 = va as u64;
        let i0: usize = ((va64 / 0x8000000000) % 512) as usize;
        let i1: usize = ((va64 / 0x40000000) % 512) as usize;
        let i2: usize = ((va64 / 0x200000) % 512) as usize;
        let i3: usize = ((va64 / 4096) % 512) as usize;
        proof {
            assert(i0 as int == pt_index(va64, 0));
            assert(i1 as int == pt_index(va64, 1));
            assert(i2 as int == pt_index(va64, 2));
            assert(i3 as int == pt_index(va64, 3));
        }

        let c1opt = self.ensure_child(ledger, pagetable, i0);
        if c1opt.is_none() {
            proof {
                assert(!present(entry_of(fs0, pagetable as int, i0 as int)));
                assert(!step_ok(fs0, pagetable as int, va64, 0, 0));
                assert(last_level_spec(fs0, pagetable as int, va64, 0) is None);
                assert(self.frames@ =~= fs0);
            }
            return -1;
        }
        let c1: usize = c1opt.unwrap();
        let ghost fs_a = self.frames@;
        proof {
            assert forall|q: int| is_table(fs0, q) && level_of(fs0, q) == 3
                implies fs_a[q] == fs0[q] by {
                assert(q != pagetable as int);
            }
        }

        let c2opt = self.ensure_child(ledger, c1, i1);
        if c2opt.is_none() {
            proof {
                // The walk for va was already absent: either its first entry
                // was absent, or it was present and the second one is absent.
                if present(entry_of(fs0, pagetable as int, i0 as int)) {
                    assert(fs_a =~= fs0);
                    assert(step_to(fs0, pagetable as int, va64, 0) == c1 as int);
                    assert(!present(entry_of(fs0, c1 as int, i1 as int)));
                    assert(!step_ok(fs0, c1 as int, va64, 1, 0));
                } else {
                    assert(!step_ok(fs0, pagetable as int, va64, 0, 0));
                }
                assert(last_level_spec(fs0, pagetable as int, va64, 0) is None);
                assert forall|va2: u64| va2 < MEMSIZE_VIRTUAL
                    && last_level_spec(fs0, pagetable as int, va2, 0) is Some
                    implies lookup_spec(self.frames@, pagetable as int, va2)
                        == lookup_spec(fs0, pagetable as int, va2) by {
                    lemma_lookup_preserved_nonleaf(fs0, fs_a, pagetable as int, va2);
                }
                assert forall|va2: u64| last_level_spec(fs0, pagetable as int, va2, 0) is Some
                    implies last_level_spec(self.frames@, pagetable as int, va2, 0)
                        == last_level_spec(fs0, pagetable as int, va2, 0) by {
                    lemma_walk_preserved(fs0, fs_a, pagetable as int, va2, 0);
                }
            }
            return -1;
        }
        let c2: usize = c2opt.unwrap();
        let ghost fs_b = self.frames@;
        proof {
            assert forall|q: int| is_table(fs0, q) && level_of(fs0, q) == 3
                implies fs_b[q] == fs0[q] by {
                assert(q != pagetable as int);
                assert(fs_a[q] == fs0[q]);
                assert(is_table(fs_a, q) && level_of(fs_a, q) == 3);
                assert(q != c1 as int);
            }
            lemma_extend_trans(fs0, fs_a, fs_b);
        }

        let topt = self.ensure_child(ledger, c2, i2);
        if topt.is_none() {
            proof {
                if present(entry_of(fs0, pagetable as int, i0 as int)) {
                    assert(fs_a =~= fs0);
                    assert(step_to(fs0, pagetable as int, va64, 0) == c1 as int);
                    if present(entry_of(fs0, c1 as int, i1 as int)) {
                        assert(fs_b =~= fs0);
                        assert(step_to(fs0, c1 as int, va64, 1) == c2 as int);
                        assert(!present(entry_of(fs0, c2 as int, i2 as int)));
                        assert(!step_ok(fs0, c2 as int, va64, 2, 0));
                    } else {
                        assert(!step_ok(fs0, c1 as int, va64, 1, 0));
                    }
                } else {
                    assert(!step_ok(fs0, pagetable as int, va64, 0, 0));
                }
                assert(last_level_spec(fs0, pagetable as int, va64, 0) is None);
                assert forall|va2: u64| va2 < MEMSIZE_VIRTUAL
                    && last_level_spec(fs0, pagetable as int, va2, 0) is Some
                    implies lookup_spec(self.frames@, pagetable as int, va2)
                        == lookup_spec(fs0, pagetable as int, va2) by {
                    lemma_lookup_preserved_nonleaf(fs0, fs_b, pagetable as int, va2);
                }
                assert forall|va2: u64| last_level_spec(fs0, pagetable as int, va2, 0) is Some
                    implies last_level_spec(self.frames@, pagetable as int, va2, 0)
                        == last_level_spec(fs0, pagetable as int, va2, 0) by {
                    lemma_walk_preserved(fs0, fs_b, pagetable as int, va2, 0);
                }
            }
            return -1;
        }
        let t: usize = topt.unwrap();
        let ghost fs_c = self.frames@;

        proof {
            assert forall|q: int| is_table(fs0, q) && level_of(fs0, q) == 3
                implies fs_c[q] == fs0[q] by {
                assert(q != pagetable as int);
                assert(fs_a[q] == fs0[q]);
                assert(is_table(fs_a, q) && level_of(fs_a, q) == 3);
                assert(q != c1 as int);
                assert(fs_b[q] == fs_a[q]);
                assert(is_table(fs_b, q) && level_of(fs_b, q) == 3);
                assert(q != c2 as int);
            }
            lemma_extend_trans(fs0, fs_b, fs_c);
            assert(is_table(fs_c, t as int));
            assert(frame_wf(fs_c, t as int));
        }
        let leaf: u64 = pa as u64 + perm as u64;
        self.write_entry(t, i3, leaf);
        let ghost fs_d = self.frames@;
        proof {
            lemma_extend_leaf_write(fs_c, fs_d, t as int, i3 as int, leaf);
            lemma_extend_trans(fs0, fs_c, fs_d);

            // The walk for va now reaches t, and its leaf entry is `leaf`.
            lemma_mask_zero(entry_of(fs_d, pagetable as int, i0 as int));
            lemma_mask_zero(entry_of(fs_d, c1 as int, i1 as int));
            lemma_mask_zero(entry_of(fs_d, c2 as int, i2 as int));
            assert(is_edge(fs_a, pagetable as int, i0 as int));
            assert(entry_of(fs_b, pagetable as int, i0 as int)
                == entry_of(fs_a, pagetable as int, i0 as int));
            assert(is_edge(fs_b, pagetable as int, i0 as int));
            assert(entry_of(fs_c, pagetable as int, i0 as int)
                == entry_of(fs_b, pagetable as int, i0 as int));
            assert(is_edge(fs_c, pagetable as int, i0 as int));
            assert(entry_of(fs_d, pagetable as int, i0 as int)
                == entry_of(fs_c, pagetable as int, i0 as int));
            assert(step_ok(fs_d, pagetable as int, va64, 0, 0));
            assert(step_to(fs_d, pagetable as int, va64, 0) == c1 as int);
            assert(is_edge(fs_b, c1 as int, i1 as int));
            assert(entry_of(fs_c, c1 as int, i1 as int) == entry_of(fs_b, c1 as int, i1 as int));
            assert(is_edge(fs_c, c1 as int, i1 as int));
            assert(entry_of(fs_d, c1 as int, i1 as int) == entry_of(fs_c, c1 as int, i1 as int));
            assert(step_ok(fs_d, c1 as int, va64, 1, 0));
            assert(step_to(fs_d, c1 as int, va64, 1) == c2 as int);
            assert(is_edge(fs_c, c2 as int, i2 as int));
            assert(entry_of(fs_d, c2 as int, i2 as int) == entry_of(fs_c, c2 as int, i2 as int));
            assert(step_ok(fs_d, c2 as int, va64, 2, 0));
            assert(step_to(fs_d, c2 as int, va64, 2) == t as int);
            assert(last_level_spec(fs_d, pagetable as int, va64, 0) == Some(t as int));

            // Decompose the leaf entry back into page number and flags.
            lemma_fundamental_div_mod(pa as int, 4096);
            assert(pa as int == (pa as int / 4096) * 4096);
            lemma_entry_compose(pa as int / 4096, perm as int);
            assert(leaf as int == (pa as int / 4096) * 4096 + perm as int);
            assert(leaf as int / 4096 == pa as int / 4096);
            assert(leaf as int % 4096 == perm as int);
            assert(entry_of(fs_d, t as int, i3 as int) == leaf);
            assert(maps_to(fs_d, pagetable as int, va64, pa as u64, perm as u64));

            // Every other page keeps its resolution.
            assert forall|va2: u64| va2 < MEMSIZE_VIRTUAL
                && va2 as int / 4096 != va as int / 4096
                && last_level_spec(fs0, pagetable as int, va2, 0) is Some
                implies lookup_spec(fs_d, pagetable as int, va2)
                    == lookup_spec(fs0, pagetable as int, va2) by {
                lemma_walk_preserved(fs0, fs_d, pagetable as int, va2, 0);
                lemma_walk_reaches_tables(fs0, pagetable as int, va2, 0);
                let t2 = last_level_spec(fs0, pagetable as int, va2, 0)->Some_0;
                assert(fs_c[t2] == fs0[t2]);
                if t2 == t as int {
                    if pt_index(va2, 3) == pt_index(va64, 3) {
                        lemma_walk_injective(fs_d, pagetable as int, va64, va2);
                        assert(false);
                    }
                    assert(entry_of(fs_d, t2, pt_index(va2, 3))
                        == entry_of(fs_c, t2, pt_index(va2, 3)));
                } else {
                    assert(fs_d[t2] == fs_c[t2]);
                    assert(entry_of(fs_d, t2, pt_index(va2, 3))
                        == entry_of(fs_c, t2, pt_index(va2, 3)));
                }
                assert(entry_of(fs_c, t2, pt_index(va2, 3))
                    == entry_of(fs0, t2, pt_index(va2, 3)));
            }
            assert forall|va2: u64| last_level_spec(fs0, pagetable as int, va2, 0) is Some
                implies last_level_spec(fs_d, pagetable as int, va2, 0)
                    == last_level_spec(fs0, pagetable as int, va2, 0) by {
                lemma_walk_preserved(fs0, fs_d, pagetable as int, va2, 0);
            }

            // Which of the three steps allocated, and the resulting delta:
            // only the four cells along va's path changed, fresh tables
            // are empty but for that path, and no other table moved.
            let inst1 = !present(entry_of(fs0, pagetable as int, i0 as int));
            let inst2 = !present(entry_of(fs_a, c1 as int, i1 as int));
            let inst3 = !present(entry_of(fs_b, c2 as int, i2 as int));
            if inst1 {
                assert(entry_of(fs_a, c1 as int, i1 as int) == 0);
                assert(inst2);
            }
            if inst2 {
                assert(entry_of(fs_b, c2 as int, i2 as int) == 0);
                assert(inst3);
            }
            assert(level_of(fs_a, pagetable as int) == 0);
            assert(level_of(fs_b, c1 as int) == 1);
            assert(level_of(fs_b, pagetable as int) == 0);
            assert(level_of(fs_c, c2 as int) == 2);
            assert(level_of(fs_c, c1 as int) == 1);
            assert(level_of(fs_c, pagetable as int) == 0);
            assert(level_of(fs_c, t as int) == 3);
            assert(pagetable as int != c1 as int && pagetable as int != c2 as int
                && pagetable as int != t as int);
            assert(c1 as int != c2 as int && c1 as int != t as int);
            assert(c2 as int != t as int);
            assert(fs_b[pagetable as int] == fs_a[pagetable as int]);
            assert(fs_c[pagetable as int] == fs_b[pagetable as int]);
            assert(fs_d[pagetable as int] == fs_c[pagetable as int]);
            assert(fs_c[c1 as int] == fs_b[c1 as int]);
            assert(fs_d[c1 as int] == fs_c[c1 as int]);
            assert(fs_d[c2 as int] == fs_c[c2 as int]);
            assert forall|j: int| 0 <= j < 512 && j != i0 as int
                implies #[trigger] entry_of(fs_d, pagetable as int, j)
                    == entry_of(fs0, pagetable as int, j) by {
                assert(entry_of(fs_a, pagetable as int, j)
                    == entry_of(fs0, pagetable as int, j));
            }
            assert forall|j: int| 0 <= j < 512 && j != i1 as int
                implies #[trigger] entry_of(fs_d, c1 as int, j)
                    == entry_of(fs_a, c1 as int, j) by {
                assert(entry_of(fs_b, c1 as int, j) == entry_of(fs_a, c1 as int, j));
            }
            assert forall|j: int| 0 <= j < 512 && j != i2 as int
                implies #[trigger] entry_of(fs_d, c2 as int, j)
                    == entry_of(fs_b, c2 as int, j) by {
                assert(entry_of(fs_c, c2 as int, j) == entry_of(fs_b, c2 as int, j));
            }
            assert(forall|j: int| 0 <= j < 512 && j != i3 as int
                ==> #[trigger] entry_of(fs_d, t as int, j)
                    == entry_of(fs_c, t as int, j));
            assert(entry_of(fs_d, pagetable as int, i0 as int)
                == entry_of(fs_a, pagetable as int, i0 as int));
            assert(target_of(entry_of(fs_d, pagetable as int, i0 as int)) == c1 as int);
            assert(entry_of(fs_d, c1 as int, i1 as int)
                == entry_of(fs_b, c1 as int, i1 as int));
            assert(target_of(entry_of(fs_d, c1 as int, i1 as int)) == c2 as int);
            assert(entry_of(fs_d, c2 as int, i2 as int)
                == entry_of(fs_c, c2 as int, i2 as int));
            assert(target_of(entry_of(fs_d, c2 as int, i2 as int)) == t as int);
            assert forall|q: int| is_table(fs0, q) && q != pagetable as int
                && q != c1 as int && q != c2 as int && q != t as int
                implies #[trigger] fs_d[q] == fs0[q] by {
                assert(fs_a[q] == fs0[q]);
                assert(is_table(fs_a, q));
                assert(fs_b[q] == fs_a[q]);
                assert(is_table(fs_b, q));
                assert(fs_c[q] == fs_b[q]);
                assert(fs_d[q] == fs_c[q]);
            }
            if inst1 {
                assert(!is_table(fs0, c1 as int));
                assert forall|j: int| 0 <= j < 512 && j != i1 as int
                    implies #[trigger] entry_of(fs_d, c1 as int, j) == 0 by {
                    assert(entry_of(fs_a, c1 as int, j) == 0);
                }
            }
            if inst2 {
                assert(!is_table(fs_a, c2 as int));
                assert(!is_table(fs0, c2 as int));
                assert forall|j: int| 0 <= j < 512 && j != i2 as int
                    implies #[trigger] entry_of(fs_d, c2 as int, j) == 0 by {
                    assert(entry_of(fs_b, c2 as int, j) == 0);
                }
            }
            if inst3 {
                assert(!is_table(fs_b, t as int));
                assert(!is_table(fs0, t as int));
                assert forall|j: int| 0 <= j < 512 && j != i3 as int
                    implies #[trigger] entry_of(fs_d, t as int, j) == 0 by {
                    assert(entry_of(fs_c, t as int, j) == 0);
                }
            }

            // An address on another page that resolved to nothing before
            // resolves with no permission afterwards.
            assert forall|va2: u64| va2 < MEMSIZE_VIRTUAL
                && va2 as int / 4096 != va as int / 4096
                && last_level_spec(fs0, pagetable as int, va2, 0) is None
                implies (lookup_spec(fs_d, pagetable as int, va2)).perm == 0 by {
                if last_level_spec(fs_d, pagetable as int, va2, 0) is Some {
                    let j0 = pt_index(va2, 0);
                    let j1 = pt_index(va2, 1);
                    let j2 = pt_index(va2, 2);
                    let j3 = pt_index(va2, 3);
                    assert(0 <= j0 < 512 && 0 <= j1 < 512 && 0 <= j2 < 512
                        && 0 <= j3 < 512);
                    assert(step_ok(fs_d, pagetable as int, va2, 0, 0));
                    let p1x = step_to(fs_d, pagetable as int, va2, 0);
                    assert(step_ok(fs_d, p1x, va2, 1, 0));
                    let p2x = step_to(fs_d, p1x, va2, 1);
                    assert(step_ok(fs_d, p2x, va2, 2, 0));
                    let t2 = step_to(fs_d, p2x, va2, 2);
                    assert(last_level_spec(fs_d, pagetable as int, va2, 0) == Some(t2));
                    lemma_walk_reaches_tables(fs_d, pagetable as int, va2, 0);
                    if inst1 && j0 == i0 as int {
                        // The walk enters the freshly built chain at once.
                        assert(p1x == c1 as int);
                        if j1 != i1 as int {
                            assert(entry_of(fs_d, c1 as int, j1) == 0);
                            assert(false);
                        }
                        assert(p2x == c2 as int);
                        if j2 != i2 as int {
                            assert(entry_of(fs_d, c2 as int, j2) == 0);
                            assert(false);
                        }
                        assert(t2 == t as int);
                        if j3 == i3 as int {
                            lemma_walk_injective(fs_d, pagetable as int, va64, va2);
                            assert(false);
                        }
                        assert(entry_of(fs_d, t as int, j3) == 0);
                    } else {
                        // The first cell kept its old value.
                        assert(entry_of(fs_d, pagetable as int, j0)
                            == entry_of(fs0, pagetable as int, j0)) by {
                            if j0 == i0 as int {
                                assert(!inst1);
                                assert(fs_a =~= fs0);
                            }
                        }
                        assert(present(entry_of(fs0, pagetable as int, j0)));
                        assert(is_edge(fs0, pagetable as int, j0));
                        assert(frame_wf(fs0, pagetable as int));
                        assert(is_table(fs0, p1x) && level_of(fs0, p1x) == 1);
                        lemma_mask_zero(entry_of(fs0, pagetable as int, j0));
                        assert(step_ok(fs0, pagetable as int, va2, 0, 0));
                        assert(step_to(fs0, pagetable as int, va2, 0) == p1x);
                        if p1x == c1 as int {
                            assert(!inst1);
                            assert(fs_a =~= fs0);
                            if inst2 && j1 == i1 as int {
                                assert(p2x == c2 as int);
                                if j2 != i2 as int {
                                    assert(entry_of(fs_d, c2 as int, j2) == 0);
                                    assert(false);
                                }
                                assert(t2 == t as int);
                                if j3 == i3 as int {
                                    lemma_walk_injective(fs_d, pagetable as int, va64,
                                        va2);
                                    assert(false);
                                }
                                assert(entry_of(fs_d, t as int, j3) == 0);
                            } else {
                                assert(entry_of(fs_d, c1 as int, j1)
                                    == entry_of(fs0, c1 as int, j1)) by {
                                    if j1 == i1 as int {
                                        assert(!inst2);
                                        assert(fs_b =~= fs_a);
                                    } else {
                                        assert(entry_of(fs_d, c1 as int, j1)
                                            == entry_of(fs_a, c1 as int, j1));
                                    }
                                }
                                assert(present(entry_of(fs0, c1 as int, j1)));
                                assert(is_edge(fs0, c1 as int, j1));
                                assert(frame_wf(fs0, c1 as int));
                                assert(is_table(fs0, p2x) && level_of(fs0, p2x) == 2);
                                lemma_mask_zero(entry_of(fs0, c1 as int, j1));
                                assert(step_ok(fs0, c1 as int, va2, 1, 0));
                                assert(step_to(fs0, c1 as int, va2, 1) == p2x);
// From an old level-2 table the walk either takes the one
                                // installed cell into the fresh last-level table, or it
                                // retraces a walk that already succeeded before.
                                if p2x == c2 as int && inst3 && j2 == i2 as int {
                                    assert(t2 == t as int);
                                    if j3 == i3 as int {
                                        lemma_walk_injective(fs_d, pagetable as int,
                                            va64, va2);
                                        assert(false);
                                    }
                                    assert(entry_of(fs_d, t as int, j3) == 0);
                                } else {
                                    assert(entry_of(fs_d, p2x, j2)
                                        == entry_of(fs0, p2x, j2)) by {
                                        if p2x == c2 as int {
                                            assert(!inst2);
                                            assert(fs_a[c2 as int] == fs0[c2 as int]);
                                            assert(fs_b =~= fs_a);
                                            if j2 == i2 as int {
                                                assert(!inst3);
                                                assert(fs_c =~= fs_b);
                                                assert(entry_of(fs_d, c2 as int,
                                                    i2 as int) == entry_of(fs_c,
                                                    c2 as int, i2 as int));
                                            } else {
                                                assert(entry_of(fs_d, c2 as int, j2)
                                                    == entry_of(fs_b, c2 as int, j2));
                                            }
                                        } else {
                                            assert(p2x != pagetable as int);
                                            assert(p2x != c1 as int) by {
                                                if inst1 {
                                                    assert(!is_table(fs0, c1 as int));
                                                } else {
                                                    assert(level_of(fs0, c1 as int)
                                                        == 1);
                                                }
                                            }
                                            assert(p2x != t as int) by {
                                                if inst3 {
                                                    assert(!is_table(fs0, t as int));
                                                } else {
                                                    assert(level_of(fs0, t as int)
                                                        == 3);
                                                }
                                            }
                                            assert(fs_d[p2x] == fs0[p2x]);
                                        }
                                    }
                                    assert(present(entry_of(fs0, p2x, j2)));
                                    lemma_mask_zero(entry_of(fs0, p2x, j2));
                                    assert(step_ok(fs0, p2x, va2, 2, 0));
                                    assert(last_level_spec(fs0, pagetable as int, va2,
                                        0) is Some);
                                    assert(false);
                                }
                            }
                        } else {
                            assert(p1x != c2 as int) by {
                                if inst2 {
                                    assert(!is_table(fs0, c2 as int));
                                } else {
                                    assert(level_of(fs0, c2 as int) == 2);
                                }
                            }
                            assert(p1x != t as int) by {
                                if inst3 {
                                    assert(!is_table(fs0, t as int));
                                } else {
                                    assert(level_of(fs0, t as int) == 3);
                                }
                            }
                            assert(p1x != pagetable as int);
                            assert(fs_d[p1x] == fs0[p1x]);
                            assert(entry_of(fs_d, p1x, j1) == entry_of(fs0, p1x, j1));
                            assert(present(entry_of(fs0, p1x, j1)));
                            assert(is_edge(fs0, p1x, j1));
                            assert(frame_wf(fs0, p1x));
                            assert(is_table(fs0, p2x) && level_of(fs0, p2x) == 2);
                            lemma_mask_zero(entry_of(fs0, p1x, j1));
                            assert(step_ok(fs0, p1x, va2, 1, 0));
                            assert(step_to(fs0, p1x, va2, 1) == p2x);
                            assert(p2x != c2 as int) by {
                                if inst2 {
                                    assert(!is_table(fs0, c2 as int));
                                } else {
                                    assert(is_edge(fs0, c1 as int, i1 as int));
                                    assert(target_of(entry_of(fs0, c1 as int,
                                        i1 as int)) == c2 as int);
                                    if p2x == c2 as int {
                                        assert(p1x == c1 as int && j1 == i1 as int);
                                        assert(false);
                                    }
                                }
                            }
// From an old level-2 table the walk either takes the one
                            // installed cell into the fresh last-level table, or it
                            // retraces a walk that already succeeded before.
                            if p2x == c2 as int && inst3 && j2 == i2 as int {
                                assert(t2 == t as int);
                                if j3 == i3 as int {
                                    lemma_walk_injective(fs_d, pagetable as int,
                                        va64, va2);
                                    assert(false);
                                }
                                assert(entry_of(fs_d, t as int, j3) == 0);
                            } else {
                                assert(entry_of(fs_d, p2x, j2)
                                    == entry_of(fs0, p2x, j2)) by {
                                    if p2x == c2 as int {
                                        assert(!inst2);
                                        assert(fs_a[c2 as int] == fs0[c2 as int]);
                                        assert(fs_b =~= fs_a);
                                        if j2 == i2 as int {
                                            assert(!inst3);
                                            assert(fs_c =~= fs_b);
                                            assert(entry_of(fs_d, c2 as int,
                                                i2 as int) == entry_of(fs_c,
                                                c2 as int, i2 as int));
                                        } else {
                                            assert(entry_of(fs_d, c2 as int, j2)
                                                == entry_of(fs_b, c2 as int, j2));
                                        }
                                    } else {
                                        assert(p2x != pagetable as int);
                                        assert(p2x != c1 as int) by {
                                            if inst1 {
                                                assert(!is_table(fs0, c1 as int));
                                            } else {
                                                assert(level_of(fs0, c1 as int)
                                                    == 1);
                                            }
                                        }
                                        assert(p2x != t as int) by {
                                            if inst3 {
                                                assert(!is_table(fs0, t as int));
                                            } else {
                                                assert(level_of(fs0, t as int)
                                                    == 3);
                                            }
                                        }
                                        assert(fs_d[p2x] == fs0[p2x]);
                                    }
                                }
                                assert(present(entry_of(fs0, p2x, j2)));
                                lemma_mask_zero(entry_of(fs0, p2x, j2));
                                assert(step_ok(fs0, p2x, va2, 2, 0));
                                assert(last_level_spec(fs0, pagetable as int, va2,
                                    0) is Some);
                                assert(false);
                            }
                        }
                    }
                }
            }
            assert forall|p: int, j: int| #[trigger] is_edge(fs_d, p, j)
                && !is_edge(fs0, p, j)
                implies entry_of(fs_d, p, j) & 7 == 7 by {
                assert(p != t as int);
                assert(fs_d[p] == fs_c[p]);
                assert(is_edge(fs_c, p, j));
                assert(entry_of(fs_d, p, j) == entry_of(fs_c, p, j));
                if is_edge(fs_b, p, j) {
                    assert(entry_of(fs_c, p, j) == entry_of(fs_b, p, j));
                    if is_edge(fs_a, p, j) {
                        assert(entry_of(fs_b, p, j) == entry_of(fs_a, p, j));
                        assert(!is_edge(fs0, p, j));
                        assert(entry_of(fs_a, p, j) & 7 == 7);
                    } else {
                        assert(entry_of(fs_b, p, j) & 7 == 7);
                    }
                } else {
                    assert(entry_of(fs_c, p, j) & 7 == 7);
                }
            }
            if last_level_spec(fs0, pagetable as int, va64, 0) is Some {
                assert(present(entry_of(fs0, pagetable as int, i0 as int)));
                assert(fs_a =~= fs0);
                assert(step_to(fs0, pagetable as int, va64, 0) == c1 as int);
                assert(present(entry_of(fs_a, c1 as int, i1 as int)));
                assert(fs_b =~= fs_a);
                assert(step_to(fs0, c1 as int, va64, 1) == c2 as int);
                assert(present(entry_of(fs_b, c2 as int, i2 as int)));
                assert(fs_c =~= fs0);
                assert(*ledger == led0);
                lemma_walk_reaches_tables(fs0, pagetable as int, va64, 0);
                assert(last_level_spec(fs0, pagetable as int, va64, 0) == Some(t as int));
                assert(is_table(fs0, t as int) && level_of(fs0, t as int) == 3);
                assert forall|va2: u64| va2 < MEMSIZE_VIRTUAL
                    && va2 as int / 4096 != va as int / 4096
                    implies lookup_spec(fs_d, pagetable as int, va2)
                        == lookup_spec(fs0, pagetable as int, va2) by {
                    assert(forall|q: int| 0 <= q < fs0.len() && q != t as int
                        ==> fs_d[q] == fs0[q]);
                    lemma_walk_equal_leaf_change(fs0, fs_d, pagetable as int, va2, 0,
                        t as int);
                    if last_level_spec(fs0, pagetable as int, va2, 0) is Some {
                        let t2 = last_level_spec(fs0, pagetable as int, va2, 0)->Some_0;
                        if t2 == t as int {
                            if pt_index(va2, 3) == pt_index(va64, 3) {
                                lemma_walk_injective(fs_d, pagetable as int, va64, va2);
                                assert(false);
                            }
                            assert(entry_of(fs_d, t2, pt_index(va2, 3))
                                == entry_of(fs_c, t2, pt_index(va2, 3)));
                            assert(entry_of(fs_c, t2, pt_index(va2, 3))
                                == entry_of(fs0, t2, pt_index(va2, 3)));
                        } else {
                            assert(fs_d[t2] == fs0[t2]);
                            assert(entry_of(fs_d, t2, pt_index(va2, 3))
                                == entry_of(fs0, t2, pt_index(va2, 3)));
                        }
                    }
                }
            }
        }
        0
    }
}


/// Dividing an aligned address plus `j` pages by the page size gives the
/// base page number plus `j`.
pub proof fn lemma_aligned_page_number(va: int, j: int)
    requires
        va % 4096 == 0,
        0 <= va,
        0 <= j,
    ensures
        (va + j * 4096) / 4096 == va / 4096 + j,
        (va + j * 4096) % 4096 == 0,
{
    lemma_fundamental_div_mod(va, 4096);
    lemma_fundamental_div_mod_converse(va + j * 4096, 4096, va / 4096 + j, 0);
}

impl KernelPageTables {
    /// Map the virtual range `[va, va + sz)` to the physical range
    /// `[pa, pa + sz)` with permission bits `perm` in the address space
    /// rooted at `pagetable`. All three must be page-aligned and in
    /// bounds. Missing intermediate tables are allocated from the ledger
    /// and owned by the kernel; each lazily installed entry carries
    /// Present, Writable and User-accessible, so descendants stay
    /// reachable. Succeeds whenever every needed table already exists;
    /// fails with -1 only when an allocation found no free page, and then
    /// the pages mapped before the failure stay in place. Virtual pages
    /// outside the range keep their resolution either way; one that
    /// resolved to nothing gains no permission, though a fresh
    /// intermediate table can make its walk end at an empty entry instead
    /// of stopping early.
    pub fn virtual_memory_map(&mut self, ledger: &mut PhysicalPageInfoTable, pagetable: usize,
        va: usize, pa: usize, sz: usize, perm: i32) -> (r: i32)
        requires
            arena_wf(old(self).frames@),
            old(ledger).wf(),
            root_ok(old(self).frames@, pagetable as int),
            va % 4096 == 0,
            pa % 4096 == 0,
            sz % 4096 == 0,
            va + sz <= MEMSIZE_VIRTUAL,
            pa + sz <= MEMSIZE_PHYSICAL,
            0 <= perm < 4096,
        ensures
            arena_wf(final(self).frames@),
            final(ledger).wf(),
            frames_extend(old(self).frames@, final(self).frames@),
            root_ok(final(self).frames@, pagetable as int),
            final(self).kernel_root == old(self).kernel_root,
            final(self).handler_va == old(self).handler_va,
            final(ledger).pageinfo@.len() == old(ledger).pageinfo@.len(),
            forall|q: int| 0 <= q < NPAGES ==> final(ledger).pageinfo@[q]
                == old(ledger).pageinfo@[q]
                || (old(ledger).pageinfo@[q].refcount == 0 && final(ledger).pageinfo@[q]
                    == (PhysicalPageInfo { owner: -2i8, refcount: 1i8 })),
            r == 0 || r == -1,
            r == 0 ==> forall|k: int| 0 <= k < sz as int / 4096
                ==> #[trigger] maps_to(final(self).frames@, pagetable as int,
                    (va + k * 4096) as u64, (pa + k * 4096) as u64, perm as u64),
            forall|va2: u64| va2 < MEMSIZE_VIRTUAL
                && !(va as int / 4096 <= va2 as int / 4096 < va as int / 4096 + sz as int / 4096)
                && last_level_spec(old(self).frames@, pagetable as int, va2, 0) is Some
                ==> lookup_spec(final(self).frames@, pagetable as int, va2)
                    == lookup_spec(old(self).frames@, pagetable as int, va2),
            forall|va2: u64| last_level_spec(old(self).frames@, pagetable as int, va2, 0)
                is Some ==> last_level_spec(final(self).frames@, pagetable as int, va2, 0)
                    == last_level_spec(old(self).frames@, pagetable as int, va2, 0),
            (forall|k: int| 0 <= k < sz as int / 4096 ==> #[trigger] last_level_spec(
                old(self).frames@, pagetable as int, (va + k * 4096) as u64, 0) is Some)
                ==> r == 0 && *final(ledger) == *old(ledger),
            // When every path already existed — as under the kernel's
            // identity map — nothing outside the range changes at all,
            // resolved or not.
            (forall|k: int| 0 <= k < sz as int / 4096 ==> #[trigger] last_level_spec(
                old(self).frames@, pagetable as int, (va + k * 4096) as u64, 0) is Some)
                ==> forall|va2: u64| va2 < MEMSIZE_VIRTUAL
                    && !(va as int / 4096 <= va2 as int / 4096
                        < va as int / 4096 + sz as int / 4096)
                    ==> lookup_spec(final(self).frames@, pagetable as int, va2)
                        == lookup_spec(old(self).frames@, pagetable as int, va2),
            // No readable mapping appears outside the range: an address
            // there that resolved to nothing before resolves, at most,
            // through fresh all-zero tables, with no permission bits.
            forall|va2: u64| va2 < MEMSIZE_VIRTUAL
                && !(va as int / 4096 <= va2 as int / 4096
                    < va as int / 4096 + sz as int / 4096)
                && last_level_spec(old(self).frames@, pagetable as int, va2, 0) is None
                ==> (#[trigger] lookup_spec(final(self).frames@, pagetable as int,
                    va2)).perm == 0,
            // Failure happens only when an intermediate table was needed
            // and no page was left to hold one.
            r == -1 ==> forall|q: int| 0 <= q < NPAGES
                ==> final(ledger).pageinfo@[q].refcount != 0
                    || is_table(final(self).frames@, q),
            // Any entry this call makes present carries Present, Writable
            // and User-accessible: lazily created tables stay reachable.
            forall|p: int, j: int| #[trigger] is_edge(final(self).frames@, p, j)
                && !is_edge(old(self).frames@, p, j)
                ==> entry_of(final(self).frames@, p, j) & 7 == 7,
    {
        let npages: usize = sz / 4096;
        proof {
            lemma_fundamental_div_mod(sz as int, 4096);
            assert(sz as int == npages as int * 4096);
        }
        let mut k: usize = 0;
        while k < npages
            invariant
                arena_wf(self.frames@),
                ledger.wf(),
                root_ok(self.frames@, pagetable as int),
                va % 4096 == 0,
                pa % 4096 == 0,
                va + sz <= MEMSIZE_VIRTUAL,
                pa + sz <= MEMSIZE_PHYSICAL,
                0 <= perm < 4096,
                sz as int == npages as int * 4096,
                k <= npages,
                arena_wf(old(self).frames@),
                root_ok(old(self).frames@, pagetable as int),
                frames_extend(old(self).frames@, self.frames@),
                self.kernel_root == old(self).kernel_root,
                self.handler_va == old(self).handler_va,
                ledger.pageinfo@.len() == old(ledger).pageinfo@.len(),
                forall|q: int| 0 <= q < NPAGES ==> ledger.pageinfo@[q]
                    == old(ledger).pageinfo@[q]
                    || (old(ledger).pageinfo@[q].refcount == 0 && ledger.pageinfo@[q]
                        == (PhysicalPageInfo { owner: -2i8, refcount: 1i8 })),
                forall|j: int| 0 <= j < k ==> #[trigger] maps_to(self.frames@,
                    pagetable as int, (va + j * 4096) as u64, (pa + j * 4096) as u64,
                    perm as u64),
                forall|va2: u64| va2 < MEMSIZE_VIRTUAL
                    && !(va as int / 4096 <= va2 as int / 4096 < va as int / 4096 + k)
                    && last_level_spec(old(self).frames@, pagetable as int, va2, 0) is Some
                    ==> lookup_spec(self.frames@, pagetable as int, va2)
                        == lookup_spec(old(self).frames@, pagetable as int, va2),
                forall|va2: u64| last_level_spec(old(self).frames@, pagetable as int, va2, 0)
                    is Some ==> last_level_spec(self.frames@, pagetable as int, va2, 0)
                        == last_level_spec(old(self).frames@, pagetable as int, va2, 0),
                (forall|j: int| 0 <= j < sz as int / 4096 ==> #[trigger] last_level_spec(
                    old(self).frames@, pagetable as int, (va + j * 4096) as u64, 0) is Some)
                    ==> *ledger == *old(ledger),
                forall|p: int, j: int| #[trigger] is_edge(self.frames@, p, j)
                    && !is_edge(old(self).frames@, p, j)
                    ==> entry_of(self.frames@, p, j) & 7 == 7,
                (forall|j: int| 0 <= j < sz as int / 4096 ==> #[trigger] last_level_spec(
                    old(self).frames@, pagetable as int, (va + j * 4096) as u64, 0)
                    is Some) ==> forall|va2: u64| va2 < MEMSIZE_VIRTUAL
                        && !(va as int / 4096 <= va2 as int / 4096
                            < va as int / 4096 + k)
                        ==> lookup_spec(self.frames@, pagetable as int, va2)
                            == lookup_spec(old(self).frames@, pagetable as int, va2),
                forall|va2: u64| va2 < MEMSIZE_VIRTUAL
                    && !(va as int / 4096 <= va2 as int / 4096
                        < va as int / 4096 + sz as int / 4096)
                    && last_level_spec(old(self).frames@, pagetable as int, va2, 0)
                        is None
                    ==> (#[trigger] lookup_spec(self.frames@, pagetable as int,
                        va2)).perm == 0,
            decreases npages - k,
        {
            let ghost fs_prev = self.frames@;
            let ghost led_prev = ledger.pageinfo@;
            let va_k: usize = va + k * 4096;
            let pa_k: usize = pa + k * 4096;
            proof {
                lemma_aligned_page_number(va as int, k as int);
                lemma_aligned_page_number(pa as int, k as int);
                assert((k + 1) * 4096 <= npages as int * 4096);
            }
            let r1: i32 = self.map_page(ledger, pagetable, va_k, pa_k, perm);
            if r1 < 0 {
                proof {
                    // If every path had been present at the start, this
                    // page's walk would have survived and the step could
                    // not have failed.
                    if forall|j: int| 0 <= j < sz as int / 4096
                        ==> #[trigger] last_level_spec(old(self).frames@, pagetable as int,
                            (va + j * 4096) as u64, 0) is Some {
                        assert(last_level_spec(old(self).frames@, pagetable as int,
                            va_k as u64, 0) is Some);
                        assert(last_level_spec(fs_prev, pagetable as int, va_k as u64, 0)
                            is Some);
                        assert(false);
                    }
                    lemma_extend_trans(old(self).frames@, fs_prev, self.frames@);
                    assert forall|va2: u64| va2 < MEMSIZE_VIRTUAL
                        && !(va as int / 4096 <= va2 as int / 4096
                            < va as int / 4096 + sz as int / 4096)
                        && last_level_spec(old(self).frames@, pagetable as int, va2, 0)
                            is Some
                        implies lookup_spec(self.frames@, pagetable as int, va2)
                            == lookup_spec(old(self).frames@, pagetable as int, va2) by {
                        assert(k as int <= sz as int / 4096);
                        assert(lookup_spec(fs_prev, pagetable as int, va2)
                            == lookup_spec(old(self).frames@, pagetable as int, va2));
                        assert(last_level_spec(fs_prev, pagetable as int, va2, 0) is Some);
                    }
                    assert forall|va2: u64| last_level_spec(old(self).frames@,
                        pagetable as int, va2, 0) is Some
                        implies last_level_spec(self.frames@, pagetable as int, va2, 0)
                            == last_level_spec(old(self).frames@, pagetable as int, va2, 0)
                        by {
                        assert(last_level_spec(fs_prev, pagetable as int, va2, 0)
                            == last_level_spec(old(self).frames@, pagetable as int, va2, 0));
                    }
                    assert forall|va2: u64| va2 < MEMSIZE_VIRTUAL
                        && !(va as int / 4096 <= va2 as int / 4096
                            < va as int / 4096 + sz as int / 4096)
                        && last_level_spec(old(self).frames@, pagetable as int, va2, 0)
                            is None
                        implies (lookup_spec(self.frames@, pagetable as int,
                            va2)).perm == 0 by {
                        lemma_aligned_page_number(va as int, k as int);
                        assert(va2 as int / 4096 != va_k as int / 4096);
                        if last_level_spec(fs_prev, pagetable as int, va2, 0) is Some {
                            assert(lookup_spec(self.frames@, pagetable as int, va2)
                                == lookup_spec(fs_prev, pagetable as int, va2));
                            assert(lookup_spec(fs_prev, pagetable as int, va2).perm
                                == 0);
                        }
                    }
                }
                return -1;
            }
            proof {
                lemma_extend_trans(old(self).frames@, fs_prev, self.frames@);
                // Pages mapped earlier keep their mapping: they lie on
                // other virtual pages, and their walks were present.
                assert forall|j: int| 0 <= j < k + 1 implies #[trigger] maps_to(self.frames@,
                    pagetable as int, (va + j * 4096) as u64, (pa + j * 4096) as u64,
                    perm as u64) by {
                    lemma_aligned_page_number(va as int, j);
                    lemma_aligned_page_number(pa as int, j);
                    lemma_aligned_page_number(va as int, k as int);
                    if j < k {
                        let vaj = (va + j * 4096) as u64;
                        assert(maps_to(fs_prev, pagetable as int, vaj,
                            (pa + j * 4096) as u64, perm as u64));
                        assert(0 <= (pa + j * 4096) as int / 4096 < 512);
                        if last_level_spec(fs_prev, pagetable as int, vaj, 0) is None {
                            assert(lookup_spec(fs_prev, pagetable as int, vaj)
                                == (VAMapping { pn: -1i32, pa: 0usize, perm: 0i32 }));
                            assert(false);
                        }
                        assert(vaj as int / 4096 != va_k as int / 4096);
                        assert(lookup_spec(self.frames@, pagetable as int, vaj)
                            == lookup_spec(fs_prev, pagetable as int, vaj));
                    }
                }
                assert forall|va2: u64| va2 < MEMSIZE_VIRTUAL
                    && !(va as int / 4096 <= va2 as int / 4096 < va as int / 4096 + k + 1)
                    && last_level_spec(old(self).frames@, pagetable as int, va2, 0) is Some
                    implies lookup_spec(self.frames@, pagetable as int, va2)
                        == lookup_spec(old(self).frames@, pagetable as int, va2) by {
                    assert(lookup_spec(fs_prev, pagetable as int, va2)
                        == lookup_spec(old(self).frames@, pagetable as int, va2));
                    assert(last_level_spec(fs_prev, pagetable as int, va2, 0) is Some);
                    lemma_aligned_page_number(va as int, k as int);
                    assert(va2 as int / 4096 != va_k as int / 4096);
                }
                assert forall|va2: u64| last_level_spec(old(self).frames@, pagetable as int,
                    va2, 0) is Some implies last_level_spec(self.frames@, pagetable as int,
                        va2, 0) == last_level_spec(old(self).frames@, pagetable as int, va2,
                        0) by {
                    assert(last_level_spec(fs_prev, pagetable as int, va2, 0)
                        == last_level_spec(old(self).frames@, pagetable as int, va2, 0));
                }
                if forall|j: int| 0 <= j < sz as int / 4096 ==> #[trigger] last_level_spec(
                    old(self).frames@, pagetable as int, (va + j * 4096) as u64, 0) is Some {
                    assert(last_level_spec(old(self).frames@, pagetable as int,
                        (va + k as int * 4096) as u64, 0) is Some);
                    assert(last_level_spec(fs_prev, pagetable as int, va_k as u64, 0)
                        is Some);
                }
                assert forall|p: int, j: int| #[trigger] is_edge(self.frames@, p, j)
                    && !is_edge(old(self).frames@, p, j)
                    implies entry_of(self.frames@, p, j) & 7 == 7 by {
                    if is_edge(fs_prev, p, j) {
                        assert(entry_of(self.frames@, p, j) == entry_of(fs_prev, p, j));
                    }
                }
                assert forall|va2: u64| va2 < MEMSIZE_VIRTUAL
                    && !(va as int / 4096 <= va2 as int / 4096
                        < va as int / 4096 + sz as int / 4096)
                    && last_level_spec(old(self).frames@, pagetable as int, va2, 0)
                        is None
                    implies (lookup_spec(self.frames@, pagetable as int, va2)).perm
                        == 0 by {
                    lemma_aligned_page_number(va as int, k as int);
                    assert(va2 as int / 4096 != va_k as int / 4096);
                    if last_level_spec(fs_prev, pagetable as int, va2, 0) is Some {
                        assert(lookup_spec(self.frames@, pagetable as int, va2)
                            == lookup_spec(fs_prev, pagetable as int, va2));
                        assert(lookup_spec(fs_prev, pagetable as int, va2).perm == 0);
                    }
                }
                if forall|j: int| 0 <= j < sz as int / 4096 ==> #[trigger] last_level_spec(
                    old(self).frames@, pagetable as int, (va + j * 4096) as u64, 0)
                    is Some {
                    assert(last_level_spec(old(self).frames@, pagetable as int,
                        (va + k as int * 4096) as u64, 0) is Some);
                    assert(last_level_spec(fs_prev, pagetable as int, va_k as u64, 0)
                        is Some);
                    assert forall|va2: u64| va2 < MEMSIZE_VIRTUAL
                        && !(va as int / 4096 <= va2 as int / 4096
                            < va as int / 4096 + k + 1)
                        implies lookup_spec(self.frames@, pagetable as int, va2)
                            == lookup_spec(old(self).frames@, pagetable as int, va2) by {
                        lemma_aligned_page_number(va as int, k as int);
                        assert(va2 as int / 4096 != va_k as int / 4096);
                        assert(lookup_spec(fs_prev, pagetable as int, va2)
                            == lookup_spec(old(self).frames@, pagetable as int, va2));
                    }
                }
            }
            k = k + 1;
        }
        0
    }
}


/// Page number of the kernel's root page table; the four tables below it
/// occupy the next four frames. All five sit inside the kernel image.
pub const KERNEL_PAGETABLE_PN: usize = 64;

/// Two addresses on the same virtual page walk identically: every level's
/// index is a function of the virtual page number alone.
pub proof fn lemma_same_page_walk(
    fs: Seq<Option<TableFrame>>,
    root: int,
    va1: u64,
    va2: u64,
    mask: u64,
)
    requires
        va1 as int / 4096 == va2 as int / 4096,
    ensures
        pt_index(va1, 0) == pt_index(va2, 0),
        pt_index(va1, 1) == pt_index(va2, 1),
        pt_index(va1, 2) == pt_index(va2, 2),
        pt_index(va1, 3) == pt_index(va2, 3),
        last_level_spec(fs, root, va1, mask) == last_level_spec(fs, root, va2, mask),
{
    vstd::arithmetic::div_mod::lemma_div_denominator(va1 as int, 4096, 0x8000000);
    vstd::arithmetic::div_mod::lemma_div_denominator(va2 as int, 4096, 0x8000000);
    vstd::arithmetic::div_mod::lemma_div_denominator(va1 as int, 4096, 0x40000);
    vstd::arithmetic::div_mod::lemma_div_denominator(va2 as int, 4096, 0x40000);
    vstd::arithmetic::div_mod::lemma_div_denominator(va1 as int, 4096, 512);
    vstd::arithmetic::div_mod::lemma_div_denominator(va2 as int, 4096, 512);
    assert(pt_index(va1, 0) == pt_index(va2, 0));
    assert(pt_index(va1, 1) == pt_index(va2, 1));
    assert(pt_index(va1, 2) == pt_index(va2, 2));
    assert(pt_index(va1, 3) == pt_index(va2, 3));
    if step_ok(fs, root, va1, 0, mask) {
        assert(step_to(fs, root, va1, 0) == step_to(fs, root, va2, 0));
        let p1 = step_to(fs, root, va1, 0);
        if step_ok(fs, p1, va1, 1, mask) {
            assert(step_to(fs, p1, va1, 1) == step_to(fs, p1, va2, 1));
        }
    }
}

impl KernelPageTables {
    /// The address space rooted at `pagetable` may become active: it is a
    /// root table, the trap-entry code resolves to its own address inside
    /// it, it is itself mapped at its own address inside the kernel's
    /// address space, and the kernel's root is mapped at its own address
    /// inside it.
    pub open spec fn activation_ok(self, pagetable: int) -> bool {
        &&& root_ok(self.frames@, pagetable)
        &&& lookup_spec(self.frames@, pagetable, self.handler_va as u64).pa
            == self.handler_va
        &&& lookup_spec(self.frames@, self.kernel_root as int,
            (pagetable * 4096) as u64).pa == pagetable * 4096
        &&& lookup_spec(self.frames@, pagetable,
            (self.kernel_root as int * 4096) as u64).pa == self.kernel_root as int * 4096
    }

    /// Validate the address space rooted at `pagetable` before it may be
    /// installed as the live one. Any violation is fatal to the caller:
    /// activating such a table would make the next trap unrecoverable.
    /// Succeeds exactly when `activation_ok` holds; the shell performs the
    /// actual hardware install on success.
    pub fn set_pagetable(&self, pagetable: usize) -> (r: Result<(), HaltReason>)
        requires
            self.wf(),
        ensures
            r is Ok <==> self.activation_ok(pagetable as int),
            r == Err::<(), HaltReason>(HaltReason::PagetableInvalid)
                <==> !root_ok(self.frames@, pagetable as int),
            root_ok(self.frames@, pagetable as int) ==> {
                &&& r == Err::<(), HaltReason>(HaltReason::HandlerNotMapped)
                    <==> lookup_spec(self.frames@, pagetable as int,
                        self.handler_va as u64).pa != self.handler_va
            },
    {
        if !self.is_table_exec(pagetable) {
            return Err(HaltReason::PagetableInvalid);
        }
        if self.read_level(pagetable) != 0 {
            return Err(HaltReason::PagetableInvalid);
        }
        let m1 = self.virtual_memory_lookup(pagetable, self.handler_va);
        if m1.pa != self.handler_va {
            return Err(HaltReason::HandlerNotMapped);
        }
        let pt_addr: usize = pagetable * 4096;
        let m2 = self.virtual_memory_lookup(self.kernel_root, pt_addr);
        if m2.pa != pt_addr {
            return Err(HaltReason::PagetableNotMapped);
        }
        let kr_addr: usize = self.kernel_root * 4096;
        let m3 = self.virtual_memory_lookup(pagetable, kr_addr);
        if m3.pa != kr_addr {
            return Err(HaltReason::KernelNotMapped);
        }
        Ok(())
    }
}


impl KernelPageTables {
    /// Build the kernel's address space: five statically placed tables —
    /// a root and one table per lower level, two at the last level — wired
    /// together, then an identity mapping of all physical memory with
    /// Present, Writable and User-accessible permissions. Verifies the
    /// identity mapping and validates the new root before reporting it
    /// ready; both checks provably pass.
    #[verifier::rlimit(50)]
    pub fn virtual_memory_init(&mut self, ledger: &mut PhysicalPageInfoTable,
        handler_va: usize) -> (r: Result<(), HaltReason>)
        requires
            old(self).frames@.len() == NPAGES,
            forall|pn: int| 0 <= pn < NPAGES ==> old(self).frames@[pn] is None,
            old(ledger).wf(),
            handler_va < MEMSIZE_PHYSICAL,
        ensures
            r is Ok,
            final(self).wf(),
            final(self).kernel_root == KERNEL_PAGETABLE_PN,
            final(self).handler_va == handler_va,
            final(ledger).wf(),
            final(ledger).pageinfo@.len() == old(ledger).pageinfo@.len(),
            forall|va2: u64| va2 < MEMSIZE_PHYSICAL
                ==> (#[trigger] lookup_spec(final(self).frames@, KERNEL_PAGETABLE_PN as int,
                    va2)).pa == va2
                    && lookup_spec(final(self).frames@, KERNEL_PAGETABLE_PN as int, va2).perm
                        == 7,
            kernel_identity_mapped(*final(self)),
            *final(ledger) == *old(ledger),
            final(self).activation_ok(KERNEL_PAGETABLE_PN as int),
    {
        let p0: usize = KERNEL_PAGETABLE_PN;
        let p1: usize = KERNEL_PAGETABLE_PN + 1;
        let p2: usize = KERNEL_PAGETABLE_PN + 2;
        let p3: usize = KERNEL_PAGETABLE_PN + 3;
        let p4: usize = KERNEL_PAGETABLE_PN + 4;
        self.frames[p0] = Some(TableFrame { level: 0, table: x86_64_pagetable::new() });
        self.frames[p1] = Some(TableFrame { level: 1, table: x86_64_pagetable::new() });
        self.frames[p2] = Some(TableFrame { level: 2, table: x86_64_pagetable::new() });
        self.frames[p3] = Some(TableFrame { level: 3, table: x86_64_pagetable::new() });
        self.frames[p4] = Some(TableFrame { level: 3, table: x86_64_pagetable::new() });
        self.write_entry(p0, 0, (p1 as u64) * 4096 + 7);
        self.write_entry(p1, 0, (p2 as u64) * 4096 + 7);
        self.write_entry(p2, 0, (p3 as u64) * 4096 + 7);
        self.write_entry(p2, 1, (p4 as u64) * 4096 + 7);
        self.kernel_root = p0;
        self.handler_va = handler_va;

        let ghost fs = self.frames@;
        proof {
            assert(is_table(fs, p0 as int) && level_of(fs, p0 as int) == 0);
            assert(is_table(fs, p1 as int) && level_of(fs, p1 as int) == 1);
            assert(is_table(fs, p2 as int) && level_of(fs, p2 as int) == 2);
            assert(is_table(fs, p3 as int) && level_of(fs, p3 as int) == 3);
            assert(is_table(fs, p4 as int) && level_of(fs, p4 as int) == 3);
            assert(forall|q: int| 0 <= q < NPAGES && q != p0 && q != p1 && q != p2
                && q != p3 && q != p4 ==> fs[q] is None);
            assert(entry_of(fs, p0 as int, 0) == (p1 as int) * 4096 + 7);
            assert(forall|j: int| 1 <= j < 512 ==> #[trigger] entry_of(fs, p0 as int, j) == 0);
            assert(entry_of(fs, p1 as int, 0) == (p2 as int) * 4096 + 7);
            assert(forall|j: int| 1 <= j < 512 ==> #[trigger] entry_of(fs, p1 as int, j) == 0);
            assert(entry_of(fs, p2 as int, 0) == (p3 as int) * 4096 + 7);
            assert(entry_of(fs, p2 as int, 1) == (p4 as int) * 4096 + 7);
            assert(forall|j: int| 2 <= j < 512 ==> #[trigger] entry_of(fs, p2 as int, j) == 0);
            assert(forall|j: int| 0 <= j < 512 ==> #[trigger] entry_of(fs, p3 as int, j) == 0);
            assert(forall|j: int| 0 <= j < 512 ==> #[trigger] entry_of(fs, p4 as int, j) == 0);
            assert(!present(0u64));
            lemma_entry_compose(p1 as int, 7);
            lemma_entry_compose_present(p1 as int);
            lemma_entry_compose(p2 as int, 7);
            lemma_entry_compose_present(p2 as int);
            lemma_entry_compose(p3 as int, 7);
            lemma_entry_compose_present(p3 as int);
            lemma_entry_compose(p4 as int, 7);
            lemma_entry_compose_present(p4 as int);
            assert(target_of(entry_of(fs, p0 as int, 0)) == p1 as int);
            assert(target_of(entry_of(fs, p1 as int, 0)) == p2 as int);
            assert(target_of(entry_of(fs, p2 as int, 0)) == p3 as int);
            assert(target_of(entry_of(fs, p2 as int, 1)) == p4 as int);

            assert forall|q: int| #[trigger] is_table(fs, q) implies frame_wf(fs, q) by {
                assert(q == p0 as int || q == p1 as int || q == p2 as int || q == p3 as int
                    || q == p4 as int);
                assert(fs[q]->Some_0.table.entry@.len() == 512);
                assert forall|i: int| 0 <= i < 512 implies #[trigger] entry_of(fs, q, i)
                    < MEMSIZE_PHYSICAL by {
                    if q == p0 as int && i == 0 {
                    } else if q == p1 as int && i == 0 {
                    } else if q == p2 as int && (i == 0 || i == 1) {
                    } else {
                        assert(entry_of(fs, q, i) == 0);
                    }
                }
                if level_of(fs, q) < 3 {
                    assert forall|i: int| 0 <= i < 512
                        && present(#[trigger] entry_of(fs, q, i)) implies {
                        &&& is_table(fs, target_of(entry_of(fs, q, i)))
                        &&& level_of(fs, target_of(entry_of(fs, q, i))) == level_of(fs, q) + 1
                    } by {
                        if q == p0 as int {
                            if i != 0 {
                                assert(entry_of(fs, q, i) == 0);
                                assert(false);
                            }
                        } else if q == p1 as int {
                            if i != 0 {
                                assert(entry_of(fs, q, i) == 0);
                                assert(false);
                            }
                        } else {
                            assert(q == p2 as int);
                            if i != 0 && i != 1 {
                                assert(entry_of(fs, q, i) == 0);
                                assert(false);
                            }
                        }
                    }
                }
            }
            assert forall|q1: int, i1: int, q2: int, i2: int|
                #[trigger] is_edge(fs, q1, i1) && #[trigger] is_edge(fs, q2, i2)
                && target_of(entry_of(fs, q1, i1)) == target_of(entry_of(fs, q2, i2))
                implies q1 == q2 && i1 == i2 by {
                assert(q1 == p0 as int || q1 == p1 as int || q1 == p2 as int);
                assert(q2 == p0 as int || q2 == p1 as int || q2 == p2 as int);
                if q1 == p0 as int && i1 != 0 {
                    assert(entry_of(fs, q1, i1) == 0);
                    assert(false);
                }
                if q1 == p1 as int && i1 != 0 {
                    assert(entry_of(fs, q1, i1) == 0);
                    assert(false);
                }
                if q1 == p2 as int && i1 != 0 && i1 != 1 {
                    assert(entry_of(fs, q1, i1) == 0);
                    assert(false);
                }
                if q2 == p0 as int && i2 != 0 {
                    assert(entry_of(fs, q2, i2) == 0);
                    assert(false);
                }
                if q2 == p1 as int && i2 != 0 {
                    assert(entry_of(fs, q2, i2) == 0);
                    assert(false);
                }
                if q2 == p2 as int && i2 != 0 && i2 != 1 {
                    assert(entry_of(fs, q2, i2) == 0);
                    assert(false);
                }
            }
            assert(arena_wf(fs));
            assert(root_ok(fs, KERNEL_PAGETABLE_PN as int));

            // Every physical page's walk path is already present.
            assert forall|k: int| 0 <= k < MEMSIZE_PHYSICAL as int / 4096
                implies #[trigger] last_level_spec(fs, KERNEL_PAGETABLE_PN as int,
                    (0 + k * 4096) as u64, 0) is Some by {
                let va2 = (0 + k * 4096) as u64;
                assert(va2 == k * 4096);
                lemma_low_va_indices(va2);
                assert(pt_index(va2, 2) == va2 as int / 0x200000);
                assert(va2 as int / 0x200000 == 0);
                lemma_mask_zero(entry_of(fs, p0 as int, 0));
                lemma_mask_zero(entry_of(fs, p1 as int, 0));
                lemma_mask_zero(entry_of(fs, p2 as int, 0));
                assert(step_ok(fs, p0 as int, va2, 0, 0));
                assert(step_to(fs, p0 as int, va2, 0) == p1 as int);
                assert(step_ok(fs, p1 as int, va2, 1, 0));
                assert(step_to(fs, p1 as int, va2, 1) == p2 as int);
                assert(step_ok(fs, p2 as int, va2, 2, 0));
            }
        }

        let r1: i32 = self.virtual_memory_map(ledger, p0, 0, 0, MEMSIZE_PHYSICAL as usize, 7);
        let ghost fs2 = self.frames@;
        proof {
            assert(r1 == 0);
            assert forall|va2: u64| va2 < MEMSIZE_PHYSICAL
                implies (#[trigger] lookup_spec(fs2, KERNEL_PAGETABLE_PN as int, va2)).pa
                    == va2 && lookup_spec(fs2, KERNEL_PAGETABLE_PN as int, va2).perm == 7 by {
                let k = va2 as int / 4096;
                assert(0 <= k < MEMSIZE_PHYSICAL as int / 4096);
                assert(maps_to(fs2, KERNEL_PAGETABLE_PN as int, (0 + k * 4096) as u64,
                    (0 + k * 4096) as u64, 7i32 as u64));
                let va_al = (0 + k * 4096) as u64;
                lemma_aligned_page_number(0, k);
                assert(va_al as int / 4096 == k);
                lemma_same_page_walk(fs2, KERNEL_PAGETABLE_PN as int, va2, va_al, 0);
                assert(lookup_spec(fs2, KERNEL_PAGETABLE_PN as int, va_al).pa == k * 4096);
                assert(lookup_spec(fs2, KERNEL_PAGETABLE_PN as int, va_al).perm == 7);
                if last_level_spec(fs2, KERNEL_PAGETABLE_PN as int, va_al, 0) is None {
                    assert(lookup_spec(fs2, KERNEL_PAGETABLE_PN as int, va_al).pn == -1);
                    assert(false);
                }
                let t = last_level_spec(fs2, KERNEL_PAGETABLE_PN as int, va_al, 0)->Some_0;
                let e = entry_of(fs2, t, pt_index(va_al, 3));
                assert((e as int / 4096) * 4096 + (va_al as int % 4096) == k * 4096);
                assert(va_al as int % 4096 == 0);
                assert(e as int % 4096 == 7);
                lemma_fundamental_div_mod(va2 as int, 4096);
                assert(va2 as int == 4096 * k + va2 as int % 4096);
                assert(lookup_spec(fs2, KERNEL_PAGETABLE_PN as int, va2).pa
                    == (e as int / 4096) * 4096 + va2 as int % 4096);
            }
        }

        let mut addr: usize = 0;
        while addr < MEMSIZE_PHYSICAL as usize
            invariant
                addr % 4096 == 0,
                addr <= MEMSIZE_PHYSICAL,
                arena_wf(self.frames@),
                root_ok(self.frames@, KERNEL_PAGETABLE_PN as int),
                self.frames@ == fs2,
                forall|va2: u64| va2 < MEMSIZE_PHYSICAL
                    ==> (#[trigger] lookup_spec(fs2, KERNEL_PAGETABLE_PN as int, va2)).pa
                        == va2
                        && lookup_spec(fs2, KERNEL_PAGETABLE_PN as int, va2).perm == 7,
            decreases MEMSIZE_PHYSICAL as usize - addr,
        {
            let vmap: VAMapping = self.virtual_memory_lookup(KERNEL_PAGETABLE_PN, addr);
            proof {
                assert(vmap.pa == addr && vmap.perm == 7);
                assert(7i32 & 3i32 == 3i32) by (bit_vector);
            }
            if vmap.pa != addr {
                return Err(HaltReason::IdentityMappingFailed);
            }
            if vmap.perm & 3 != 3 {
                return Err(HaltReason::IdentityMappingFailed);
            }
            addr = addr + 4096;
        }

        proof {
            assert(self.wf());
            assert(lookup_spec(fs2, KERNEL_PAGETABLE_PN as int,
                self.handler_va as u64).pa == self.handler_va);
            assert(lookup_spec(fs2, KERNEL_PAGETABLE_PN as int,
                (KERNEL_PAGETABLE_PN as int * 4096) as u64).pa
                == KERNEL_PAGETABLE_PN as int * 4096);
            assert(self.activation_ok(KERNEL_PAGETABLE_PN as int));
        }
        match self.set_pagetable(p0) {
            Err(e) => Err(e),
            Ok(()) => Ok(()),
        }
    }
}


/// The kernel's address space identity-maps all physical memory with
/// Present, Writable and User-accessible permissions: every physical
/// address resolves to itself.
pub open spec fn kernel_identity_mapped(vm: KernelPageTables) -> bool {
    forall|va2: u64| va2 < MEMSIZE_PHYSICAL
        ==> (#[trigger] lookup_spec(vm.frames@, vm.kernel_root as int, va2)).pa == va2
            && lookup_spec(vm.frames@, vm.kernel_root as int, va2).perm == 7
}

/// Identity-mapping a range with permission 7 keeps the kernel's identity
/// map intact: pages inside the range are re-mapped to themselves, pages
/// outside keep their resolution.
pub proof fn lemma_identity_after_identity_map(
    fs_old: Seq<Option<TableFrame>>,
    fs_new: Seq<Option<TableFrame>>,
    root: int,
    va: int,
    sz: int,
)
    requires
        va % 4096 == 0,
        sz % 4096 == 0,
        0 <= va,
        0 <= sz,
        va + sz <= MEMSIZE_PHYSICAL,
        arena_wf(fs_new),
        root_ok(fs_new, root),
        forall|va2: u64| va2 < MEMSIZE_PHYSICAL
            ==> (#[trigger] lookup_spec(fs_old, root, va2)).pa == va2
                && lookup_spec(fs_old, root, va2).perm == 7,
        forall|k: int| 0 <= k < sz / 4096 ==> #[trigger] maps_to(fs_new, root,
            (va + k * 4096) as u64, (va + k * 4096) as u64, 7u64),
        forall|va2: u64| va2 < MEMSIZE_VIRTUAL
            && !(va / 4096 <= va2 as int / 4096 < va / 4096 + sz / 4096)
            && last_level_spec(fs_old, root, va2, 0) is Some
            ==> lookup_spec(fs_new, root, va2) == lookup_spec(fs_old, root, va2),
    ensures
        forall|va2: u64| va2 < MEMSIZE_PHYSICAL
            ==> (#[trigger] lookup_spec(fs_new, root, va2)).pa == va2
                && lookup_spec(fs_new, root, va2).perm == 7,
{
    assert forall|va2: u64| va2 < MEMSIZE_PHYSICAL
        implies (#[trigger] lookup_spec(fs_new, root, va2)).pa == va2
            && lookup_spec(fs_new, root, va2).perm == 7 by {
        let page = va2 as int / 4096;
        if va / 4096 <= page < va / 4096 + sz / 4096 {
            let k = page - va / 4096;
            assert(maps_to(fs_new, root, (va + k * 4096) as u64, (va + k * 4096) as u64,
                7u64));
            let va_al = (va + k * 4096) as u64;
            lemma_aligned_page_number(va, k);
            lemma_fundamental_div_mod(va2 as int, 4096);
            assert(va_al as int == page * 4096);
            assert(va_al as int / 4096 == page) by {
                lemma_fundamental_div_mod_converse(page * 4096, 4096, page, 0);
            }
            lemma_same_page_walk(fs_new, root, va2, va_al, 0);
            assert(lookup_spec(fs_new, root, va_al).pa == va_al as int
                + va_al as int % 4096);
            if last_level_spec(fs_new, root, va_al, 0) is None {
                assert(lookup_spec(fs_new, root, va_al).perm == 0);
                assert(false);
            }
            let t = last_level_spec(fs_new, root, va_al, 0)->Some_0;
            let e = entry_of(fs_new, t, pt_index(va_al, 3));
            lemma_walk_reaches_tables(fs_new, root, va_al, 0);
            assert(frame_wf(fs_new, t));
            assert(0 <= pt_index(va_al, 3) < 512);
            assert(e < MEMSIZE_PHYSICAL);
            assert(va_al as int % 4096 == 0) by {
                lemma_fundamental_div_mod_converse(page * 4096, 4096, page, 0);
            }
            assert((e as int / 4096) * 4096 == va_al as int);
            assert(e as int % 4096 == 7);
            assert(lookup_spec(fs_new, root, va2).pa
                == (e as int / 4096) * 4096 + va2 as int % 4096);
            assert(va2 as int == 4096 * page + va2 as int % 4096);
        } else {
            assert(lookup_spec(fs_old, root, va2).pa == va2);
            if last_level_spec(fs_old, root, va2, 0) is None {
                assert(lookup_spec(fs_old, root, va2).perm == 0);
                assert(false);
            }
            assert(lookup_spec(fs_new, root, va2) == lookup_spec(fs_old, root, va2));
        }
    }
}


/// The last-level walk is absent exactly when some traversed non-leaf
/// entry is not Present or lacks a bit of the requested permission mask:
/// the root's entry fails, or it succeeds and the next level's entry
/// fails, or both succeed and the third fails.
pub proof fn lemma_last_level_absent(fs: Seq<Option<TableFrame>>, root: int, va: u64,
    mask: u64)
    ensures
        last_level_spec(fs, root, va, mask) is None <==> {
            ||| !step_ok(fs, root, va, 0, mask)
            ||| {
                &&& step_ok(fs, root, va, 0, mask)
                &&& !step_ok(fs, step_to(fs, root, va, 0), va, 1, mask)
            }
            ||| {
                &&& step_ok(fs, root, va, 0, mask)
                &&& step_ok(fs, step_to(fs, root, va, 0), va, 1, mask)
                &&& !step_ok(fs, step_to(fs, step_to(fs, root, va, 0), va, 1), va, 2, mask)
            }
        },
{
}


/// Two arenas that differ only in the entries of one last-level table
/// walk identically: a walk reads tables at the three upper depths only.
pub proof fn lemma_walk_equal_leaf_change(
    fs1: Seq<Option<TableFrame>>,
    fs2: Seq<Option<TableFrame>>,
    root: int,
    va: u64,
    mask: u64,
    t: int,
)
    requires
        arena_wf(fs1),
        root_ok(fs1, root),
        is_table(fs1, t),
        level_of(fs1, t) == 3,
        fs2.len() == fs1.len(),
        forall|q: int| 0 <= q < fs1.len() && q != t ==> fs2[q] == fs1[q],
        is_table(fs2, t),
        level_of(fs2, t) == level_of(fs1, t),
    ensures
        last_level_spec(fs2, root, va, mask) == last_level_spec(fs1, root, va, mask),
{
    assert(root != t);
    assert(fs2[root] == fs1[root]);
    let i0 = pt_index(va, 0);
    assert(entry_of(fs2, root, i0) == entry_of(fs1, root, i0));
    assert(step_ok(fs2, root, va, 0, mask) == step_ok(fs1, root, va, 0, mask));
    if step_ok(fs1, root, va, 0, mask) {
        assert(frame_wf(fs1, root));
        assert(0 <= i0 < 512);
        let p1 = step_to(fs1, root, va, 0);
        assert(step_to(fs2, root, va, 0) == p1);
        assert(is_table(fs1, p1) && level_of(fs1, p1) == 1);
        assert(p1 != t);
        assert(fs2[p1] == fs1[p1]);
        let i1 = pt_index(va, 1);
        assert(entry_of(fs2, p1, i1) == entry_of(fs1, p1, i1));
        assert(step_ok(fs2, p1, va, 1, mask) == step_ok(fs1, p1, va, 1, mask));
        if step_ok(fs1, p1, va, 1, mask) {
            assert(frame_wf(fs1, p1));
            assert(0 <= i1 < 512);
            let p2 = step_to(fs1, p1, va, 1);
            assert(step_to(fs2, p1, va, 1) == p2);
            assert(is_table(fs1, p2) && level_of(fs1, p2) == 2);
            assert(p2 != t);
            assert(fs2[p2] == fs1[p2]);
            let i2 = pt_index(va, 2);
            assert(entry_of(fs2, p2, i2) == entry_of(fs1, p2, i2));
            assert(step_ok(fs2, p2, va, 2, mask) == step_ok(fs1, p2, va, 2, mask));
            if step_ok(fs1, p2, va, 2, mask) {
                assert(step_to(fs2, p2, va, 2) == step_to(fs1, p2, va, 2));
            }
        }
    }
}

} // verus!
