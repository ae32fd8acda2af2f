//! The physical page ledger: one record per physical page holding its owner
//! and reference count. This is the allocation authority for all physical
//! memory. The ledger invariant — a page's reference count is zero exactly
//! when its owner is free — holds at every observation point.

use vstd::prelude::*;
use crate::x86_64::{KERNEL_START_ADDR, KERNEL_STACK_TOP, NPAGES, PAGESIZE};

verus! {

/// Owner classifications for a physical page. A process owner is recorded
/// directly as its positive pid; these three name the non-process owners.
#[derive(Clone, Copy, Debug, PartialEq, Eq, Structural)]
pub enum PageOwner {
    /// The page is free.
    PoFree,
    /// The page is reserved memory (such as the console).
    PoReserved,
    /// The page is used by the kernel.
    PoKernel,
}

impl PageOwner {
    /// The ledger encoding of this owner: free pages are 0, reserved -1,
    /// kernel -2; process pages hold the pid, a positive number.
    pub fn as_i8(self) -> (v: i8)
        ensures
            v == self.spec_as_i8(),
    {
        match self {
            PageOwner::PoFree => 0,
            PageOwner::PoReserved => -1,
            PageOwner::PoKernel => -2,
        }
    }

    /// The ledger encoding of this owner.
    pub open spec fn spec_as_i8(self) -> i8 {
        match self {
            PageOwner::PoFree => 0i8,
            PageOwner::PoReserved => -1i8,
            PageOwner::PoKernel => -2i8,
        }
    }
}

/// Per-page bookkeeping: who owns the page and how many times it is
/// referenced. A reference count of 0 means the page is free.
#[derive(Clone, Copy, Debug, PartialEq, Eq, Structural)]
pub struct PhysicalPageInfo {
    /// 0 free, -1 reserved, -2 kernel, a positive pid otherwise.
    pub owner: i8,
    /// Number of current references; never negative.
    pub refcount: i8,
}

/// The ledger itself: `pageinfo[pn]` describes physical page number `pn`.
pub struct PhysicalPageInfoTable {
    pub pageinfo: Vec<PhysicalPageInfo>,
}

impl PhysicalPageInfoTable {
    /// The ledger invariant: one record per physical page, reference counts
    /// never negative, and a count of zero exactly when the owner is free.
    pub open spec fn wf(self) -> bool {
        &&& self.pageinfo@.len() == NPAGES
        &&& forall|pn: int| 0 <= pn < NPAGES ==> {
            &&& self.pageinfo@[pn].refcount >= 0
            &&& (self.pageinfo@[pn].refcount == 0 <==> self.pageinfo@[pn].owner == 0)
        }
    }

    /// A ledger with every page free.
    pub fn new() -> (t: Self)
        ensures
            t.wf(),
            forall|pn: int| 0 <= pn < NPAGES ==> t.pageinfo@[pn]
                == (PhysicalPageInfo { owner: 0i8, refcount: 0i8 }),
    {
        let mut pageinfo: Vec<PhysicalPageInfo> = Vec::new();
        let mut i: usize = 0;
        while i < NPAGES as usize
            invariant
                i <= NPAGES,
                pageinfo@.len() == i,
                forall|pn: int| 0 <= pn < i ==> #[trigger] pageinfo@[pn]
                    == (PhysicalPageInfo { owner: 0i8, refcount: 0i8 }),
            decreases NPAGES - i,
        {
            pageinfo.push(PhysicalPageInfo { owner: 0, refcount: 0 });
            i = i + 1;
        }
        PhysicalPageInfoTable { pageinfo }
    }

    /// What `pageinfo_init` records for one page: reserved pages belong to
    /// the hardware, pages of the kernel image `[KERNEL_START_ADDR, end)`
    /// and the kernel stack page belong to the kernel, and the rest are
    /// free. Owned pages start with one reference.
    pub open spec fn boot_class(reserved: bool, addr: u64, end_addr: u64) -> PhysicalPageInfo {
        if reserved {
            PhysicalPageInfo { owner: -1i8, refcount: 1i8 }
        } else if (crate::x86_64::KERNEL_START_ADDR <= addr && addr < end_addr)
            || addr == crate::x86_64::KERNEL_STACK_TOP - crate::x86_64::PAGESIZE {
            PhysicalPageInfo { owner: -2i8, refcount: 1i8 }
        } else {
            PhysicalPageInfo { owner: 0i8, refcount: 0i8 }
        }
    }

    /// Classify every physical page at boot: `reserved[pn]` says whether the
    /// hardware reserves page `pn`, and `end_addr` is the end of the kernel
    /// image. This is the sole bulk-initialization path and runs once before
    /// any process exists.
    pub fn pageinfo_init(&mut self, reserved: &Vec<bool>, end_addr: usize)
        requires
            old(self).pageinfo@.len() == NPAGES,
            reserved@.len() == NPAGES,
        ensures
            final(self).wf(),
            forall|pn: int| 0 <= pn < NPAGES ==> final(self).pageinfo@[pn]
                == Self::boot_class(reserved@[pn], (pn * 4096) as u64, end_addr as u64),
    {
        let mut pn: usize = 0;
        while pn < NPAGES as usize
            invariant
                pn <= NPAGES,
                self.pageinfo@.len() == NPAGES,
                reserved@.len() == NPAGES,
                forall|j: int| 0 <= j < pn ==> self.pageinfo@[j]
                    == Self::boot_class(reserved@[j], (j * 4096) as u64, end_addr as u64),
            decreases NPAGES as usize - pn,
        {
            let addr: usize = pn * 4096;
            let rec = if reserved[pn] {
                PhysicalPageInfo { owner: -1, refcount: 1 }
            } else if (addr >= KERNEL_START_ADDR as usize && addr < end_addr)
                || addr == (KERNEL_STACK_TOP - PAGESIZE) as usize {
                PhysicalPageInfo { owner: -2, refcount: 1 }
            } else {
                PhysicalPageInfo { owner: 0, refcount: 0 }
            };
            self.pageinfo[pn] = rec;
            pn = pn + 1;
        }
    }

    /// The record for page `pn`, or `None` when `pn` is out of range.
    pub fn get_page_info_ref(&self, pn: usize) -> (r: Option<PhysicalPageInfo>)
        ensures
            r is Some <==> pn < self.pageinfo@.len(),
            r is Some ==> r->Some_0 == self.pageinfo@[pn as int],
    {
        if pn < self.pageinfo.len() {
            Some(self.pageinfo[pn])
        } else {
            None
        }
    }

    /// Add one reference to page `pn`, as when another process attaches to
    /// an already-owned page.
    pub fn incr_refcount(&mut self, pn: usize)
        requires
            old(self).wf(),
            pn < NPAGES,
            0 < old(self).pageinfo@[pn as int].refcount < 127,
        ensures
            final(self).wf(),
            final(self).pageinfo@ == old(self).pageinfo@.update(pn as int,
                PhysicalPageInfo {
                    owner: old(self).pageinfo@[pn as int].owner,
                    refcount: (old(self).pageinfo@[pn as int].refcount + 1) as i8,
                }),
    {
        let rec = self.pageinfo[pn];
        self.pageinfo[pn] = PhysicalPageInfo { owner: rec.owner, refcount: rec.refcount + 1 };
    }


    /// Allocate the page with physical address `addr` to `owner`, a pid.
    /// Fails — returning -1 and changing nothing — when `addr` is not
    /// page-aligned, its page number is out of range, or the page is
    /// already owned (reference count not zero). On success the page gets
    /// the owner and one reference; allocation is atomic at the
    /// granularity of one page.
    pub fn assign_physical_page(&mut self, addr: usize, owner: usize) -> (r: i32)
        requires
            old(self).wf(),
            1 <= owner < crate::x86_64::NPROC,
        ensures
            final(self).wf(),
            r == 0 || r == -1,
            r == 0 <==> addr % 4096 == 0 && addr / 4096 < NPAGES
                && old(self).pageinfo@[addr as int / 4096].refcount == 0,
            r == -1 ==> *final(self) == *old(self),
            r == 0 ==> final(self).pageinfo@ == old(self).pageinfo@.update(addr as int / 4096,
                PhysicalPageInfo { owner: owner as i8, refcount: 1i8 }),
    {
        let pn: usize = addr / 4096;
        if addr % 4096 != 0 || pn >= self.pageinfo.len() || self.pageinfo[pn].refcount != 0 {
            return -1;
        }
        self.pageinfo[pn] = PhysicalPageInfo { owner: owner as i8, refcount: 1 };
        0
    }

    /// Record page `pn` as a kernel-owned page-table frame. Used by the
    /// page-table manager when it lazily allocates an intermediate table:
    /// by policy such frames are owned by the kernel.
    pub fn assign_kernel_page(&mut self, pn: usize)
        requires
            old(self).wf(),
            pn < NPAGES,
            old(self).pageinfo@[pn as int].refcount == 0,
        ensures
            final(self).wf(),
            final(self).pageinfo@ == old(self).pageinfo@.update(pn as int,
                PhysicalPageInfo { owner: -2i8, refcount: 1i8 }),
    {
        self.pageinfo[pn] = PhysicalPageInfo { owner: -2, refcount: 1 };
    }
}

} // verus!
