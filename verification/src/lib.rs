//! A minimal preemptible teaching kernel for a single-core 64-bit machine:
//! a physical-page ownership ledger, a four-level page-table manager, and a
//! round-robin process scheduler with a trap dispatcher, all with verified
//! contracts. Hardware work (register restore, console, timers) is left to a
//! thin unverified shell that acts on the decision values this library
//! returns.

pub mod control;
pub mod kernel;
pub mod kloader;
pub mod ph_page_info;
pub mod process;
pub mod vm;
pub mod x86_64;

use vstd::prelude::*;

verus! {

/// The page with physical address `addr` has page number `addr / 4096`.
pub fn page_number(addr: usize) -> (pn: usize)
    ensures
        pn == addr / 4096,
{
    addr / 4096
}

} // verus!
