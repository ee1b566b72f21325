//! Layout constants that the whole kernel agrees on.
//!
//! Frame counts and heap addresses are `usize`; virtual addresses and register
//! values are `u64`, the width of the machine they describe.

use vstd::prelude::*;

verus! {

/// log2 of the page size.
pub const PAGE_ORDER: usize = 12;

/// Size of a page frame in bytes.
pub const PAGE_SIZE: usize = 4096;

/// Number of slots in the process pool.
pub const NMAXPROCS: usize = 256;

/// One past the highest virtual address that a page table maps.
pub const MAXVA: u64 = 0x40_0000_0000;

/// Virtual address of the trampoline page, the last page below `MAXVA`.
pub const TRAMPOLINE_START: u64 = 0x3f_ffff_f000;

/// Virtual address of the per-process trap frame, the page below the trampoline.
pub const TRAPFRAME_START: u64 = 0x3f_ffff_e000;

/// Addresses that the boot code and the linker fix.
pub struct Symbols {
    /// Physical address of the trampoline's code.
    pub trampoline_text_start: u64,
    /// Address of the function that a new process's first switch returns to.
    pub forkret: u64,
}

} // verus!
