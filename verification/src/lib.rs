//! The core of a small multitasking kernel for 64-bit RISC-V, as a library of
//! verified state transitions: the page-frame allocator, the interrupt-guarded
//! spinlock, the page table, the process pool with its scheduler and its
//! sleep/wakeup handoff, and the legacy VirtIO block driver.
//!
//! Whatever touches the machine itself (registers, the context switch, the
//! console) is left to the caller: every function here maps a state and plain
//! values to a next state and plain values.
//!
//! The modules say what one hart does to the state that the harts share.
//! `machine` puts the harts together, and shows what holds of the whole
//! between any two steps.

pub mod symbols;
pub mod mem;
pub mod spinlock;
pub mod page;
pub mod process;
pub mod virtio;
pub mod machine;
