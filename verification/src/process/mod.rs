//! Processes, the per-hart state, the process pool and its scheduler.

pub mod cpu;
pub mod trapframe;
pub mod pool;
pub mod process;
pub mod handoff;
