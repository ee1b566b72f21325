//! Register save areas: the trap frame for crossings between user and kernel
//! mode, and the context of callee-saved registers for switches between a
//! process and its hart's scheduler.

use vstd::prelude::*;

verus! {

/// The integer registers, by their ABI names.
#[allow(non_camel_case_types)]
#[derive(Clone, Copy, Debug)]
pub enum Register {
    zero,
    ra,
    sp,
    gp,
    tp,
    t0,
    t1,
    t2,
    s0,
    s1,
    a0,
    a1,
    a2,
    a3,
    a4,
    a5,
    a6,
    a7,
    s2,
    s3,
    s4,
    s5,
    s6,
    s7,
    s8,
    s9,
    s10,
    s11,
    t3,
    t4,
    t5,
    t6,
}

impl Register {
    /// The register's number.
    pub open spec fn number(self) -> int {
        match self {
            Register::zero => 0,
            Register::ra => 1,
            Register::sp => 2,
            Register::gp => 3,
            Register::tp => 4,
            Register::t0 => 5,
            Register::t1 => 6,
            Register::t2 => 7,
            Register::s0 => 8,
            Register::s1 => 9,
            Register::a0 => 10,
            Register::a1 => 11,
            Register::a2 => 12,
            Register::a3 => 13,
            Register::a4 => 14,
            Register::a5 => 15,
            Register::a6 => 16,
            Register::a7 => 17,
            Register::s2 => 18,
            Register::s3 => 19,
            Register::s4 => 20,
            Register::s5 => 21,
            Register::s6 => 22,
            Register::s7 => 23,
            Register::s8 => 24,
            Register::s9 => 25,
            Register::s10 => 26,
            Register::s11 => 27,
            Register::t3 => 28,
            Register::t4 => 29,
            Register::t5 => 30,
            Register::t6 => 31,
        }
    }

    /// The register's number, as an index into a save area.
    pub fn index(self) -> (i: usize)
        ensures
            i == self.number(),
            i < 32,
    {
        match self {
            Register::zero => 0,
            Register::ra => 1,
            Register::sp => 2,
            Register::gp => 3,
            Register::tp => 4,
            Register::t0 => 5,
            Register::t1 => 6,
            Register::t2 => 7,
            Register::s0 => 8,
            Register::s1 => 9,
            Register::a0 => 10,
            Register::a1 => 11,
            Register::a2 => 12,
            Register::a3 => 13,
            Register::a4 => 14,
            Register::a5 => 15,
            Register::a6 => 16,
            Register::a7 => 17,
            Register::s2 => 18,
            Register::s3 => 19,
            Register::s4 => 20,
            Register::s5 => 21,
            Register::s6 => 22,
            Register::s7 => 23,
            Register::s8 => 24,
            Register::s9 => 25,
            Register::s10 => 26,
            Register::s11 => 27,
            Register::t3 => 28,
            Register::t4 => 29,
            Register::t5 => 30,
            Register::t6 => 31,
        }
    }
}

/// Slot of the return address in a `Context`.
pub const CONTEXT_RA: usize = 0;

/// Slot of the stack pointer in a `Context`.
pub const CONTEXT_SP: usize = 1;

/// Where the user's registers rest while the kernel runs.
#[derive(Clone, Copy, Debug)]
pub struct TrapFrame {
    /// The 32 integer registers.
    pub regs: [u64; 32],
    /// The kernel's page table register.
    pub satp: u64,
    /// Top of the process's kernel stack.
    pub kernel_sp: u64,
    /// Address of the kernel's trap handler.
    pub kernel_trap: u64,
    /// The user's program counter.
    pub epc: u64,
    /// The hart that the process last ran on.
    pub hartid: u64,
}

impl TrapFrame {
    /// The trap frame with every register zero.
    pub open spec fn zeroed() -> TrapFrame {
        TrapFrame {
            regs: vstd::array::spec_array_fill_for_copy_type(0u64),
            satp: 0,
            kernel_sp: 0,
            kernel_trap: 0,
            epc: 0,
            hartid: 0,
        }
    }

    /// A trap frame with every register zero.
    pub fn zero() -> (tf: Self)
        ensures
            tf == TrapFrame::zeroed(),
            forall|i: int| 0 <= i < 32 ==> tf.regs@[i] == 0,
    {
        TrapFrame { regs: [0u64; 32], satp: 0, kernel_sp: 0, kernel_trap: 0, epc: 0, hartid: 0 }
    }
}

/// The callee-saved registers that a context switch saves and restores:
/// `ra`, `sp`, and `s0` to `s11`.
#[derive(Clone, Copy, Debug)]
pub struct Context {
    pub regs: [u64; 14],
}

impl Context {
    /// The context with every register zero.
    pub open spec fn zeroed() -> Context {
        Context { regs: vstd::array::spec_array_fill_for_copy_type(0u64) }
    }

    /// A context with every register zero.
    pub fn zero() -> (c: Self)
        ensures
            c == Context::zeroed(),
            forall|i: int| 0 <= i < 14 ==> c.regs@[i] == 0,
    {
        Context { regs: [0u64; 14] }
    }
}

} // verus!
