//! Per-hart state: the hart's number and its interrupt guard.

use vstd::prelude::*;
use crate::process::process::Process;

verus! {

/// Number of harts that the kernel runs on.
pub const NCPUS: usize = 8;

/// The interrupt guard of one hart: whether external interrupts are enabled,
/// how many critical sections are open, and whether interrupts were enabled
/// when the outermost of them was entered.
pub struct IntrLock {
    pub enabled: bool,
    pub depth: usize,
    pub was_enabled: bool,
}

impl IntrLock {
    /// Inside a critical section interrupts are off; outside of one nothing
    /// is remembered.
    pub open spec fn wf(&self) -> bool {
        &&& self.depth > 0 ==> !self.enabled
        &&& self.depth == 0 ==> !self.was_enabled
    }

    /// The guard after one more critical section is entered.
    pub open spec fn pushed(self) -> IntrLock {
        IntrLock {
            enabled: false,
            depth: (self.depth + 1) as usize,
            was_enabled: if self.depth == 0 {
                self.enabled
            } else {
                self.was_enabled
            },
        }
    }

    /// The guard after the innermost critical section is left.
    pub open spec fn popped(self) -> IntrLock {
        IntrLock {
            enabled: self.depth == 1 && self.was_enabled,
            depth: (self.depth - 1) as usize,
            was_enabled: self.depth != 1 && self.was_enabled,
        }
    }

    /// The guard of a hart that runs with interrupts as given and has no
    /// critical section open.
    pub fn new(enabled: bool) -> (r: Self)
        ensures
            r == (IntrLock { enabled, depth: 0, was_enabled: false }),
            r.wf(),
    {
        IntrLock { enabled, depth: 0, was_enabled: false }
    }

    /// Enters a critical section: interrupts go off, and the outermost entry
    /// remembers whether they were on.
    pub fn lock(&mut self)
        requires
            old(self).depth < usize::MAX,
            old(self).wf(),
        ensures
            final(self).popped() == *old(self),
            *final(self) == old(self).pushed(),
            final(self).wf(),
    {
        if self.depth == 0 {
            self.was_enabled = self.enabled;
        }
        self.enabled = false;
        self.depth = self.depth + 1;
    }

    /// Leaves the innermost critical section: when it was the outermost,
    /// interrupts return to what they were before it.
    pub fn unlock(&mut self)
        requires
            old(self).depth > 0,
            old(self).wf(),
        ensures
            *final(self) == old(self).popped(),
            final(self).wf(),
    {
        self.depth = self.depth - 1;
        if self.depth == 0 {
            self.enabled = self.was_enabled;
            self.was_enabled = false;
        }
    }

    /// Switches external interrupts on. Not to be done inside a critical section.
    pub fn intr_on(&mut self)
        requires
            old(self).depth == 0,
        ensures
            *final(self) == (IntrLock { enabled: true, ..*old(self) }),
            old(self).wf() ==> final(self).wf(),
    {
        self.enabled = true;
    }

    /// Switches external interrupts off.
    pub fn intr_off(&mut self)
        ensures
            *final(self) == (IntrLock { enabled: false, ..*old(self) }),
            old(self).wf() ==> final(self).wf(),
    {
        self.enabled = false;
    }
}

/// What one hart knows of itself.
pub struct Cpu {
    /// The hart's number.
    pub id: usize,
    /// The hart's interrupt guard.
    pub intr_lock: IntrLock,
    /// The process that the hart runs, taken out of the pool; `None` while
    /// the hart is in its scheduler with nothing to run.
    pub process: Option<Box<Process>>,
}

impl Cpu {
    /// The hart's number is one of the kernel's, and its guard is sound.
    pub open spec fn wf(&self) -> bool {
        &&& self.id < NCPUS
        &&& self.intr_lock.wf()
        &&& self.process is Some ==> self.process->0.wf()
    }

    /// A hart in its scheduler, with interrupts off and nothing to run.
    pub fn new(id: usize) -> (cpu: Self)
        requires
            id < NCPUS,
        ensures
            cpu.id == id,
            cpu.intr_lock == (IntrLock { enabled: false, depth: 0, was_enabled: false }),
            cpu.process is None,
            cpu.wf(),
    {
        Cpu { id, intr_lock: IntrLock::new(false), process: None }
    }
}

} // verus!
