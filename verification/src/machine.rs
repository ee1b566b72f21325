//! The whole machine: the state that the harts share together with each
//! hart's own, and what holds of it between any two steps.
//!
//! The steps of the other modules say what one hart does to the shared
//! state. Here each of them is done by a hart of the machine, and is shown
//! to keep what makes the machine sound: every process has one place (a slot
//! of the pool or a hart) and a kernel stack of its own in the heap; the
//! guard of the sleep lock is with the process that its holder puts to
//! sleep; and a hart that holds a lock of the kernel runs uninterrupted.

use vstd::prelude::*;
use crate::mem::first_fit;
use crate::mem::has_fit;
use crate::mem::stamp;
use crate::mem::lemma_allocate_avoids_live_run;
use crate::mem::lemma_deallocate_keeps_other_runs;
use crate::process::pool::resume_result;
use crate::process::pool::scheduler_result;
use crate::process::process::fork_result;
use crate::process::process::init_proc_result;
use crate::process::process::sleep_done_result;
use crate::process::process::sleep_result;
use crate::process::process::KSTACK_PAGES;
use crate::symbols::PAGE_SIZE;
use crate::virtio::VirtIO;
use crate::process::cpu::Cpu;
use crate::process::cpu::NCPUS;
use crate::process::pool::stack_is_live;
use crate::process::pool::Kernel;
use crate::process::pool::ProcInPool;
use crate::process::process::Process;
use crate::process::process::ProcessState;
use crate::process::process::Segment;
use crate::spinlock::Mutex;
use crate::spinlock::MutexGuard;
use crate::spinlock::WeakMutexGuard;
use crate::symbols::MAXVA;
use crate::symbols::Symbols;
use crate::symbols::NMAXPROCS;

verus! {

/// The kernel's whole state.
pub struct Machine {
    /// What all harts share.
    pub kernel: Kernel,
    /// Each hart's own, by the hart's number.
    pub cpus: Vec<Cpu>,
}

/// Number of places at which a process can be: the slots of the pool, and
/// behind them the harts.
pub open spec fn places() -> int {
    NMAXPROCS + NCPUS
}

impl Machine {
    /// The process at place `at`, if one is there.
    pub open spec fn process_at(&self, at: int) -> Option<Process> {
        if 0 <= at < NMAXPROCS {
            match self.kernel.pool.data@[at] {
                ProcInPool::Pooling(p) => Some(*p),
                _ => None,
            }
        } else if NMAXPROCS <= at < places() {
            match self.cpus@[at - NMAXPROCS].process {
                Some(p) => Some(*p),
                None => None,
            }
        } else {
            None
        }
    }

    /// The frame at which the kernel stack of a process starts.
    pub open spec fn stack_frame(&self, p: Process) -> int {
        self.kernel.alloc.data.frame_of(p.kstack as int)
    }

    /// Hart `h` is sound in itself, and the process that it runs, if any,
    /// has its slot marked as being out. If the process carries a guard, it
    /// is that of the sleep lock, which the hart holds.
    pub open spec fn hart_ok(&self, h: int) -> bool {
        let cpu = self.cpus@[h];
        &&& cpu.wf()
        &&& cpu.id == h
        &&& self.kernel.runs(&cpu)
        &&& cpu.process is Some && cpu.process->0.drop_on_put_back is Some ==> {
            &&& self.kernel.pool_sleep.guarded_by(cpu.process->0.drop_on_put_back->0)
            &&& cpu.process->0.drop_on_put_back->0.hart == h
        }
        &&& self.kernel.pool_sleep.held_by(h) ==> {
            &&& cpu.intr_lock.depth >= 1
            &&& cpu.process is Some
            &&& cpu.process->0.drop_on_put_back is Some
        }
    }

    /// What holds of the machine between any two steps.
    pub open spec fn inv(&self) -> bool {
        &&& self.kernel.wf()
        &&& self.cpus@.len() == NCPUS
        &&& forall|h: int| 0 <= h < NCPUS ==> #[trigger] self.hart_ok(h)
        // each process has a kernel stack that is a live run of the heap
        &&& forall|at: int|
            0 <= at < places() && (#[trigger] self.process_at(at)) is Some ==> stack_is_live(
                self.kernel.alloc.data,
                self.process_at(at)->0.kstack,
            )
        // no two processes share a pid or a kernel stack
        &&& forall|a: int, b: int|
            0 <= a < places() && 0 <= b < places() && a != b && (#[trigger] self.process_at(a))
                is Some && (#[trigger] self.process_at(b)) is Some ==> {
                &&& self.process_at(a)->0.pid != self.process_at(b)->0.pid
                &&& self.stack_frame(self.process_at(a)->0) != self.stack_frame(
                    self.process_at(b)->0,
                )
            }
    }

    /// While a hart holds a lock of the kernel, external interrupts are off
    /// on it. (Between two steps that lock can only be the sleep lock.)
    pub proof fn lemma_holder_runs_uninterrupted(&self, h: int)
        requires
            self.inv(),
            0 <= h < NCPUS,
            self.kernel.alloc.held_by(h) || self.kernel.pool.held_by(h)
                || self.kernel.pool_sleep.held_by(h),
        ensures
            !self.cpus@[h].intr_lock.enabled,
    {
        assert(self.hart_ok(h));
    }

    /// The machine at boot: no process, all locks free, every hart in its
    /// scheduler with interrupts off.
    pub fn new(symbols: Symbols) -> (m: Self)
        ensures
            m.inv(),
            m.kernel.symbols == symbols,
            !m.kernel.pool_sleep.is_locked(),
            forall|i: int| 0 <= i < NMAXPROCS ==> m.kernel.pool.data@[i] is NoProc,
            forall|h: int|
                0 <= h < NCPUS ==> (#[trigger] m.cpus@[h]).process is None
                    && m.cpus@[h].intr_lock.depth == 0 && !m.cpus@[h].intr_lock.enabled,
            m.kernel.alloc.data.base_addr == 0,
            m.kernel.alloc.data.page_allocated@.len() == crate::mem::MAX_PAGE,
            forall|j: int|
                0 <= j < crate::mem::MAX_PAGE ==> m.kernel.alloc.data.page_allocated@[j] == 0,
    {
        let kernel = Kernel::new(symbols);
        let mut cpus: Vec<Cpu> = Vec::new();
        let mut h: usize = 0;
        while h < NCPUS
            invariant
                h <= NCPUS,
                cpus@.len() == h,
                forall|i: int|
                    0 <= i < h ==> (#[trigger] cpus@[i]).wf() && cpus@[i].id == i
                        && cpus@[i].process is None && cpus@[i].intr_lock.depth == 0
                        && !cpus@[i].intr_lock.enabled,
            decreases NCPUS - h,
        {
            cpus.push(Cpu::new(h));
            h += 1;
        }
        let m = Machine { kernel, cpus };
        proof {
            assert forall|h: int| 0 <= h < NCPUS implies #[trigger] m.hart_ok(h) by {
                assert(m.cpus@[h].wf());
            }
            assert forall|at: int| 0 <= at < places() implies (#[trigger] m.process_at(at))
                is None by {
                if at >= NMAXPROCS {
                    assert(m.cpus@[at - NMAXPROCS].process is None);
                }
            }
        }
        m
    }
}

/// What two processes have in common that are the same one before and
/// after a step: the pid and the kernel stack.
pub open spec fn same_tenant(before: Option<Process>, after: Option<Process>) -> bool {
    match (before, after) {
        (Some(p), Some(q)) => p.pid == q.pid && p.kstack == q.kstack,
        (None, None) => true,
        _ => false,
    }
}

/// A step that leaves each process at its place, and the heap as it is,
/// keeps the machine sound if it keeps each hart sound.
proof fn lemma_places_kept(before: Machine, after: Machine)
    requires
        before.inv(),
        after.kernel.wf(),
        after.cpus@.len() == NCPUS,
        forall|h: int| 0 <= h < NCPUS ==> #[trigger] after.hart_ok(h),
        after.kernel.alloc.data.base_addr == before.kernel.alloc.data.base_addr,
        after.kernel.alloc.data.page_allocated@ == before.kernel.alloc.data.page_allocated@,
        forall|at: int|
            0 <= at < places() ==> same_tenant(
                #[trigger] before.process_at(at),
                after.process_at(at),
            ),
    ensures
        after.inv(),
{
    assert forall|at: int|
        0 <= at < places() && (#[trigger] after.process_at(at)) is Some implies stack_is_live(
        after.kernel.alloc.data,
        after.process_at(at)->0.kstack,
    ) by {
        assert(same_tenant(before.process_at(at), after.process_at(at)));
    }
    assert forall|a: int, b: int|
        0 <= a < places() && 0 <= b < places() && a != b && (#[trigger] after.process_at(a))
            is Some && (#[trigger] after.process_at(b)) is Some implies {
        &&& after.process_at(a)->0.pid != after.process_at(b)->0.pid
        &&& after.stack_frame(after.process_at(a)->0) != after.stack_frame(after.process_at(b)->0)
    } by {
        assert(same_tenant(before.process_at(a), after.process_at(a)));
        assert(same_tenant(before.process_at(b), after.process_at(b)));
    }
}

impl Machine {
    /// The process on hart `hart` gives up the hart: `yield_cpu` on that hart.
    pub fn yield_cpu(&mut self, hart: usize)
        requires
            old(self).inv(),
            hart < NCPUS,
            old(self).cpus@[hart as int].process is Some,
        ensures
            final(self).inv(),
            final(self).kernel == old(self).kernel,
            final(self).cpus@ == old(self).cpus@.update(
                hart as int,
                Cpu {
                    process: Some(
                        Box::new(
                            Process {
                                state: ProcessState::RUNNABLE,
                                ..*old(self).cpus@[hart as int].process->0
                            },
                        ),
                    ),
                    ..old(self).cpus@[hart as int]
                },
            ),
    {
        proof {
            assert(self.hart_ok(hart as int));
        }
        crate::process::pool::yield_cpu(&mut self.cpus[hart]);
        proof {
            assert(self.cpus@ =~= old(self).cpus@.update(hart as int, self.cpus@[hart as int]));
            assert forall|h: int| 0 <= h < NCPUS implies #[trigger] self.hart_ok(h) by {
                assert(old(self).hart_ok(h));
            }
            lemma_places_kept(*old(self), *self);
        }
    }
}

impl Machine {
    /// The process on hart `hart` ends: `exit` on that hart.
    pub fn exit(&mut self, hart: usize, status: i32)
        requires
            old(self).inv(),
            hart < NCPUS,
            old(self).cpus@[hart as int].process is Some,
            old(self).cpus@[hart as int].process->0.pid != 0,
        ensures
            final(self).inv(),
            final(self).kernel == old(self).kernel,
            final(self).cpus@ == old(self).cpus@.update(
                hart as int,
                Cpu {
                    process: Some(
                        Box::new(
                            Process {
                                state: ProcessState::ZOMBIE,
                                ..*old(self).cpus@[hart as int].process->0
                            },
                        ),
                    ),
                    intr_lock: crate::process::cpu::IntrLock {
                        enabled: false,
                        ..old(self).cpus@[hart as int].intr_lock
                    },
                    ..old(self).cpus@[hart as int]
                },
            ),
    {
        proof {
            assert(self.hart_ok(hart as int));
        }
        crate::process::process::exit(&mut self.cpus[hart], status);
        proof {
            assert(self.cpus@ =~= old(self).cpus@.update(hart as int, self.cpus@[hart as int]));
            assert forall|h: int| 0 <= h < NCPUS implies #[trigger] self.hart_ok(h) by {
                assert(old(self).hart_ok(h));
            }
            lemma_places_kept(*old(self), *self);
        }
    }

    /// The process on hart `hart` replaces its program: `exec` on that hart.
    pub fn exec(&mut self, hart: usize, image: &Vec<Segment>, entry: u64)
        requires
            old(self).inv(),
            hart < NCPUS,
            old(self).cpus@[hart as int].process is Some,
            forall|i: int| 0 <= i < image@.len() ==> (#[trigger] image@[i]).va < MAXVA,
        ensures
            final(self).inv(),
            final(self).kernel == old(self).kernel,
            final(self).cpus@.len() == NCPUS,
            forall|h: int|
                0 <= h < NCPUS && h != hart ==> final(self).cpus@[h] == old(self).cpus@[h],
            crate::process::process::exec_result(
                old(self).cpus@[hart as int],
                final(self).cpus@[hart as int],
                image@,
                entry,
            ),
    {
        proof {
            assert(self.hart_ok(hart as int));
        }
        crate::process::process::exec(&mut self.cpus[hart], image, entry);
        proof {
            assert forall|h: int| 0 <= h < NCPUS implies #[trigger] self.hart_ok(h) by {
                assert(old(self).hart_ok(h));
            }
            lemma_places_kept(*old(self), *self);
        }
    }

    /// The lowest free pid: `find_available_pid` on hart `hart`.
    pub fn find_available_pid(&mut self, hart: usize) -> (r: Option<i32>)
        requires
            old(self).inv(),
            hart < NCPUS,
            old(self).cpus@[hart as int].intr_lock.depth < usize::MAX,
        ensures
            final(self).kernel == old(self).kernel,
            final(self).cpus@ == old(self).cpus@,
            final(self).inv(),
            match r {
                Some(pid) => {
                    &&& 0 <= pid < NMAXPROCS
                    &&& old(self).kernel.pool.data@[pid as int] is NoProc
                    &&& forall|j: int|
                        0 <= j < pid ==> !(old(self).kernel.pool.data@[j] is NoProc)
                },
                None => forall|j: int|
                    0 <= j < NMAXPROCS ==> !(old(self).kernel.pool.data@[j] is NoProc),
            },
    {
        proof {
            assert(self.hart_ok(hart as int));
        }
        let r = crate::process::process::find_available_pid(&mut self.kernel, &mut self.cpus[hart]);
        proof {
            assert(self.cpus@ =~= old(self).cpus@);
            assert forall|h: int| 0 <= h < NCPUS implies #[trigger] self.hart_ok(h) by {
                assert(old(self).hart_ok(h));
            }
            lemma_places_kept(*old(self), *self);
        }
        r
    }

    /// Hart `hart` wakes the sleepers on `channel` from slot `start` on:
    /// `wakeup` on that hart.
    pub fn wakeup(&mut self, hart: usize, channel: usize, start: usize) -> (r: usize)
        requires
            old(self).inv(),
            hart < NCPUS,
            old(self).cpus@[hart as int].intr_lock.depth < usize::MAX,
            start <= NMAXPROCS,
        ensures
            final(self).inv(),
            final(self).cpus@ == old(self).cpus@,
            final(self).kernel.alloc == old(self).kernel.alloc,
            final(self).kernel.pool_sleep == old(self).kernel.pool_sleep,
            final(self).kernel.symbols == old(self).kernel.symbols,
            start <= r <= NMAXPROCS,
            r < NMAXPROCS ==> old(self).kernel.pool.data@[r as int] is BeingSlept,
            forall|j: int| start <= j < r ==> !(old(self).kernel.pool.data@[j] is BeingSlept),
            forall|j: int|
                0 <= j < NMAXPROCS ==> #[trigger] final(self).kernel.pool.data@[j] == (if start <= j
                    < r {
                    crate::process::process::woken(old(self).kernel.pool.data@[j], channel)
                } else {
                    old(self).kernel.pool.data@[j]
                }),
    {
        proof {
            assert(self.hart_ok(hart as int));
        }
        let r = crate::process::process::wakeup(
            &mut self.kernel,
            &mut self.cpus[hart],
            channel,
            start,
        );
        proof {
            assert(self.cpus@ =~= old(self).cpus@);
            assert forall|h: int| 0 <= h < NCPUS implies #[trigger] self.hart_ok(h) by {
                assert(old(self).hart_ok(h));
            }
            lemma_places_kept(*old(self), *self);
        }
        r
    }

    /// Hart `hart`, a waker, gets behind a sleeper's commit:
    /// `wait_for_sleeper` on that hart.
    pub fn wait_for_sleeper(&mut self, hart: usize) -> (r: bool)
        requires
            old(self).inv(),
            hart < NCPUS,
            !old(self).kernel.pool_sleep.held_by(hart as int),
            old(self).cpus@[hart as int].intr_lock.depth < usize::MAX,
        ensures
            r == !old(self).kernel.pool_sleep.is_locked(),
            final(self).kernel == old(self).kernel,
            final(self).cpus@ == old(self).cpus@,
            final(self).inv(),
    {
        proof {
            assert(self.hart_ok(hart as int));
        }
        let r = crate::process::process::wait_for_sleeper(&mut self.kernel, &mut self.cpus[hart]);
        proof {
            assert(self.cpus@ =~= old(self).cpus@);
            assert forall|h: int| 0 <= h < NCPUS implies #[trigger] self.hart_ok(h) by {
                assert(old(self).hart_ok(h));
            }
            lemma_places_kept(*old(self), *self);
        }
        r
    }
}

/// A step that moves one process from its place to an empty one, and
/// leaves the others and the heap as they are, keeps the machine sound if it
/// keeps each hart sound.
proof fn lemma_moved(before: Machine, after: Machine, from: int, to: int)
    requires
        before.inv(),
        after.kernel.wf(),
        after.cpus@.len() == NCPUS,
        forall|h: int| 0 <= h < NCPUS ==> #[trigger] after.hart_ok(h),
        after.kernel.alloc.data.base_addr == before.kernel.alloc.data.base_addr,
        after.kernel.alloc.data.page_allocated@ == before.kernel.alloc.data.page_allocated@,
        0 <= from < places(),
        0 <= to < places(),
        from != to,
        before.process_at(from) is Some,
        before.process_at(to) is None,
        after.process_at(from) is None,
        same_tenant(before.process_at(from), after.process_at(to)),
        forall|at: int|
            0 <= at < places() && at != from && at != to ==> same_tenant(
                #[trigger] before.process_at(at),
                after.process_at(at),
            ),
    ensures
        after.inv(),
{
    // the place before the step of what is at a place after it
    let origin = |at: int|
        if at == to {
            from
        } else {
            at
        };
    assert forall|at: int| 0 <= at < places() && (#[trigger] after.process_at(at)) is Some implies {
        &&& 0 <= origin(at) < places()
        &&& same_tenant(before.process_at(origin(at)), after.process_at(at))
    } by {
        if at != to {
            assert(same_tenant(before.process_at(at), after.process_at(at)));
        }
    }
    assert forall|at: int|
        0 <= at < places() && (#[trigger] after.process_at(at)) is Some implies stack_is_live(
        after.kernel.alloc.data,
        after.process_at(at)->0.kstack,
    ) by {
        assert(same_tenant(before.process_at(origin(at)), after.process_at(at)));
    }
    assert forall|a: int, b: int|
        0 <= a < places() && 0 <= b < places() && a != b && (#[trigger] after.process_at(a))
            is Some && (#[trigger] after.process_at(b)) is Some implies {
        &&& after.process_at(a)->0.pid != after.process_at(b)->0.pid
        &&& after.stack_frame(after.process_at(a)->0) != after.stack_frame(after.process_at(b)->0)
    } by {
        assert(same_tenant(before.process_at(origin(a)), after.process_at(a)));
        assert(same_tenant(before.process_at(origin(b)), after.process_at(b)));
        assert(origin(a) != origin(b));
    }
}

/// A step that takes one process away and gives its kernel stack back to
/// the heap, and leaves the others as they are, keeps the machine sound if
/// it keeps each hart sound.
proof fn lemma_removed(before: Machine, after: Machine, from: int)
    requires
        before.inv(),
        after.kernel.wf(),
        after.cpus@.len() == NCPUS,
        forall|h: int| 0 <= h < NCPUS ==> #[trigger] after.hart_ok(h),
        0 <= from < places(),
        before.process_at(from) is Some,
        after.process_at(from) is None,
        after.kernel.alloc.data.base_addr == before.kernel.alloc.data.base_addr,
        after.kernel.alloc.data.page_allocated@ == stamp(
            before.kernel.alloc.data.page_allocated@,
            before.stack_frame(before.process_at(from)->0),
            before.kernel.alloc.data.page_allocated@[before.stack_frame(
                before.process_at(from)->0,
            )] as int,
            0,
        ),
        forall|at: int|
            0 <= at < places() && at != from ==> same_tenant(
                #[trigger] before.process_at(at),
                after.process_at(at),
            ),
    ensures
        after.inv(),
{
    let cells = before.kernel.alloc.data.page_allocated@;
    let gone = before.stack_frame(before.process_at(from)->0);
    assert(stack_is_live(before.kernel.alloc.data, before.process_at(from)->0.kstack));
    assert forall|at: int|
        0 <= at < places() && (#[trigger] after.process_at(at)) is Some implies stack_is_live(
        after.kernel.alloc.data,
        after.process_at(at)->0.kstack,
    ) by {
        assert(same_tenant(before.process_at(at), after.process_at(at)));
        let kept = before.stack_frame(before.process_at(at)->0);
        assert(kept != gone);
        lemma_deallocate_keeps_other_runs(cells, kept, gone);
    }
    assert forall|a: int, b: int|
        0 <= a < places() && 0 <= b < places() && a != b && (#[trigger] after.process_at(a))
            is Some && (#[trigger] after.process_at(b)) is Some implies {
        &&& after.process_at(a)->0.pid != after.process_at(b)->0.pid
        &&& after.stack_frame(after.process_at(a)->0) != after.stack_frame(after.process_at(b)->0)
    } by {
        assert(same_tenant(before.process_at(a), after.process_at(a)));
        assert(same_tenant(before.process_at(b), after.process_at(b)));
    }
}

/// A step that puts a new process with a new kernel stack at an empty
/// place, and leaves the others as they are, keeps the machine sound if it
/// keeps each hart sound.
proof fn lemma_inserted(before: Machine, after: Machine, to: int)
    requires
        before.inv(),
        after.kernel.wf(),
        after.cpus@.len() == NCPUS,
        forall|h: int| 0 <= h < NCPUS ==> #[trigger] after.hart_ok(h),
        0 <= to < places(),
        before.process_at(to) is None,
        after.process_at(to) is Some,
        forall|at: int|
            0 <= at < places() && at != to && (#[trigger] before.process_at(at)) is Some
                ==> before.process_at(at)->0.pid != after.process_at(to)->0.pid,
        after.kernel.alloc.data.base_addr == before.kernel.alloc.data.base_addr,
        first_fit(
            before.kernel.alloc.data.page_allocated@,
            KSTACK_PAGES as int,
            after.stack_frame(after.process_at(to)->0),
        ),
        after.kernel.alloc.data.page_allocated@ == stamp(
            before.kernel.alloc.data.page_allocated@,
            after.stack_frame(after.process_at(to)->0),
            KSTACK_PAGES as int,
            KSTACK_PAGES,
        ),
        stack_is_live(after.kernel.alloc.data, after.process_at(to)->0.kstack),
        forall|at: int|
            0 <= at < places() && at != to ==> same_tenant(
                #[trigger] before.process_at(at),
                after.process_at(at),
            ),
    ensures
        after.inv(),
{
    let cells = before.kernel.alloc.data.page_allocated@;
    let new = after.stack_frame(after.process_at(to)->0);
    let size = KSTACK_PAGES * PAGE_SIZE;
    assert(crate::mem::pages_of(size) == KSTACK_PAGES);
    assert forall|at: int| 0 <= at < places() && at != to && (#[trigger] after.process_at(at))
        is Some implies stack_is_live(after.kernel.alloc.data, after.process_at(at)->0.kstack)
        && after.stack_frame(after.process_at(at)->0) != new by {
        assert(same_tenant(before.process_at(at), after.process_at(at)));
        let kept = before.stack_frame(before.process_at(at)->0);
        assert(stack_is_live(before.kernel.alloc.data, before.process_at(at)->0.kstack));
        lemma_allocate_avoids_live_run(cells, kept, size, new);
    }
    assert forall|at: int|
        0 <= at < places() && (#[trigger] after.process_at(at)) is Some implies stack_is_live(
        after.kernel.alloc.data,
        after.process_at(at)->0.kstack,
    ) by {}
    assert forall|a: int, b: int|
        0 <= a < places() && 0 <= b < places() && a != b && (#[trigger] after.process_at(a))
            is Some && (#[trigger] after.process_at(b)) is Some implies {
        &&& after.process_at(a)->0.pid != after.process_at(b)->0.pid
        &&& after.stack_frame(after.process_at(a)->0) != after.stack_frame(after.process_at(b)->0)
    } by {
        if a != to {
            assert(same_tenant(before.process_at(a), after.process_at(a)));
        }
        if b != to {
            assert(same_tenant(before.process_at(b), after.process_at(b)));
        }
    }
}

impl Machine {
    /// The harts other than `hart` are as they were.
    pub open spec fn others_kept(&self, after: &Machine, hart: int) -> bool {
        &&& after.cpus@.len() == self.cpus@.len()
        &&& forall|h: int|
            0 <= h < self.cpus@.len() && h != hart ==> #[trigger] after.cpus@[h] == self.cpus@[h]
    }

    /// One round of the scheduler of hart `hart`, up to the context switch:
    /// `scheduler` on that hart.
    pub fn scheduler(&mut self, hart: usize) -> (r: Option<i32>)
        requires
            old(self).inv(),
            hart < NCPUS,
            old(self).cpus@[hart as int].process is None,
            old(self).cpus@[hart as int].intr_lock.depth == 0,
        ensures
            final(self).inv(),
            old(self).others_kept(final(self), hart as int),
            scheduler_result(
                old(self).kernel,
                old(self).cpus@[hart as int],
                final(self).kernel,
                final(self).cpus@[hart as int],
                r,
            ),
    {
        proof {
            assert(self.hart_ok(hart as int));
        }
        let r = crate::process::pool::scheduler(&mut self.kernel, &mut self.cpus[hart]);
        proof {
            assert forall|h: int| 0 <= h < NCPUS implies #[trigger] self.hart_ok(h) by {
                assert(old(self).hart_ok(h));
                assert(old(self).hart_ok(hart as int));
            }
            match r {
                Some(pid) => {
                    assert(old(self).process_at(pid as int) is Some);
                    lemma_moved(*old(self), *self, pid as int, NMAXPROCS + hart);
                },
                None => {
                    lemma_places_kept(*old(self), *self);
                },
            }
        }
        r
    }

    /// The scheduler of hart `hart` takes back the process that ran on it:
    /// `scheduler_resume` on that hart.
    pub fn scheduler_resume(&mut self, hart: usize)
        requires
            old(self).inv(),
            hart < NCPUS,
            old(self).cpus@[hart as int].process is Some,
            old(self).cpus@[hart as int].intr_lock.depth < usize::MAX,
        ensures
            final(self).inv(),
            old(self).others_kept(final(self), hart as int),
            resume_result(
                old(self).kernel,
                old(self).cpus@[hart as int],
                final(self).kernel,
                final(self).cpus@[hart as int],
            ),
    {
        proof {
            assert(self.hart_ok(hart as int));
            assert(self.process_at(NMAXPROCS + hart) is Some);
        }
        crate::process::pool::scheduler_resume(&mut self.kernel, &mut self.cpus[hart]);
        proof {
            let p = old(self).cpus@[hart as int].process->0;
            assert forall|h: int| 0 <= h < NCPUS implies #[trigger] self.hart_ok(h) by {
                assert(old(self).hart_ok(h));
                assert(old(self).hart_ok(hart as int));
                if h != hart && old(self).cpus@[h].process is Some {
                    assert(old(self).process_at(NMAXPROCS + h) is Some);
                    assert(old(self).process_at(NMAXPROCS + hart) is Some);
                }
            }
            if p.state == ProcessState::ZOMBIE {
                lemma_removed(*old(self), *self, NMAXPROCS + hart);
            } else {
                lemma_moved(*old(self), *self, NMAXPROCS + hart, p.pid as int);
            }
        }
    }

    /// The process on hart `hart` forks: `fork` on that hart.
    pub fn fork(&mut self, hart: usize, trapframe_pa: u64) -> (pid: i32)
        requires
            old(self).inv(),
            hart < NCPUS,
            old(self).cpus@[hart as int].process is Some,
            old(self).cpus@[hart as int].intr_lock.depth < usize::MAX,
            exists|i: int| 0 <= i < NMAXPROCS && old(self).kernel.pool.data@[i] is NoProc,
            has_fit(old(self).kernel.alloc.data.page_allocated@, KSTACK_PAGES as int),
        ensures
            final(self).inv(),
            old(self).others_kept(final(self), hart as int),
            fork_result(
                old(self).kernel,
                old(self).cpus@[hart as int],
                final(self).kernel,
                final(self).cpus@[hart as int],
                trapframe_pa,
                pid,
            ),
    {
        proof {
            assert(self.hart_ok(hart as int));
        }
        let pid = crate::process::process::fork(
            &mut self.kernel,
            &mut self.cpus[hart],
            trapframe_pa,
        );
        proof {
            assert forall|h: int| 0 <= h < NCPUS implies #[trigger] self.hart_ok(h) by {
                assert(old(self).hart_ok(h));
            }
            assert forall|at: int|
                0 <= at < places() && at != pid && (#[trigger] old(self).process_at(at))
                    is Some implies old(self).process_at(at)->0.pid != pid by {
                if at >= NMAXPROCS {
                    assert(old(self).hart_ok(at - NMAXPROCS));
                }
            }
            lemma_inserted(*old(self), *self, pid as int);
        }
        pid
    }

    /// Hart `hart` makes the first process: `init_proc` on that hart. No
    /// process has pid 0 yet.
    pub fn init_proc(&mut self, hart: usize, content: &Vec<u8>, trapframe_pa: u64)
        requires
            old(self).inv(),
            hart < NCPUS,
            old(self).cpus@[hart as int].intr_lock.depth < usize::MAX,
            content@.len() <= PAGE_SIZE,
            old(self).kernel.pool.data@[0] is NoProc,
            has_fit(old(self).kernel.alloc.data.page_allocated@, KSTACK_PAGES as int),
        ensures
            final(self).inv(),
            old(self).others_kept(final(self), hart as int),
            init_proc_result(
                old(self).kernel,
                old(self).cpus@[hart as int],
                final(self).kernel,
                final(self).cpus@[hart as int],
                content@,
                trapframe_pa,
            ),
    {
        proof {
            assert(self.hart_ok(hart as int));
        }
        crate::process::process::init_proc(
            &mut self.kernel,
            &mut self.cpus[hart],
            content,
            trapframe_pa,
        );
        proof {
            assert forall|h: int| 0 <= h < NCPUS implies #[trigger] self.hart_ok(h) by {
                assert(old(self).hart_ok(h));
            }
            assert forall|at: int|
                0 <= at < places() && at != 0 && (#[trigger] old(self).process_at(at))
                    is Some implies old(self).process_at(at)->0.pid != 0 by {
                if at >= NMAXPROCS {
                    assert(old(self).hart_ok(at - NMAXPROCS));
                }
            }
            lemma_inserted(*old(self), *self, 0);
        }
    }

    /// The process on hart `hart` goes to sleep: `sleep` on that hart.
    pub fn sleep<U>(
        &mut self,
        hart: usize,
        channel: usize,
        lck: MutexGuard,
        mutex: &mut Mutex<U>,
    ) -> (r: Result<WeakMutexGuard, MutexGuard>)
        requires
            old(self).inv(),
            hart < NCPUS,
            old(self).cpus@[hart as int].process is Some,
            old(self).cpus@[hart as int].process->0.drop_on_put_back is None,
            old(mutex).wf(),
            old(mutex).guarded_by(lck),
            lck.hart == hart,
            0 < old(self).cpus@[hart as int].intr_lock.depth < usize::MAX,
        ensures
            final(self).inv(),
            old(self).others_kept(final(self), hart as int),
            sleep_result(
                old(self).kernel,
                old(self).cpus@[hart as int],
                *old(mutex),
                final(self).kernel,
                final(self).cpus@[hart as int],
                *final(mutex),
                channel,
                lck,
                r,
            ),
    {
        proof {
            assert(self.hart_ok(hart as int));
        }
        let r = crate::process::process::sleep(
            &mut self.kernel,
            &mut self.cpus[hart],
            channel,
            lck,
            mutex,
        );
        proof {
            assert forall|h: int| 0 <= h < NCPUS implies #[trigger] self.hart_ok(h) by {
                assert(old(self).hart_ok(h));
                assert(old(self).hart_ok(hart as int));
                if h != hart && old(self).cpus@[h].process is Some {
                    assert(old(self).process_at(NMAXPROCS + h) is Some);
                    assert(old(self).process_at(NMAXPROCS + hart) is Some);
                }
            }
            lemma_places_kept(*old(self), *self);
        }
        r
    }

    /// The process on hart `hart` runs again after its sleep: `sleep_done`
    /// on that hart.
    pub fn sleep_done<U>(&mut self, hart: usize, weak_lock: WeakMutexGuard, mutex: &mut Mutex<U>) -> (r:
        Result<MutexGuard, WeakMutexGuard>)
        requires
            old(self).inv(),
            hart < NCPUS,
            old(self).cpus@[hart as int].process is Some,
            old(mutex).wf(),
            weak_lock.name@ == old(mutex).name@,
            !old(mutex).held_by(hart as int),
            old(self).cpus@[hart as int].intr_lock.depth < usize::MAX,
        ensures
            final(self).inv(),
            final(self).kernel == old(self).kernel,
            old(self).others_kept(final(self), hart as int),
            sleep_done_result(
                old(self).cpus@[hart as int],
                *old(mutex),
                final(self).cpus@[hart as int],
                *final(mutex),
                weak_lock,
                r,
            ),
    {
        proof {
            assert(self.hart_ok(hart as int));
        }
        let r = crate::process::process::sleep_done(&mut self.cpus[hart], weak_lock, mutex);
        proof {
            assert forall|h: int| 0 <= h < NCPUS implies #[trigger] self.hart_ok(h) by {
                assert(old(self).hart_ok(h));
            }
            lemma_places_kept(*old(self), *self);
        }
        r
    }

    /// Hart `hart` tries for a lock that is none of the kernel's own:
    /// `Mutex::lock` on that hart.
    pub fn lock<U>(&mut self, hart: usize, mutex: &mut Mutex<U>) -> (r: Option<MutexGuard>)
        requires
            old(self).inv(),
            hart < NCPUS,
            old(mutex).wf(),
            !old(mutex).held_by(hart as int),
            old(self).cpus@[hart as int].intr_lock.depth < usize::MAX,
        ensures
            final(self).inv(),
            final(self).kernel == old(self).kernel,
            old(self).others_kept(final(self), hart as int),
            final(mutex).wf(),
            final(mutex).name == old(mutex).name,
            final(mutex).data == old(mutex).data,
            final(self).cpus@[hart as int].id == hart,
            final(self).cpus@[hart as int].process == old(self).cpus@[hart as int].process,
            old(mutex).is_locked() ==> {
                &&& r is None
                &&& *final(mutex) == *old(mutex)
                &&& final(self).cpus@[hart as int] == old(self).cpus@[hart as int]
            },
            !old(mutex).is_locked() ==> {
                &&& r is Some
                &&& r->0.hart == hart
                &&& r->0.name == old(mutex).name
                &&& final(mutex).guarded_by(r->0)
                &&& final(self).cpus@[hart as int].intr_lock == old(
                    self,
                ).cpus@[hart as int].intr_lock.pushed()
            },
    {
        proof {
            assert(self.hart_ok(hart as int));
        }
        let r = mutex.lock(&mut self.cpus[hart]);
        proof {
            assert forall|h: int| 0 <= h < NCPUS implies #[trigger] self.hart_ok(h) by {
                assert(old(self).hart_ok(h));
            }
            lemma_places_kept(*old(self), *self);
        }
        r
    }

    /// Hart `hart` releases a lock that is none of the kernel's own:
    /// `Mutex::unlock` on that hart. The critical section that it leaves is
    /// that of this lock, not that of the sleep lock.
    pub fn unlock<U>(&mut self, hart: usize, mutex: &mut Mutex<U>, guard: MutexGuard)
        requires
            old(self).inv(),
            hart < NCPUS,
            old(mutex).wf(),
            old(mutex).held_by(hart as int),
            old(mutex).guarded_by(guard),
            old(self).cpus@[hart as int].intr_lock.depth > (if old(self).kernel.pool_sleep.held_by(
                hart as int,
            ) {
                1int
            } else {
                0int
            }),
        ensures
            final(self).inv(),
            final(self).kernel == old(self).kernel,
            old(self).others_kept(final(self), hart as int),
            final(mutex).wf(),
            final(mutex).lock == 0,
            final(mutex).hart == -1,
            final(mutex).name == old(mutex).name,
            final(mutex).data == old(mutex).data,
            final(self).cpus@[hart as int].id == hart,
            final(self).cpus@[hart as int].process == old(self).cpus@[hart as int].process,
            final(self).cpus@[hart as int].intr_lock == old(
                self,
            ).cpus@[hart as int].intr_lock.popped(),
    {
        proof {
            assert(self.hart_ok(hart as int));
        }
        mutex.unlock(&mut self.cpus[hart], guard);
        proof {
            assert forall|h: int| 0 <= h < NCPUS implies #[trigger] self.hart_ok(h) by {
                assert(old(self).hart_ok(h));
            }
            lemma_places_kept(*old(self), *self);
        }
    }
}

impl Machine {
    /// Hart `hart` places the heap, before there is any process: `init` of
    /// the heap on that hart. The heap fits the address space from where it
    /// is placed.
    pub fn init(&mut self, hart: usize, heap_start: usize)
        requires
            old(self).inv(),
            hart < NCPUS,
            old(self).cpus@[hart as int].intr_lock.depth < usize::MAX,
            forall|at: int| 0 <= at < places() ==> (#[trigger] old(self).process_at(at)) is None,
            heap_start + PAGE_SIZE + old(self).kernel.alloc.data.page_allocated@.len() * PAGE_SIZE
                <= usize::MAX,
        ensures
            final(self).inv(),
            final(self).cpus@ == old(self).cpus@,
            final(self).kernel.pool == old(self).kernel.pool,
            final(self).kernel.pool_sleep == old(self).kernel.pool_sleep,
            final(self).kernel.symbols == old(self).kernel.symbols,
            final(self).kernel.alloc.name == old(self).kernel.alloc.name,
            final(self).kernel.alloc.data.page_allocated == old(
                self,
            ).kernel.alloc.data.page_allocated,
            final(self).kernel.alloc.data.base_addr as int % (PAGE_SIZE as int) == 0,
            heap_start <= final(self).kernel.alloc.data.base_addr < heap_start + PAGE_SIZE,
    {
        proof {
            assert(self.hart_ok(hart as int));
        }
        crate::mem::init(&mut self.kernel.alloc, &mut self.cpus[hart], heap_start);
        proof {
            assert(self.cpus@ =~= old(self).cpus@);
            assert forall|h: int| 0 <= h < NCPUS implies #[trigger] self.hart_ok(h) by {
                assert(old(self).hart_ok(h));
            }
            assert forall|at: int| 0 <= at < places() implies (#[trigger] self.process_at(at))
                is None by {
                assert(old(self).process_at(at) is None);
            }
        }
    }

    /// Hart `hart` takes the disk's interrupt: `virtiointr` on that hart.
    pub fn virtiointr(&mut self, hart: usize, disk: &mut Mutex<VirtIO>) -> (r: Option<Vec<usize>>)
        requires
            old(self).inv(),
            hart < NCPUS,
            old(disk).wf(),
            !old(disk).held_by(hart as int),
            old(self).cpus@[hart as int].intr_lock.depth < usize::MAX,
            old(disk).data.wf(),
            crate::virtio::completions_ok(old(disk).data),
        ensures
            final(self).inv(),
            final(self).kernel == old(self).kernel,
            final(self).cpus@ == old(self).cpus@,
            crate::virtio::intr_result(*old(disk), *final(disk), r),
    {
        proof {
            assert(self.hart_ok(hart as int));
        }
        let r = crate::virtio::virtiointr(disk, &mut self.cpus[hart]);
        proof {
            assert(self.cpus@ =~= old(self).cpus@);
            assert forall|h: int| 0 <= h < NCPUS implies #[trigger] self.hart_ok(h) by {
                assert(old(self).hart_ok(h));
            }
            lemma_places_kept(*old(self), *self);
        }
        r
    }
}

} // verus!
