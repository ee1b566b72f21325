//! The process pool, the state that all harts share, and the scheduler's
//! steps: taking a process out of the pool to run it, and putting it back.

use vstd::prelude::*;
use crate::mem::Allocator;
use crate::mem::stamp;
use crate::process::cpu::Cpu;
use crate::process::handoff::view;
use crate::process::process::Process;
use crate::process::process::ProcessState;
use crate::spinlock::Mutex;
use crate::symbols::Symbols;
use crate::symbols::NMAXPROCS;

verus! {

/// What a slot of the pool holds.
pub enum ProcInPool {
    /// No process has this pid.
    NoProc,
    /// The process rests in the pool, where the scheduler and wakers see it.
    Pooling(Box<Process>),
    /// The process is out on some hart.
    Scheduled,
    /// The process is out on some hart, which is putting it to sleep.
    BeingSlept,
}

/// The state that all harts share.
pub struct Kernel {
    /// The heap's allocator.
    pub alloc: Mutex<Allocator>,
    /// The process pool.
    pub pool: Mutex<Vec<ProcInPool>>,
    /// The sleep lock: held from a sleeper's commit until its hart's scheduler
    /// has taken the process back.
    pub pool_sleep: Mutex<()>,
    /// Addresses fixed at boot.
    pub symbols: Symbols,
}

/// Slot `i` holds a process that is ready to run.
pub open spec fn runnable_at(pool: Seq<ProcInPool>, i: int) -> bool {
    pool[i] is Pooling && pool[i]->0.state == ProcessState::RUNNABLE
}

impl Kernel {
    /// Between two steps the heap lock and the pool lock are free, the pool
    /// has all its slots, and a resting process rests in the slot of its pid
    /// and carries no guard.
    pub open spec fn wf(&self) -> bool {
        &&& self.alloc.wf()
        &&& !self.alloc.is_locked()
        &&& self.alloc.data.wf()
        &&& self.pool.wf()
        &&& !self.pool.is_locked()
        &&& self.pool.data@.len() == NMAXPROCS
        &&& forall|i: int|
            0 <= i < NMAXPROCS ==> ((#[trigger] self.pool.data@[i]) is Pooling ==> {
                &&& self.pool.data@[i]->0.wf()
                &&& self.pool.data@[i]->0.pid == i
                &&& self.pool.data@[i]->0.drop_on_put_back is None
            })
        &&& self.pool_sleep.wf()
    }

    /// The locks of `after` are those of `self`, by name.
    pub open spec fn names_kept(&self, after: &Kernel) -> bool {
        &&& after.alloc.name == self.alloc.name
        &&& after.pool.name == self.pool.name
        &&& after.pool_sleep.name == self.pool_sleep.name
    }

    /// The process of `cpu`, if it runs one, has a slot in the pool, which
    /// is marked as being out.
    pub open spec fn runs(&self, cpu: &Cpu) -> bool {
        cpu.process is Some ==> {
            let slot = self.pool.data@[cpu.process->0.pid as int];
            &&& cpu.process->0.pid < NMAXPROCS
            &&& slot is Scheduled || slot is BeingSlept
        }
    }

    /// The kernel's shared state at boot: an untouched heap, an empty pool,
    /// all locks free.
    pub fn new(symbols: Symbols) -> (k: Self)
        ensures
            k.wf(),
            k.symbols == symbols,
            k.alloc.name@ == "alloc"@,
            k.pool.name@ == "proc_pool"@,
            k.pool_sleep.name@ == "proc_pool_sleep"@,
            !k.pool_sleep.is_locked(),
            forall|i: int| 0 <= i < NMAXPROCS ==> k.pool.data@[i] is NoProc,
            k.alloc.data.base_addr == 0,
            k.alloc.data.page_allocated@.len() == crate::mem::MAX_PAGE,
            forall|j: int| 0 <= j < crate::mem::MAX_PAGE ==> k.alloc.data.page_allocated@[j] == 0,
    {
        let mut slots: Vec<ProcInPool> = Vec::new();
        let mut i: usize = 0;
        while i < NMAXPROCS
            invariant
                i <= NMAXPROCS,
                slots@.len() == i,
                forall|j: int| 0 <= j < i ==> slots@[j] is NoProc,
            decreases NMAXPROCS - i,
        {
            slots.push(ProcInPool::NoProc);
            i += 1;
        }
        Kernel {
            alloc: crate::mem::ALLOC(),
            pool: Mutex::new(slots, "proc_pool"),
            pool_sleep: Mutex::new((), "proc_pool_sleep"),
            symbols,
        }
    }
}

/// Puts a process that is out on this hart into the slot of its pid: a new
/// one for the first time, a running one when it has switched back to the
/// scheduler.
///
/// First the guard that the process carries from going to sleep, if any, is
/// released. Then, under the pool lock, a zombie's slot becomes free and any
/// other process rests in its slot. A zombie's kernel stack goes back to the
/// heap once the pool lock is released.
pub fn put_back_proc(k: &mut Kernel, cpu: &mut Cpu, p: Box<Process>)
    requires
        old(k).wf(),
        old(cpu).wf(),
        old(cpu).intr_lock.depth < usize::MAX,
        p.wf(),
        p.pid < NMAXPROCS,
        !(old(k).pool.data@[p.pid as int] is Pooling),
        p.drop_on_put_back is Some ==> {
            &&& old(k).pool_sleep.guarded_by(p.drop_on_put_back->0)
            &&& p.drop_on_put_back->0.hart == old(cpu).id
            &&& old(cpu).intr_lock.depth > 0
        },
        p.state == ProcessState::ZOMBIE ==> stack_is_live(old(k).alloc.data, p.kstack),
    ensures
        final(k).wf(),
        old(k).names_kept(final(k)),
        final(k).symbols == old(k).symbols,
        final(k).pool.data@ == old(k).pool.data@.update(
            p.pid as int,
            if p.state == ProcessState::ZOMBIE {
                ProcInPool::NoProc
            } else {
                ProcInPool::Pooling(Box::new(Process { drop_on_put_back: None, ..*p }))
            },
        ),
        final(k).pool_sleep == (if p.drop_on_put_back is Some {
            Mutex { lock: 0, hart: -1i64, ..old(k).pool_sleep }
        } else {
            old(k).pool_sleep
        }),
        *final(cpu) == (if p.drop_on_put_back is Some {
            Cpu { intr_lock: old(cpu).intr_lock.popped(), ..*old(cpu) }
        } else {
            *old(cpu)
        }),
        final(k).alloc.data.base_addr == old(k).alloc.data.base_addr,
        final(k).alloc.data.page_allocated@ == (if p.state == ProcessState::ZOMBIE {
            stamp(
                old(k).alloc.data.page_allocated@,
                old(k).alloc.data.frame_of(p.kstack as int),
                old(k).alloc.data.page_allocated@[old(k).alloc.data.frame_of(p.kstack as int)] as int,
                0,
            )
        } else {
            old(k).alloc.data.page_allocated@
        }),
{
    let mut p = p;
    let stash = p.drop_on_put_back.take();
    match stash {
        Some(sleep_guard) => {
            k.pool_sleep.unlock(cpu, sleep_guard);
        },
        None => {},
    }
    let pid = p.pid as usize;
    let guard = k.pool.lock(cpu).unwrap();
    if p.state == ProcessState::ZOMBIE {
        let pool = k.pool.get_mut(&guard);
        pool[pid] = ProcInPool::NoProc;
        k.pool.unlock(cpu, guard);
        let heap_guard = k.alloc.lock(cpu).unwrap();
        k.alloc.get_mut(&heap_guard).deallocate(p.kstack);
        k.alloc.unlock(cpu, heap_guard);
    } else {
        let pool = k.pool.get_mut(&guard);
        pool[pid] = ProcInPool::Pooling(p);
        k.pool.unlock(cpu, guard);
    }
}

/// The kernel stack at `kstack` is a live run of the heap.
pub open spec fn stack_is_live(heap: Allocator, kstack: usize) -> bool {
    &&& heap.base_addr <= kstack
    &&& heap.frame_of(kstack as int) < heap.page_allocated@.len()
    &&& heap.is_head(heap.frame_of(kstack as int))
}


/// What `scheduler` makes of the shared state and the hart, and what it
/// returns.
pub open spec fn scheduler_result(
    k0: Kernel,
    cpu0: Cpu,
    k1: Kernel,
    cpu1: Cpu,
    r: Option<i32>,
) -> bool {
    &&& k1.wf()
    &&& k0.names_kept(&k1)
    &&& k1.runs(&cpu1)
    &&& k1.alloc == k0.alloc
    &&& k1.pool_sleep == k0.pool_sleep
    &&& k1.symbols == k0.symbols
    &&& cpu1.id == cpu0.id
    &&& cpu1.intr_lock == (crate::process::cpu::IntrLock {
        enabled: true,
        depth: 0,
        was_enabled: false,
    })
    &&& match r {
        Some(pid) => {
            &&& 0 <= pid < NMAXPROCS
            &&& runnable_at(k0.pool.data@, pid as int)
            &&& forall|j: int| 0 <= j < pid ==> !runnable_at(k0.pool.data@, j)
            &&& k1.pool.data@ == k0.pool.data@.update(
                pid as int,
                ProcInPool::Scheduled,
            )
            &&& cpu1.process == Some(
                Box::new(
                    Process {
                        state: ProcessState::RUNNING,
                        ..*k0.pool.data@[pid as int]->0
                    },
                ),
            )
            &&& forall|cond_lock: int|
                #[trigger] view(k1, *cpu1.process->0, cond_lock) == view(
                    k0,
                    *k0.pool.data@[pid as int]->0,
                    cond_lock,
                ).pick()
        },
        None => {
            &&& forall|j: int| 0 <= j < NMAXPROCS ==> !runnable_at(k0.pool.data@, j)
            &&& k1.pool.data@ == k0.pool.data@
            &&& cpu1.process is None
        },
    }
}

/// One round of a hart's scheduler, up to the context switch.
///
/// Interrupts are let in for a moment. Then the first process of the pool
/// that is ready to run is taken out of its slot, which is marked as
/// scheduled, and becomes the hart's running process. Returns its pid: the
/// caller switches to its context. Returns `None`, and changes nothing in
/// the pool, when no process is ready.
pub fn scheduler(k: &mut Kernel, cpu: &mut Cpu) -> (r: Option<i32>)
    requires
        old(k).wf(),
        old(cpu).wf(),
        old(cpu).process is None,
        old(cpu).intr_lock.depth == 0,
    ensures
        scheduler_result(*old(k), *old(cpu), *final(k), *final(cpu), r),
{
    cpu.intr_lock.intr_on();
    let guard = k.pool.lock(cpu).unwrap();
    let mut found: Option<usize> = None;
    let mut i: usize = 0;
    while i < NMAXPROCS && found.is_none()
        invariant
            i <= NMAXPROCS,
            k.pool.data@.len() == NMAXPROCS,
            k.pool.guarded_by(guard),
            match found {
                Some(pid) => {
                    &&& pid < NMAXPROCS
                    &&& runnable_at(k.pool.data@, pid as int)
                    &&& forall|j: int| 0 <= j < pid ==> !runnable_at(k.pool.data@, j)
                },
                None => forall|j: int| 0 <= j < i ==> !runnable_at(k.pool.data@, j),
            },
        decreases NMAXPROCS - i + (if found is None { 1int } else { 0int }),
    {
        let ready = match &k.pool.get(&guard)[i] {
            ProcInPool::Pooling(p) => p.state == ProcessState::RUNNABLE,
            _ => false,
        };
        if ready {
            found = Some(i);
        } else {
            i += 1;
        }
    }
    match found {
        Some(pid) => {
            let mut slot = ProcInPool::Scheduled;
            let pool = k.pool.get_mut(&guard);
            core::mem::swap(&mut pool[pid], &mut slot);
            k.pool.unlock(cpu, guard);
            match slot {
                ProcInPool::Pooling(p) => {
                    let mut p = p;
                    p.state = ProcessState::RUNNING;
                    cpu.process = Some(p);
                },
                _ => {},
            }
            Some(pid as i32)
        },
        None => {
            k.pool.unlock(cpu, guard);
            None
        },
    }
}

/// What `scheduler_resume` makes of the shared state and the hart.
pub open spec fn resume_result(
    k0: Kernel,
    cpu0: Cpu,
    k1: Kernel,
    cpu1: Cpu,
) -> bool {
    &&& k1.wf()
    &&& k0.names_kept(&k1)
    &&& k1.symbols == k0.symbols
    &&& cpu1.process is None
    &&& cpu1.id == cpu0.id
    &&& cpu0.process->0.state != ProcessState::ZOMBIE ==> forall|cond_lock: int|
        #[trigger] view(
            k1,
            *k1.pool.data@[cpu0.process->0.pid as int]->0,
            cond_lock,
        ) == view(k0, *cpu0.process->0, cond_lock).resume(cpu0.id as int)
    &&& k1.pool.data@ == k0.pool.data@.update(
        cpu0.process->0.pid as int,
        if cpu0.process->0.state == ProcessState::ZOMBIE {
            ProcInPool::NoProc
        } else {
            ProcInPool::Pooling(
                Box::new(Process { drop_on_put_back: None, ..*cpu0.process->0 }),
            )
        },
    )
    &&& k1.pool_sleep == (if cpu0.process->0.drop_on_put_back is Some {
        Mutex { lock: 0, hart: -1i64, ..k0.pool_sleep }
    } else {
        k0.pool_sleep
    })
    &&& cpu1.intr_lock == (if cpu0.process->0.drop_on_put_back is Some {
        cpu0.intr_lock.popped()
    } else {
        cpu0.intr_lock
    })
    &&& k1.alloc.data.base_addr == k0.alloc.data.base_addr
    &&& k1.alloc.data.page_allocated@ == (if cpu0.process->0.state
        == ProcessState::ZOMBIE {
        stamp(
            k0.alloc.data.page_allocated@,
            k0.alloc.data.frame_of(cpu0.process->0.kstack as int),
            k0.alloc.data.page_allocated@[k0.alloc.data.frame_of(
                cpu0.process->0.kstack as int,
            )] as int,
            0,
        )
    } else {
        k0.alloc.data.page_allocated@
    })
}

/// The scheduler's half of a switch back from a process: the process that
/// ran on this hart goes back to the pool, as `put_back_proc` says.
pub fn scheduler_resume(k: &mut Kernel, cpu: &mut Cpu)
    requires
        old(k).wf(),
        old(cpu).wf(),
        old(k).runs(old(cpu)),
        old(cpu).process is Some,
        old(cpu).intr_lock.depth < usize::MAX,
        old(cpu).process->0.drop_on_put_back is Some ==> {
            &&& old(k).pool_sleep.guarded_by(old(cpu).process->0.drop_on_put_back->0)
            &&& old(cpu).process->0.drop_on_put_back->0.hart == old(cpu).id
            &&& old(cpu).intr_lock.depth > 0
        },
        old(cpu).process->0.state == ProcessState::ZOMBIE ==> stack_is_live(
            old(k).alloc.data,
            old(cpu).process->0.kstack,
        ),
    ensures
        resume_result(*old(k), *old(cpu), *final(k), *final(cpu)),
{
    let p = cpu.process.take().unwrap();
    put_back_proc(k, cpu, p);
}

/// The running process gives up its hart: it becomes ready to run again.
/// The caller then switches to the scheduler.
pub fn yield_cpu(cpu: &mut Cpu)
    requires
        old(cpu).process is Some,
    ensures
        final(cpu).process == Some(
            Box::new(Process { state: ProcessState::RUNNABLE, ..*old(cpu).process->0 }),
        ),
        final(cpu).id == old(cpu).id,
        final(cpu).intr_lock == old(cpu).intr_lock,
{
    match &mut cpu.process {
        Some(p) => {
            p.state = ProcessState::RUNNABLE;
        },
        None => {},
    }
}

} // verus!
