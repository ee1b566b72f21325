//! The sleep/wakeup handoff as a small transition system, and the proof that
//! no wakeup is lost in any interleaving of its steps.
//!
//! One process takes a lock, finds a condition false and goes to sleep on a
//! channel; a waker on another hart takes the same lock, makes the condition
//! true, releases the lock and wakes the channel. Each of the two advances by
//! single steps: one lock taken or released, or one change under a lock. A
//! step that needs a lock which is held does not happen. What the steps do to
//! the shared state is what `sleep`, `scheduler_resume`, `scheduler`, `wakeup`
//! and `wait_for_sleeper` do to it: their contracts say so in terms of the
//! functions of this file. The steps that are left are those of `Mutex::lock`
//! and `Mutex::unlock` on the lock of the condition, and of `sleep_done`.

use vstd::prelude::*;
use crate::process::pool::Kernel;
use crate::process::pool::ProcInPool;
use crate::process::process::Process;
use crate::process::process::ProcessState;

verus! {

/// What the slot of the sleeper's pid holds.
#[derive(PartialEq, Eq, Structural, Clone, Copy)]
pub enum SlotKind {
    NoProc,
    Pooling,
    Scheduled,
    BeingSlept,
}

/// What sleeper and waker share: the sleeper's slot and process, and who
/// holds the three locks (a hart's number, or -1).
pub struct Shared {
    pub slot: SlotKind,
    pub state: ProcessState,
    pub channel: usize,
    /// The process carries the guard of the sleep lock.
    pub stash: bool,
    /// The lock that protects the condition.
    pub cond_lock: int,
    pub pool_lock: int,
    pub sleep_lock: int,
}

impl Shared {
    /// The process is marked as sleeping on `channel`.
    pub open spec fn mark(self, channel: usize) -> Shared {
        Shared { state: ProcessState::SLEEPING, channel, ..self }
    }

    /// Hart `hart` takes the pool lock.
    pub open spec fn lock_pool(self, hart: int) -> Shared {
        Shared { pool_lock: hart, ..self }
    }

    /// The pool lock is released.
    pub open spec fn unlock_pool(self) -> Shared {
        Shared { pool_lock: -1, ..self }
    }

    /// The slot goes from scheduled to being slept.
    pub open spec fn commit(self) -> Shared {
        Shared { slot: SlotKind::BeingSlept, ..self }
    }

    /// Hart `hart` takes the sleep lock and stashes its guard in the process.
    pub open spec fn stash_sleep_lock(self, hart: int) -> Shared {
        Shared { sleep_lock: hart, stash: true, ..self }
    }

    /// Hart `hart` takes the lock of the condition.
    pub open spec fn lock_cond(self, hart: int) -> Shared {
        Shared { cond_lock: hart, ..self }
    }

    /// The lock of the condition is released.
    pub open spec fn unlock_cond(self) -> Shared {
        Shared { cond_lock: -1, ..self }
    }

    /// The scheduler releases the stashed guard of the sleep lock.
    pub open spec fn drop_stash(self) -> Shared {
        Shared { sleep_lock: -1, stash: false, ..self }
    }

    /// The process rests in its slot.
    pub open spec fn put_back(self) -> Shared {
        Shared { slot: SlotKind::Pooling, ..self }
    }

    /// A scheduler takes the process out of the pool to run it.
    pub open spec fn pick(self) -> Shared {
        Shared { slot: SlotKind::Scheduled, state: ProcessState::RUNNING, ..self }
    }

    /// The process waits for nothing any more.
    pub open spec fn clear_channel(self) -> Shared {
        Shared { channel: 0, ..self }
    }

    /// A waker on `channel` looks at the slot.
    pub open spec fn wake(self, channel: usize) -> Shared {
        if self.slot == SlotKind::Pooling && self.state == ProcessState::SLEEPING && self.channel
            == channel {
            Shared { state: ProcessState::RUNNABLE, ..self }
        } else {
            self
        }
    }

    /// Hart `hart` takes the sleep lock.
    pub open spec fn lock_sleep(self, hart: int) -> Shared {
        Shared { sleep_lock: hart, ..self }
    }

    /// The sleep lock is released.
    pub open spec fn unlock_sleep(self) -> Shared {
        Shared { sleep_lock: -1, ..self }
    }

    /// What the sleeper does up to its wait for the sleep lock, step by step.
    pub open spec fn commit_sleep(self, channel: usize, hart: int) -> Shared {
        self.mark(channel).lock_pool(hart).commit().unlock_pool()
    }

    /// What the sleeper's half before the switch does, step by step.
    pub open spec fn sleep(self, channel: usize, hart: int) -> Shared {
        self.commit_sleep(channel, hart).stash_sleep_lock(hart).unlock_cond()
    }

    /// What the scheduler does with a process that switched back to it and
    /// goes on living, step by step.
    pub open spec fn resume(self, hart: int) -> Shared {
        let dropped = if self.stash {
            self.drop_stash()
        } else {
            self
        };
        dropped.lock_pool(hart).put_back().unlock_pool()
    }

    /// What a waker's walk does when it gets past the slot, step by step.
    pub open spec fn wakeup(self, channel: usize, hart: int) -> Shared {
        self.lock_pool(hart).wake(channel).unlock_pool()
    }
}

/// The kind of what a slot of the pool holds.
pub open spec fn kind(slot: ProcInPool) -> SlotKind {
    match slot {
        ProcInPool::NoProc => SlotKind::NoProc,
        ProcInPool::Pooling(_) => SlotKind::Pooling,
        ProcInPool::Scheduled => SlotKind::Scheduled,
        ProcInPool::BeingSlept => SlotKind::BeingSlept,
    }
}

/// The shared state of a handoff as the kernel holds it: for the process
/// `p`, which rests in the pool or is out on a hart, and a lock of the
/// condition that `cond_lock` holds.
pub open spec fn view(k: Kernel, p: Process, cond_lock: int) -> Shared {
    Shared {
        slot: kind(k.pool.data@[p.pid as int]),
        state: p.state,
        channel: p.channel,
        stash: p.drop_on_put_back is Some,
        cond_lock,
        pool_lock: k.pool.holder(),
        sleep_lock: k.pool_sleep.holder(),
    }
}

/// Where the sleeper stands.
#[derive(PartialEq, Eq, Structural, Clone, Copy)]
pub enum Sleeper {
    /// About to take the lock of the condition.
    Idle,
    /// Holds the lock; about to look at the condition.
    Check,
    /// Found the condition false; about to mark itself as sleeping.
    Mark,
    /// About to take the pool lock.
    PoolLock,
    /// About to change its slot to being slept.
    Commit,
    /// About to release the pool lock.
    PoolUnlock,
    /// About to take the sleep lock and stash its guard.
    SleepLock,
    /// About to release the lock of the condition.
    Release,
    /// About to switch to the scheduler.
    Switch,
    /// The scheduler is about to release the stashed guard.
    Unstash,
    /// The scheduler is about to take the pool lock.
    PutLock,
    /// The scheduler is about to put the process into its slot.
    PutBack,
    /// The scheduler is about to release the pool lock.
    PutUnlock,
    /// The process rests in the pool until a scheduler picks it.
    Resting,
    /// Runs again; about to clear its channel.
    Wake,
    /// About to take the lock of the condition again.
    Reacquire,
    /// Found the condition true and went on.
    Done,
}

/// Where the waker stands.
#[derive(PartialEq, Eq, Structural, Clone, Copy)]
pub enum Waker {
    /// About to take the lock of the condition.
    Idle,
    /// About to make the condition true.
    Signal,
    /// About to release the lock of the condition.
    Release,
    /// About to take the pool lock.
    PoolLock,
    /// Holds the pool lock; about to look at the sleeper's slot.
    Scan,
    /// Found the slot being slept; about to take the sleep lock.
    SleepLock,
    /// About to release the sleep lock, and then to look again.
    SleepUnlock,
    /// Got past the slot; about to release the pool lock.
    PoolUnlock,
    /// The wakeup has returned.
    Done,
}

/// The whole state of the handoff.
pub struct World {
    pub shared: Shared,
    /// The condition that the sleeper waits for.
    pub cond: bool,
    pub sleeper: Sleeper,
    pub waker: Waker,
}

/// The hart of the sleeper and of the scheduler that it switches to.
pub open spec fn sleeper_hart() -> int {
    0
}

/// The hart of the waker.
pub open spec fn waker_hart() -> int {
    1
}

/// The start: the process runs, the condition is false, the locks are free.
pub open spec fn start() -> World {
    World {
        shared: Shared {
            slot: SlotKind::Scheduled,
            state: ProcessState::RUNNING,
            channel: 0,
            stash: false,
            cond_lock: -1,
            pool_lock: -1,
            sleep_lock: -1,
        },
        cond: false,
        sleeper: Sleeper::Idle,
        waker: Waker::Idle,
    }
}

/// The sleeper's next step, if it can take one.
pub open spec fn sleeper_step(w: World, channel: usize) -> Option<World> {
    let s = w.shared;
    let h = sleeper_hart();
    match w.sleeper {
        Sleeper::Idle => if s.cond_lock == -1 {
            Some(World { shared: s.lock_cond(h), sleeper: Sleeper::Check, ..w })
        } else {
            None
        },
        Sleeper::Check => if w.cond {
            Some(World { shared: s.unlock_cond(), sleeper: Sleeper::Done, ..w })
        } else {
            Some(World { sleeper: Sleeper::Mark, ..w })
        },
        Sleeper::Mark => Some(World { shared: s.mark(channel), sleeper: Sleeper::PoolLock, ..w }),
        Sleeper::PoolLock => if s.pool_lock == -1 {
            Some(World { shared: s.lock_pool(h), sleeper: Sleeper::Commit, ..w })
        } else {
            None
        },
        Sleeper::Commit => Some(World { shared: s.commit(), sleeper: Sleeper::PoolUnlock, ..w }),
        Sleeper::PoolUnlock => Some(
            World { shared: s.unlock_pool(), sleeper: Sleeper::SleepLock, ..w },
        ),
        Sleeper::SleepLock => if s.sleep_lock == -1 {
            Some(World { shared: s.stash_sleep_lock(h), sleeper: Sleeper::Release, ..w })
        } else {
            None
        },
        Sleeper::Release => Some(World { shared: s.unlock_cond(), sleeper: Sleeper::Switch, ..w }),
        Sleeper::Switch => Some(World { sleeper: Sleeper::Unstash, ..w }),
        Sleeper::Unstash => Some(World { shared: s.drop_stash(), sleeper: Sleeper::PutLock, ..w }),
        Sleeper::PutLock => if s.pool_lock == -1 {
            Some(World { shared: s.lock_pool(h), sleeper: Sleeper::PutBack, ..w })
        } else {
            None
        },
        Sleeper::PutBack => Some(World { shared: s.put_back(), sleeper: Sleeper::PutUnlock, ..w }),
        Sleeper::PutUnlock => Some(
            World { shared: s.unlock_pool(), sleeper: Sleeper::Resting, ..w },
        ),
        Sleeper::Resting => if s.pool_lock == -1 && s.state == ProcessState::RUNNABLE {
            Some(World { shared: s.pick(), sleeper: Sleeper::Wake, ..w })
        } else {
            None
        },
        Sleeper::Wake => Some(
            World { shared: s.clear_channel(), sleeper: Sleeper::Reacquire, ..w },
        ),
        Sleeper::Reacquire => if s.cond_lock == -1 {
            Some(World { shared: s.lock_cond(h), sleeper: Sleeper::Check, ..w })
        } else {
            None
        },
        Sleeper::Done => None,
    }
}

/// The waker's next step, if it can take one.
pub open spec fn waker_step(w: World, channel: usize) -> Option<World> {
    let s = w.shared;
    let h = waker_hart();
    match w.waker {
        Waker::Idle => if s.cond_lock == -1 {
            Some(World { shared: s.lock_cond(h), waker: Waker::Signal, ..w })
        } else {
            None
        },
        Waker::Signal => Some(World { cond: true, waker: Waker::Release, ..w }),
        Waker::Release => Some(World { shared: s.unlock_cond(), waker: Waker::PoolLock, ..w }),
        Waker::PoolLock => if s.pool_lock == -1 {
            Some(World { shared: s.lock_pool(h), waker: Waker::Scan, ..w })
        } else {
            None
        },
        Waker::Scan => if s.slot == SlotKind::BeingSlept {
            Some(World { shared: s.unlock_pool(), waker: Waker::SleepLock, ..w })
        } else {
            Some(World { shared: s.wake(channel), waker: Waker::PoolUnlock, ..w })
        },
        Waker::SleepLock => if s.sleep_lock == -1 {
            Some(World { shared: s.lock_sleep(h), waker: Waker::SleepUnlock, ..w })
        } else {
            None
        },
        Waker::SleepUnlock => Some(
            World { shared: s.unlock_sleep(), waker: Waker::PoolLock, ..w },
        ),
        Waker::PoolUnlock => Some(World { shared: s.unlock_pool(), waker: Waker::Done, ..w }),
        Waker::Done => None,
    }
}

/// One step of the handoff: the sleeper's or the waker's.
pub open spec fn next(w: World, after: World, channel: usize) -> bool {
    sleeper_step(w, channel) == Some(after) || waker_step(w, channel) == Some(after)
}

/// The sleeper has decided to sleep and not yet given up the condition's lock.
pub open spec fn committing(at: Sleeper) -> bool {
    at == Sleeper::Mark || at == Sleeper::PoolLock || at == Sleeper::Commit || at
        == Sleeper::PoolUnlock || at == Sleeper::SleepLock || at == Sleeper::Release
}

/// The sleeper has left its hart, or is leaving it: only a wakeup brings it back.
pub open spec fn away(at: Sleeper) -> bool {
    at == Sleeper::Switch || at == Sleeper::Unstash || at == Sleeper::PutLock || at
        == Sleeper::PutBack || at == Sleeper::PutUnlock || at == Sleeper::Resting
}

/// The wakeup is lost: the waker has returned, and the sleeper sleeps or is
/// about to, with nobody left to wake it.
pub open spec fn lost(w: World) -> bool {
    &&& w.waker == Waker::Done
    &&& committing(w.sleeper) || away(w.sleeper)
    &&& w.shared.state == ProcessState::SLEEPING
}

/// What holds in every state that the handoff reaches.
pub open spec fn inv(w: World, channel: usize) -> bool {
    let s = w.shared;
    let a = w.sleeper;
    let b = w.waker;
    // who holds the lock of the condition
    &&& s.cond_lock == sleeper_hart() <==> a == Sleeper::Check || committing(a)
    &&& s.cond_lock == waker_hart() <==> b == Waker::Signal || b == Waker::Release
    &&& s.cond_lock == -1 || s.cond_lock == sleeper_hart() || s.cond_lock == waker_hart()
    // who holds the pool lock
    &&& s.pool_lock == sleeper_hart() <==> a == Sleeper::Commit || a == Sleeper::PoolUnlock || a
        == Sleeper::PutBack || a == Sleeper::PutUnlock
    &&& s.pool_lock == waker_hart() <==> b == Waker::Scan || b == Waker::PoolUnlock
    &&& s.pool_lock == -1 || s.pool_lock == sleeper_hart() || s.pool_lock == waker_hart()
    // who holds the sleep lock
    &&& s.sleep_lock == sleeper_hart() <==> a == Sleeper::Release || a == Sleeper::Switch || a
        == Sleeper::Unstash
    &&& s.sleep_lock == waker_hart() <==> b == Waker::SleepUnlock
    &&& s.sleep_lock == -1 || s.sleep_lock == sleeper_hart() || s.sleep_lock == waker_hart()
    &&& s.stash <==> s.sleep_lock == sleeper_hart()
    // the slot follows the sleeper
    &&& s.slot == SlotKind::BeingSlept <==> a == Sleeper::PoolUnlock || a == Sleeper::SleepLock
        || a == Sleeper::Release || a == Sleeper::Switch || a == Sleeper::Unstash || a
        == Sleeper::PutLock || a == Sleeper::PutBack
    &&& s.slot == SlotKind::Pooling <==> a == Sleeper::PutUnlock || a == Sleeper::Resting
    &&& s.slot != SlotKind::NoProc
    // the process's state and channel follow the sleeper
    &&& (committing(a) && a != Sleeper::Mark) || away(a) ==> s.channel == channel && (s.state
        == ProcessState::SLEEPING || s.state == ProcessState::RUNNABLE)
    &&& s.state == ProcessState::RUNNABLE ==> a == Sleeper::PutUnlock || a == Sleeper::Resting
    // the condition is set once, by the waker, under the lock
    &&& w.cond <==> b != Waker::Idle && b != Waker::Signal
    // a sleeper that decided to sleep did so before the waker had the lock
    &&& committing(a) ==> b == Waker::Idle
    // once the waker is past the slot, the sleeper is awake or woken
    &&& b == Waker::PoolUnlock || b == Waker::Done ==> !away(a) || s.state
        == ProcessState::RUNNABLE
}

/// The handoff starts in a state that the invariant holds of.
pub proof fn lemma_start(channel: usize)
    ensures
        inv(start(), channel),
{
}

/// Every step keeps the invariant.
pub proof fn lemma_step(w: World, after: World, channel: usize)
    requires
        inv(w, channel),
        next(w, after, channel),
    ensures
        inv(after, channel),
{
}

/// No wakeup is lost: where the invariant holds, the waker has not returned
/// while the sleeper sleeps unwoken.
pub proof fn lemma_not_lost(w: World, channel: usize)
    requires
        inv(w, channel),
    ensures
        !lost(w),
{
}

/// `trace` is a run of the handoff: it begins at the start, and each state
/// follows from the one before it by one step of the sleeper or of the waker.
pub open spec fn is_run(trace: Seq<World>, channel: usize) -> bool {
    &&& trace.len() > 0
    &&& trace[0] == start()
    &&& forall|i: int| 0 <= i < trace.len() - 1 ==> next(#[trigger] trace[i], trace[i + 1], channel)
}

/// Lost-wakeup freedom: in no interleaving of the sleeper's and the waker's
/// steps is there a moment at which the wakeup is lost.
pub proof fn lemma_no_lost_wakeup(trace: Seq<World>, channel: usize, at: int)
    requires
        is_run(trace, channel),
        0 <= at < trace.len(),
    ensures
        inv(trace[at], channel),
        !lost(trace[at]),
    decreases at,
{
    if at == 0 {
        lemma_start(channel);
    } else {
        lemma_no_lost_wakeup(trace, channel, at - 1);
        assert(next(trace[at - 1], trace[at - 1 + 1], channel));
        lemma_step(trace[at - 1], trace[at], channel);
    }
    lemma_not_lost(trace[at], channel);
}

/// How many steps the sleeper is from going on, once the waker has returned.
pub open spec fn distance(w: World) -> int {
    match w.sleeper {
        Sleeper::Done => 0,
        Sleeper::Check => 1,
        Sleeper::Idle => 2,
        Sleeper::Reacquire => 2,
        Sleeper::Wake => 3,
        Sleeper::Resting => 4,
        Sleeper::PutUnlock => 5,
        Sleeper::PutBack => 6,
        Sleeper::PutLock => 7,
        Sleeper::Unstash => 8,
        Sleeper::Switch => 9,
        _ => 10,
    }
}

/// The sleeper proceeds: once the waker has returned, the sleeper can always
/// take its next step, and each step brings it nearer to going on with the
/// condition true. It re-evaluates the condition under the lock on the way.
pub proof fn lemma_sleeper_proceeds(w: World, channel: usize)
    requires
        inv(w, channel),
        w.waker == Waker::Done,
        w.sleeper != Sleeper::Done,
    ensures
        sleeper_step(w, channel) is Some,
        distance(sleeper_step(w, channel)->0) < distance(w),
        sleeper_step(w, channel)->0.sleeper == Sleeper::Done ==> w.sleeper == Sleeper::Check
            && w.cond,
{
}

/// How many steps the waker is from returning, once the sleeper rests in
/// the pool or has gone on.
pub open spec fn waker_distance(w: World) -> int {
    match w.waker {
        Waker::Done => 0,
        Waker::PoolUnlock => 1,
        Waker::Scan => 2,
        Waker::PoolLock => 3,
        Waker::SleepUnlock => 4,
        Waker::SleepLock => 5,
        Waker::Release => 4,
        Waker::Signal => 5,
        Waker::Idle => 6,
    }
}

/// The waker returns: once the sleeper rests in the pool or has gone on, the
/// waker can always take its next step, and each step brings it nearer to
/// its return.
pub proof fn lemma_waker_proceeds(w: World, channel: usize)
    requires
        inv(w, channel),
        w.sleeper == Sleeper::Resting || w.sleeper == Sleeper::Done,
        w.waker != Waker::Done,
    ensures
        waker_step(w, channel) is Some,
        waker_distance(waker_step(w, channel)->0) < waker_distance(w),
{
}

/// The handoff never gets stuck: until sleeper and waker are both through,
/// one of them can take a step.
pub proof fn lemma_no_deadlock(w: World, channel: usize)
    requires
        inv(w, channel),
        !(w.sleeper == Sleeper::Done && w.waker == Waker::Done),
    ensures
        sleeper_step(w, channel) is Some || waker_step(w, channel) is Some,
{
}

} // verus!
