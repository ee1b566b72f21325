//! A spinlock that keeps its holder's hart from being interrupted.
//!
//! Taking the lock first enters a critical section of the hart's interrupt
//! guard and then sets the lock word; releasing it clears the owner, clears
//! the lock word and leaves the critical section, in that order.

use vstd::prelude::*;
use crate::process::cpu::Cpu;
use crate::process::cpu::IntrLock;

verus! {

/// A lock word with the data it protects.
pub struct Mutex<T> {
    /// 1 while the lock is held, else 0.
    pub lock: u32,
    /// The lock's name: it tells the locks of the kernel apart.
    pub name: &'static str,
    /// The hart that holds the lock, or -1.
    pub hart: i64,
    /// The protected data.
    pub data: T,
}

/// Proof of a taken lock: names the lock and the hart that took it.
///
/// The lock is released by handing the guard back to `Mutex::unlock`.
pub struct MutexGuard {
    pub name: &'static str,
    pub hart: usize,
}

/// What is left of a guard whose lock was released for a while: the lock's
/// name, by which it is taken again.
pub struct WeakMutexGuard {
    pub name: &'static str,
}

impl<T> Mutex<T> {
    /// The lock is held.
    pub open spec fn is_locked(&self) -> bool {
        self.lock == 1
    }

    /// The lock is held by hart `hart`.
    pub open spec fn held_by(&self, hart: int) -> bool {
        self.lock == 1 && self.hart == hart
    }

    /// The hart that holds the lock, or -1.
    pub open spec fn holder(&self) -> int {
        if self.lock == 1 {
            self.hart as int
        } else {
            -1
        }
    }

    /// The lock word is 0 or 1, and a free lock has no owner.
    pub open spec fn wf(&self) -> bool {
        &&& self.lock == 0 || self.lock == 1
        &&& self.lock == 0 ==> self.hart == -1
        &&& self.lock == 1 ==> 0 <= self.hart < crate::process::cpu::NCPUS
    }

    /// `guard` is the guard under which this lock is held now.
    pub open spec fn guarded_by(&self, guard: MutexGuard) -> bool {
        &&& self.held_by(guard.hart as int)
        &&& guard.name@ == self.name@
    }

    /// A free lock around `user_data`.
    pub fn new(user_data: T, name: &'static str) -> (m: Mutex<T>)
        ensures
            m.lock == 0,
            m.hart == -1,
            m.name == name,
            m.data == user_data,
            m.wf(),
    {
        Mutex { lock: 0, data: user_data, hart: -1, name }
    }

    /// Consumes the lock and gives the data back.
    pub fn into_inner(self) -> (data: T)
        ensures
            data == self.data,
    {
        let Mutex { data, .. } = self;
        data
    }

    /// Whether this hart holds the lock.
    pub fn holding(&self, cpu: &Cpu) -> (r: bool)
        requires
            cpu.wf(),
        ensures
            r == self.held_by(cpu.id as int),
    {
        self.lock == 1 && self.hart == cpu.id as i64
    }

    /// One attempt to take the lock.
    ///
    /// On a free lock: the hart enters a critical section, the lock word is
    /// set, the hart is recorded as owner, and the guard is returned. On a lock
    /// that another hart holds the attempt leaves everything as it was and
    /// returns `None`: the caller spins by trying again. A hart must not try
    /// for a lock that it holds itself.
    pub fn lock(&mut self, cpu: &mut Cpu) -> (r: Option<MutexGuard>)
        requires
            old(self).wf(),
            old(cpu).wf(),
            !old(self).held_by(old(cpu).id as int),
            old(cpu).intr_lock.depth < usize::MAX,
        ensures
            final(self).wf(),
            final(cpu).wf(),
            final(cpu).id == old(cpu).id,
            final(cpu).process == old(cpu).process,
            final(self).name == old(self).name,
            final(self).data == old(self).data,
            old(self).is_locked() ==> {
                &&& r is None
                &&& *final(self) == *old(self)
                &&& *final(cpu) == *old(cpu)
            },
            !old(self).is_locked() ==> {
                &&& r is Some
                &&& r->0.hart == old(cpu).id
                &&& r->0.name == old(self).name
                &&& final(self).guarded_by(r->0)
                &&& final(self).holder() == old(cpu).id
                &&& final(cpu).intr_lock == old(cpu).intr_lock.pushed()
            },
    {
        if self.lock != 0 {
            return None;
        }
        cpu.intr_lock.lock();
        self.lock = 1;
        self.hart = cpu.id as i64;
        Some(MutexGuard { name: self.name, hart: cpu.id })
    }

    /// Releases the lock: the owner is cleared, then the lock word, and then
    /// the hart leaves the critical section that `lock` entered.
    ///
    /// Only the hart that holds the lock may release it.
    pub fn unlock(&mut self, cpu: &mut Cpu, guard: MutexGuard)
        requires
            old(self).wf(),
            old(cpu).wf(),
            old(self).held_by(old(cpu).id as int),
            old(self).guarded_by(guard),
            old(cpu).intr_lock.depth > 0,
        ensures
            final(self).wf(),
            final(cpu).wf(),
            final(cpu).id == old(cpu).id,
            final(cpu).process == old(cpu).process,
            final(self).lock == 0,
            final(self).hart == -1,
            final(self).holder() == -1,
            final(self).name == old(self).name,
            final(self).data == old(self).data,
            final(cpu).intr_lock == old(cpu).intr_lock.popped(),
    {
        self.hart = -1;
        self.lock = 0;
        cpu.intr_lock.unlock();
    }

    /// The protected data, for the holder of the guard.
    pub fn get(&self, guard: &MutexGuard) -> (data: &T)
        requires
            self.guarded_by(*guard),
        ensures
            *data == self.data,
    {
        &self.data
    }

    /// The protected data, to be changed by the holder of the guard.
    pub fn get_mut(&mut self, guard: &MutexGuard) -> (data: &mut T)
        requires
            old(self).guarded_by(*guard),
        ensures
            *data == old(self).data,
            final(self).data == *final(data),
            final(self).lock == old(self).lock,
            final(self).hart == old(self).hart,
            final(self).name == old(self).name,
    {
        &mut self.data
    }
}

impl<T> Mutex<T> {
    /// Whether some hart holds the lock.
    pub fn locked(&self) -> (r: bool)
        requires
            self.wf(),
        ensures
            r == self.is_locked(),
    {
        self.lock != 0
    }
}

impl MutexGuard {
    /// Releases the lock as `Mutex::unlock` does and keeps the lock's name,
    /// by which `into_guard` takes the lock again.
    pub fn into_weak<T>(self, mutex: &mut Mutex<T>, cpu: &mut Cpu) -> (weak: WeakMutexGuard)
        requires
            old(mutex).wf(),
            old(cpu).wf(),
            old(mutex).held_by(old(cpu).id as int),
            old(mutex).guarded_by(self),
            old(cpu).intr_lock.depth > 0,
        ensures
            weak.name == self.name,
            final(mutex).wf(),
            final(cpu).wf(),
            final(cpu).id == old(cpu).id,
            final(cpu).process == old(cpu).process,
            final(mutex).lock == 0,
            final(mutex).hart == -1,
            final(mutex).name == old(mutex).name,
            final(mutex).data == old(mutex).data,
            final(cpu).intr_lock == old(cpu).intr_lock.popped(),
    {
        let name = self.name;
        mutex.unlock(cpu, self);
        WeakMutexGuard { name }
    }
}

impl WeakMutexGuard {
    /// One attempt to take the lock again, as `Mutex::lock` does: the guard on
    /// a free lock, the weak guard back on a lock that another hart holds.
    pub fn into_guard<T>(self, mutex: &mut Mutex<T>, cpu: &mut Cpu) -> (r: Result<
        MutexGuard,
        WeakMutexGuard,
    >)
        requires
            old(mutex).wf(),
            old(cpu).wf(),
            self.name@ == old(mutex).name@,
            !old(mutex).held_by(old(cpu).id as int),
            old(cpu).intr_lock.depth < usize::MAX,
        ensures
            final(mutex).wf(),
            final(cpu).wf(),
            final(cpu).id == old(cpu).id,
            final(cpu).process == old(cpu).process,
            final(mutex).name == old(mutex).name,
            final(mutex).data == old(mutex).data,
            old(mutex).is_locked() ==> {
                &&& r == Err::<MutexGuard, WeakMutexGuard>(self)
                &&& *final(mutex) == *old(mutex)
                &&& *final(cpu) == *old(cpu)
            },
            !old(mutex).is_locked() ==> {
                &&& r is Ok
                &&& r->Ok_0.hart == old(cpu).id
                &&& final(mutex).guarded_by(r->Ok_0)
                &&& final(cpu).intr_lock == old(cpu).intr_lock.pushed()
            },
    {
        match mutex.lock(cpu) {
            Some(guard) => Ok(guard),
            None => Err(self),
        }
    }
}

/// How many of the locks hart `hart` holds, where `holders` lists for each
/// lock the hart that holds it, or -1.
pub open spec fn held(holders: Seq<int>, hart: int) -> nat
    decreases holders.len(),
{
    if holders.len() == 0 {
        0
    } else {
        held(holders.drop_last(), hart) + if holders.last() == hart {
            1nat
        } else {
            0nat
        }
    }
}

/// Each hart's interrupt guard is sound and has at least as many critical
/// sections open as the hart holds locks; each lock is free or held by one
/// of the harts.
pub open spec fn accounted(holders: Seq<int>, guards: Seq<IntrLock>) -> bool {
    &&& forall|l: int| 0 <= l < holders.len() ==> -1 <= #[trigger] holders[l] < guards.len()
    &&& forall|h: int|
        0 <= h < guards.len() ==> (#[trigger] guards[h]).wf() && guards[h].depth >= held(
            holders,
            h,
        )
}

/// What a change of one lock's holder does to a hart's count.
proof fn lemma_held_update(holders: Seq<int>, l: int, to: int, hart: int)
    requires
        0 <= l < holders.len(),
    ensures
        held(holders.update(l, to), hart) == held(holders, hart) - (if holders[l] == hart {
            1int
        } else {
            0int
        }) + (if to == hart {
            1int
        } else {
            0int
        }),
    decreases holders.len(),
{
    let after = holders.update(l, to);
    if l == holders.len() - 1 {
        assert(after.drop_last() =~= holders.drop_last());
    } else {
        assert(after.drop_last() =~= holders.drop_last().update(l, to));
        lemma_held_update(holders.drop_last(), l, to, hart);
    }
}

/// A hart that holds a lock is counted.
proof fn lemma_held_positive(holders: Seq<int>, l: int)
    requires
        0 <= l < holders.len(),
    ensures
        held(holders, holders[l]) >= 1,
    decreases holders.len(),
{
    if l < holders.len() - 1 {
        lemma_held_positive(holders.drop_last(), l);
    }
}

/// Taking a free lock, as `Mutex::lock` does it, keeps the account: the
/// lock gets its holder, and the holder's guard one more critical section.
pub proof fn lemma_lock_keeps_account(holders: Seq<int>, guards: Seq<IntrLock>, l: int, hart: int)
    requires
        accounted(holders, guards),
        0 <= l < holders.len(),
        0 <= hart < guards.len(),
        holders[l] == -1,
        guards[hart].depth < usize::MAX,
    ensures
        accounted(holders.update(l, hart), guards.update(hart, guards[hart].pushed())),
{
    let holders_after = holders.update(l, hart);
    let guards_after = guards.update(hart, guards[hart].pushed());
    assert forall|h: int| 0 <= h < guards_after.len() implies (#[trigger] guards_after[h]).wf()
        && guards_after[h].depth >= held(holders_after, h) by {
        lemma_held_update(holders, l, hart, h);
        assert(guards[h].wf());
    }
}

/// Releasing a lock, as `Mutex::unlock` does it, keeps the account: the
/// lock is free, and its holder's guard has one critical section less.
pub proof fn lemma_unlock_keeps_account(holders: Seq<int>, guards: Seq<IntrLock>, l: int)
    requires
        accounted(holders, guards),
        0 <= l < holders.len(),
        holders[l] != -1,
    ensures
        guards[holders[l]].depth > 0,
        accounted(holders.update(l, -1), guards.update(holders[l], guards[holders[l]].popped())),
{
    let hart = holders[l];
    let holders_after = holders.update(l, -1);
    let guards_after = guards.update(hart, guards[hart].popped());
    lemma_held_positive(holders, l);
    assert(guards[hart].wf());
    assert forall|h: int| 0 <= h < guards_after.len() implies (#[trigger] guards_after[h]).wf()
        && guards_after[h].depth >= held(holders_after, h) by {
        lemma_held_update(holders, l, -1, h);
        assert(guards[h].wf());
    }
}

/// While a hart holds any lock, external interrupts are off on it.
pub proof fn lemma_holder_runs_uninterrupted(holders: Seq<int>, guards: Seq<IntrLock>, l: int)
    requires
        accounted(holders, guards),
        0 <= l < holders.len(),
        holders[l] != -1,
    ensures
        !guards[holders[l]].enabled,
        guards[holders[l]].depth > 0,
{
    lemma_held_positive(holders, l);
    assert(guards[holders[l]].wf());
}

/// Switching interrupts on where no critical section is open, as
/// `IntrLock::intr_on` asks, keeps the account: a hart that holds a lock
/// cannot be the one.
pub proof fn lemma_intr_on_keeps_account(holders: Seq<int>, guards: Seq<IntrLock>, hart: int)
    requires
        accounted(holders, guards),
        0 <= hart < guards.len(),
        guards[hart].depth == 0,
    ensures
        accounted(holders, guards.update(hart, IntrLock { enabled: true, ..guards[hart] })),
        forall|l: int| 0 <= l < holders.len() ==> holders[l] != hart,
{
    let after = guards.update(hart, IntrLock { enabled: true, ..guards[hart] });
    assert forall|h: int| 0 <= h < after.len() implies (#[trigger] after[h]).wf() && after[h].depth
        >= held(holders, h) by {
        assert(guards[h].wf());
    }
    assert forall|l: int| 0 <= l < holders.len() implies holders[l] != hart by {
        if holders[l] == hart {
            lemma_held_positive(holders, l);
            assert(guards[hart].wf());
        }
    }
}

} // verus!
