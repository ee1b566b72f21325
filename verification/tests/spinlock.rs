use kernel::process::cpu::{Cpu, IntrLock};
use kernel::spinlock::Mutex;

fn hart(id: usize, interrupts: bool) -> Cpu {
    let mut cpu = Cpu::new(id);
    cpu.intr_lock = IntrLock::new(interrupts);
    cpu
}

#[test]
fn interrupt_guard_counts_critical_sections() {
    let mut g = IntrLock::new(true);
    assert!(g.enabled);
    assert_eq!(g.depth, 0);
    g.lock();
    assert!(!g.enabled);
    assert_eq!(g.depth, 1);
    assert!(g.was_enabled);
    g.lock();
    assert!(!g.enabled);
    assert_eq!(g.depth, 2);
    assert!(g.was_enabled);
    g.unlock();
    assert!(!g.enabled);
    assert_eq!(g.depth, 1);
    g.unlock();
    assert!(g.enabled);
    assert_eq!(g.depth, 0);
    assert!(!g.was_enabled);
}

#[test]
fn interrupt_guard_leaves_interrupts_off_when_they_were_off() {
    let mut g = IntrLock::new(false);
    g.lock();
    assert!(!g.enabled);
    assert!(!g.was_enabled);
    g.unlock();
    assert!(!g.enabled);
    assert_eq!(g.depth, 0);
}

#[test]
fn interrupts_switch_on_and_off() {
    let mut g = IntrLock::new(false);
    g.intr_on();
    assert!(g.enabled);
    g.intr_off();
    assert!(!g.enabled);
    assert_eq!(g.depth, 0);
}

#[test]
fn new_mutex_is_free() {
    let m = Mutex::new(7u32, "seven");
    assert_eq!(m.lock, 0);
    assert_eq!(m.hart, -1);
    assert_eq!(m.name, "seven");
    assert_eq!(m.data, 7);
    assert!(!m.locked());
}

#[test]
fn into_inner_gives_the_data_back() {
    let m = Mutex::new(vec![1, 2, 3], "v");
    assert_eq!(m.into_inner(), vec![1, 2, 3]);
}

#[test]
fn lock_records_the_hart_and_disables_interrupts() {
    let mut cpu = hart(3, true);
    let mut m = Mutex::new(0u8, "m");
    let guard = m.lock(&mut cpu).unwrap();
    assert_eq!(m.lock, 1);
    assert_eq!(m.hart, 3);
    assert!(m.locked());
    assert!(m.holding(&cpu));
    assert_eq!(guard.hart, 3);
    assert_eq!(guard.name, "m");
    assert!(!cpu.intr_lock.enabled);
    assert_eq!(cpu.intr_lock.depth, 1);
    m.unlock(&mut cpu, guard);
    assert_eq!(m.lock, 0);
    assert_eq!(m.hart, -1);
    assert!(!m.holding(&cpu));
    assert!(cpu.intr_lock.enabled);
    assert_eq!(cpu.intr_lock.depth, 0);
}

#[test]
fn nested_locks_keep_interrupts_off_until_the_last_release() {
    let mut cpu = hart(0, true);
    let mut a = Mutex::new((), "a");
    let mut b = Mutex::new((), "b");
    let ga = a.lock(&mut cpu).unwrap();
    assert!(!cpu.intr_lock.enabled);
    let gb = b.lock(&mut cpu).unwrap();
    assert!(!cpu.intr_lock.enabled);
    assert_eq!(cpu.intr_lock.depth, 2);
    b.unlock(&mut cpu, gb);
    assert!(!cpu.intr_lock.enabled);
    assert_eq!(cpu.intr_lock.depth, 1);
    a.unlock(&mut cpu, ga);
    assert!(cpu.intr_lock.enabled);
    assert_eq!(cpu.intr_lock.depth, 0);
}

#[test]
fn nested_locks_restore_disabled_interrupts() {
    let mut cpu = hart(0, false);
    let mut a = Mutex::new((), "a");
    let mut b = Mutex::new((), "b");
    let ga = a.lock(&mut cpu).unwrap();
    let gb = b.lock(&mut cpu).unwrap();
    b.unlock(&mut cpu, gb);
    a.unlock(&mut cpu, ga);
    assert!(!cpu.intr_lock.enabled);
    assert_eq!(cpu.intr_lock.depth, 0);
}

#[test]
fn a_held_lock_turns_another_hart_away_unchanged() {
    let mut one = hart(1, true);
    let mut two = hart(2, true);
    let mut m = Mutex::new(5u32, "m");
    let guard = m.lock(&mut one).unwrap();
    assert!(m.lock(&mut two).is_none());
    assert_eq!(m.hart, 1);
    assert_eq!(m.lock, 1);
    assert!(two.intr_lock.enabled);
    assert_eq!(two.intr_lock.depth, 0);
    assert!(!m.holding(&two));
    m.unlock(&mut one, guard);
    let guard = m.lock(&mut two).unwrap();
    assert_eq!(m.hart, 2);
    m.unlock(&mut two, guard);
}

#[test]
fn the_guard_opens_the_data() {
    let mut cpu = hart(0, false);
    let mut m = Mutex::new(10u32, "m");
    let guard = m.lock(&mut cpu).unwrap();
    assert_eq!(*m.get(&guard), 10);
    *m.get_mut(&guard) += 5;
    assert_eq!(*m.get(&guard), 15);
    m.unlock(&mut cpu, guard);
    assert_eq!(m.data, 15);
}

#[test]
fn a_weak_guard_releases_and_takes_again() {
    let mut cpu = hart(4, true);
    let mut other = hart(5, false);
    let mut m = Mutex::new(1u8, "disk");
    let guard = m.lock(&mut cpu).unwrap();
    let weak = guard.into_weak(&mut m, &mut cpu);
    assert_eq!(weak.name, "disk");
    assert_eq!(m.lock, 0);
    assert_eq!(m.hart, -1);
    assert!(cpu.intr_lock.enabled);

    let held = m.lock(&mut other).unwrap();
    let weak = match weak.into_guard(&mut m, &mut cpu) {
        Ok(_) => panic!("the lock is held by another hart"),
        Err(weak) => weak,
    };
    assert_eq!(m.hart, 5);
    assert!(cpu.intr_lock.enabled);
    m.unlock(&mut other, held);

    let guard = match weak.into_guard(&mut m, &mut cpu) {
        Ok(guard) => guard,
        Err(_) => panic!("the lock is free"),
    };
    assert_eq!(guard.hart, 4);
    assert_eq!(m.hart, 4);
    assert!(!cpu.intr_lock.enabled);
    m.unlock(&mut cpu, guard);
}
