use kernel::machine::Machine;
use kernel::page::{EntryAttributes, Page};
use kernel::process::cpu::NCPUS;
use kernel::process::pool::ProcInPool;
use kernel::process::process::{ProcessState, Segment};
use kernel::process::trapframe::Register;
use kernel::spinlock::Mutex;
use kernel::symbols::{Symbols, NMAXPROCS, PAGE_SIZE};
use kernel::virtio::{DmaAddrs, VRingUsedElem, VIRTIO};

const HEAP_START: usize = 0x8040_0123;
const HEAP: usize = 0x8040_1000;
const PA: u64 = 0x8100_0000;

fn boot() -> Machine {
    let mut m = Machine::new(Symbols { trampoline_text_start: 0x8000_3000, forkret: 0x8000_4abc });
    m.init(0, HEAP_START);
    m
}

fn state_in_pool(m: &Machine, pid: usize) -> ProcessState {
    match &m.kernel.pool.data[pid] {
        ProcInPool::Pooling(p) => p.state,
        _ => panic!("no process rests in the slot"),
    }
}

#[test]
fn the_machine_boots_with_idle_harts() {
    let m = boot();
    assert_eq!(m.cpus.len(), NCPUS);
    for (h, cpu) in m.cpus.iter().enumerate() {
        assert_eq!(cpu.id, h);
        assert!(cpu.process.is_none());
        assert_eq!(cpu.intr_lock.depth, 0);
        assert!(!cpu.intr_lock.enabled);
    }
    assert_eq!(m.kernel.alloc.data.base_addr, HEAP);
    assert_eq!(m.kernel.pool.data.len(), NMAXPROCS);
}

#[test]
fn two_harts_share_the_processes() {
    let mut m = boot();
    m.init_proc(0, &vec![1, 2, 3], PA);
    assert_eq!(m.scheduler(3), Some(0));
    assert_eq!(m.scheduler(5), None);
    assert_eq!(m.find_available_pid(5), Some(1));
    assert_eq!(m.fork(3, PA + 0x1000), 1);
    assert_eq!(m.fork(3, PA + 0x2000), 2);
    assert_eq!(m.scheduler(5), Some(1));
    assert_eq!(m.scheduler(6), Some(2));
    assert_eq!(m.scheduler(7), None);
    assert_eq!(m.cpus[3].process.as_ref().unwrap().pid, 0);
    assert_eq!(m.cpus[5].process.as_ref().unwrap().pid, 1);
    assert_eq!(m.cpus[6].process.as_ref().unwrap().pid, 2);
    let stacks: Vec<usize> =
        [3, 5, 6].iter().map(|h| m.cpus[*h].process.as_ref().unwrap().kstack).collect();
    assert_eq!(stacks, vec![HEAP, HEAP + 1024 * PAGE_SIZE, HEAP + 2048 * PAGE_SIZE]);

    m.yield_cpu(5);
    m.scheduler_resume(5);
    assert_eq!(state_in_pool(&m, 1), ProcessState::RUNNABLE);
    assert_eq!(m.scheduler(0), Some(1));
    assert!(m.cpus[5].process.is_none());
}

#[test]
fn a_zombie_gives_its_stack_back_and_the_others_keep_theirs() {
    let mut m = boot();
    m.init_proc(0, &vec![1], PA);
    assert_eq!(m.scheduler(0), Some(0));
    assert_eq!(m.fork(0, PA + 0x1000), 1);
    assert_eq!(m.fork(0, PA + 0x2000), 2);
    assert_eq!(m.scheduler(1), Some(1));
    m.exit(1, 7);
    assert!(!m.cpus[1].intr_lock.enabled);
    m.scheduler_resume(1);
    assert!(m.cpus[1].process.is_none());
    assert!(matches!(m.kernel.pool.data[1], ProcInPool::NoProc));
    let cells = &m.kernel.alloc.data.page_allocated;
    assert_eq!(cells[0], 1024);
    assert_eq!(cells[1024], 0);
    assert_eq!(cells[2047], 0);
    assert_eq!(cells[2048], 1024);
    // the freed pid and the freed stack are taken by the next child
    assert_eq!(m.fork(0, PA + 0x3000), 1);
    assert_eq!(m.kernel.alloc.data.page_allocated[1024], 1024);
    assert_eq!(m.scheduler(1), Some(1));
    assert_eq!(m.cpus[1].process.as_ref().unwrap().kstack, HEAP + 1024 * PAGE_SIZE);
}

#[test]
fn exec_on_a_hart_of_the_machine() {
    let mut m = boot();
    m.init_proc(0, &vec![1], PA);
    assert_eq!(m.scheduler(2), Some(0));
    let mut page = Page::new();
    page.data[0] = 9;
    let image = vec![Segment { va: 0, page, attrs: EntryAttributes::RX.val() }];
    m.exec(2, &image, 0x40);
    let p = m.cpus[2].process.as_ref().unwrap();
    assert_eq!(p.trapframe.epc, 0x40);
    assert_eq!(p.trapframe.regs[Register::sp.index()], 0x8000_5000);
    assert_eq!(p.pgtable.lookup(0).unwrap().attrs, 26);
}

/// A sleeper on hart 0 and a waker on hart 1, with the waker arriving while
/// the sleeper's scheduler has not yet taken the process back.
#[test]
fn sleep_and_wakeup_across_harts() {
    let mut m = boot();
    let mut l = Mutex::new(false, "cond");
    m.init_proc(0, &vec![1], PA);
    assert_eq!(m.scheduler(0), Some(0));

    let guard = m.lock(0, &mut l).unwrap();
    assert!(!*l.get(&guard));
    let weak = match m.sleep(0, 0xabc, guard, &mut l) {
        Ok(weak) => weak,
        Err(_) => panic!("the sleep lock is free"),
    };
    assert_eq!(m.kernel.pool_sleep.hart, 0);
    assert!(!m.cpus[0].intr_lock.enabled);

    let gb = m.lock(1, &mut l).unwrap();
    *l.get_mut(&gb) = true;
    m.unlock(1, &mut l, gb);
    assert_eq!(m.wakeup(1, 0xabc, 0), 0);
    assert!(!m.wait_for_sleeper(1));

    m.scheduler_resume(0);
    assert_eq!(m.kernel.pool_sleep.lock, 0);
    assert_eq!(m.cpus[0].intr_lock.depth, 0);
    assert!(m.wait_for_sleeper(1));
    assert_eq!(m.wakeup(1, 0xabc, 0), NMAXPROCS);
    assert_eq!(state_in_pool(&m, 0), ProcessState::RUNNABLE);

    // the process goes on on another hart
    assert_eq!(m.scheduler(1), Some(0));
    let guard = match m.sleep_done(1, weak, &mut l) {
        Ok(guard) => guard,
        Err(_) => panic!("the lock is free"),
    };
    assert_eq!(guard.hart, 1);
    assert!(*l.get(&guard));
    assert_eq!(m.cpus[1].process.as_ref().unwrap().channel, 0);
    m.unlock(1, &mut l, guard);
    assert_eq!(m.cpus[1].intr_lock.depth, 0);
}

#[test]
fn the_disk_interrupt_on_a_hart_of_the_machine() {
    let mut m = boot();
    let mut disk = VIRTIO();
    assert_eq!(disk.data.init(15, 0, 0x8030_0000), Ok(None));
    let addrs = DmaAddrs { header: 1, data: 2, status: 3 };
    let head = match disk.data.read(1, 0, &addrs) {
        Ok(request) => request.head,
        Err(_) => panic!("three descriptors are free"),
    };
    disk.data.used[0].elems[0] = VRingUsedElem { id: head as u32, len: 0 };
    disk.data.used[0].id = 1;
    assert_eq!(m.virtiointr(4, &mut disk), Some(vec![head]));
    assert_eq!(disk.lock, 0);
    assert_eq!(m.cpus[4].intr_lock.depth, 0);
    assert_eq!(disk.data.info[head].as_ref().unwrap().buf.disk, 0);
}
