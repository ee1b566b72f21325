use kernel::mem::Allocator;
use kernel::page::{EntryAttributes, Frame, Page, Table};
use kernel::process::cpu::{Cpu, IntrLock};
use kernel::process::pool::{
    put_back_proc, scheduler, scheduler_resume, yield_cpu, Kernel, ProcInPool,
};
use kernel::process::process::{
    exec, exit, find_available_pid, fork, init_proc, load_image, map_stack, sleep, sleep_done,
    wait_for_sleeper, wakeup, Process, ProcessState, Segment, KSTACK_PAGES, USER_STACK_BEGIN,
    USER_STACK_PAGE,
};
use kernel::process::trapframe::{Context, Register, TrapFrame, CONTEXT_RA, CONTEXT_SP};
use kernel::spinlock::{Mutex, MutexGuard};
use kernel::symbols::{Symbols, NMAXPROCS, PAGE_SIZE, TRAMPOLINE_START, TRAPFRAME_START};

const HEAP: usize = 0x8040_0000;
const TRAMPOLINE_TEXT: u64 = 0x8000_3000;
const FORKRET: u64 = 0x8000_4abc;
const FRAME_PA: u64 = 0x8100_0000;

fn boot() -> Kernel {
    let mut k = Kernel::new(Symbols { trampoline_text_start: TRAMPOLINE_TEXT, forkret: FORKRET });
    k.alloc.data.base_addr = HEAP;
    k
}

fn kernel_target(t: &Table, va: u64) -> (u64, u64) {
    let leaf = t.lookup(va).unwrap();
    match leaf.frame {
        Frame::Kernel(pa) => (pa, leaf.attrs),
        Frame::Owned(_) => panic!("an owned frame"),
    }
}

fn owned_page(t: &Table, va: u64) -> (&Page, u64) {
    let leaf = t.lookup(va).unwrap();
    match &leaf.frame {
        Frame::Owned(page) => (page, leaf.attrs),
        Frame::Kernel(_) => panic!("a kernel mapping"),
    }
}

fn resting(k: &Kernel, pid: usize) -> &Process {
    match &k.pool.data[pid] {
        ProcInPool::Pooling(p) => p,
        _ => panic!("no process rests in the slot"),
    }
}

fn kind(k: &Kernel, pid: usize) -> &'static str {
    match &k.pool.data[pid] {
        ProcInPool::NoProc => "none",
        ProcInPool::Pooling(_) => "pooling",
        ProcInPool::Scheduled => "scheduled",
        ProcInPool::BeingSlept => "being slept",
    }
}

#[test]
fn register_numbers() {
    assert_eq!(Register::zero.index(), 0);
    assert_eq!(Register::ra.index(), 1);
    assert_eq!(Register::sp.index(), 2);
    assert_eq!(Register::s0.index(), 8);
    assert_eq!(Register::a0.index(), 10);
    assert_eq!(Register::a7.index(), 17);
    assert_eq!(Register::s2.index(), 18);
    assert_eq!(Register::s11.index(), 27);
    assert_eq!(Register::t3.index(), 28);
    assert_eq!(Register::t6.index(), 31);
    assert_eq!(CONTEXT_RA, 0);
    assert_eq!(CONTEXT_SP, 1);
}

#[test]
fn zeroed_save_areas() {
    let tf = TrapFrame::zero();
    assert_eq!(tf.regs, [0u64; 32]);
    assert_eq!((tf.satp, tf.kernel_sp, tf.kernel_trap, tf.epc, tf.hartid), (0, 0, 0, 0, 0));
    assert_eq!(Context::zero().regs, [0u64; 14]);
}

#[test]
fn the_kernel_boots_with_an_empty_pool() {
    let k = boot();
    assert_eq!(k.pool.data.len(), NMAXPROCS);
    assert!((0..NMAXPROCS).all(|i| kind(&k, i) == "none"));
    assert_eq!(k.pool.lock, 0);
    assert_eq!(k.pool_sleep.lock, 0);
    assert_eq!(k.alloc.lock, 0);
    assert_eq!(k.symbols.forkret, FORKRET);
}

#[test]
fn a_new_process_has_its_kernel_pages_and_stack() {
    let mut alloc = Mutex::new(Allocator { base_addr: HEAP, page_allocated: vec![0; 3000] }, "a");
    let mut cpu = Cpu::new(1);
    cpu.intr_lock = IntrLock::new(true);
    let symbols = Symbols { trampoline_text_start: TRAMPOLINE_TEXT, forkret: FORKRET };
    alloc.data.page_allocated[0] = 1;
    let p = Process::new(5, FRAME_PA, &symbols, &mut alloc, &mut cpu);
    assert_eq!(p.pid, 5);
    assert_eq!(p.state, ProcessState::UNUSED);
    assert_eq!(p.channel, 0);
    assert!(p.drop_on_put_back.is_none());
    assert_eq!(p.kstack, HEAP + PAGE_SIZE);
    assert_eq!(p.kstack_sp, HEAP + PAGE_SIZE + 1024 * PAGE_SIZE);
    assert_eq!(KSTACK_PAGES, 1024);
    assert_eq!(alloc.data.page_allocated[1], 1024);
    assert_eq!(alloc.data.page_allocated[1024], 1024);
    assert_eq!(alloc.data.page_allocated[1025], 0);
    assert_eq!(alloc.lock, 0);
    assert!(cpu.intr_lock.enabled);
    assert_eq!(cpu.intr_lock.depth, 0);
    assert_eq!(kernel_target(&p.pgtable, TRAMPOLINE_START), (TRAMPOLINE_TEXT, 10));
    assert_eq!(kernel_target(&p.pgtable, TRAPFRAME_START), (FRAME_PA, 6));
    assert!(p.pgtable.lookup(0).is_none());
    assert_eq!(p.context.regs[CONTEXT_RA], FORKRET);
    assert_eq!(p.context.regs[CONTEXT_SP], (HEAP + 2 * PAGE_SIZE) as u64);
    assert!(p.context.regs[2..].iter().all(|r| *r == 0));
    assert_eq!(p.trapframe.regs, [0u64; 32]);
}

#[test]
fn from_exist_keeps_the_table_and_the_trap_frame() {
    let mut alloc = Mutex::new(Allocator { base_addr: HEAP, page_allocated: vec![0; 1024] }, "a");
    let mut cpu = Cpu::new(0);
    let symbols = Symbols { trampoline_text_start: TRAMPOLINE_TEXT, forkret: FORKRET };
    let mut table = Table::new();
    table.map(0x2000, Page::new(), EntryAttributes::URW.val());
    let mut tf = TrapFrame::zero();
    tf.epc = 0x44;
    tf.regs[11] = 9;
    let p = Process::from_exist(
        2,
        Box::new(table),
        Box::new(tf),
        FRAME_PA,
        &symbols,
        &mut alloc,
        &mut cpu,
    );
    assert_eq!(p.kstack, HEAP);
    assert_eq!(p.trapframe.epc, 0x44);
    assert_eq!(p.trapframe.regs[11], 9);
    assert_eq!(owned_page(&p.pgtable, 0x2000).1, 22);
    assert_eq!(kernel_target(&p.pgtable, TRAPFRAME_START), (FRAME_PA, 6));
    assert!(alloc.data.page_allocated.iter().all(|c| *c == 1024));
}

#[test]
fn map_stack_maps_four_fresh_pages() {
    let mut t = Table::new();
    let sp = map_stack(&mut t, 0x8000_1000);
    assert_eq!(USER_STACK_PAGE, 4);
    assert_eq!(USER_STACK_BEGIN, 0x8000_1000);
    assert_eq!(sp, 0x8000_5000);
    for page in 0..4u64 {
        let (p, attrs) = owned_page(&t, 0x8000_1000 + page * 4096);
        assert_eq!(attrs, 22);
        assert!(p.data.iter().all(|b| *b == 0));
    }
    assert!(t.lookup(0x8000_0fff).is_none());
    assert!(t.lookup(0x8000_5000).is_none());
}

#[test]
fn init_proc_puts_the_first_process_into_the_pool() {
    let mut k = boot();
    let mut cpu = Cpu::new(0);
    let code: Vec<u8> = vec![0x13, 0x05, 0x10, 0x00, 0x73];
    init_proc(&mut k, &mut cpu, &code, FRAME_PA);
    let p = resting(&k, 0);
    assert_eq!(p.pid, 0);
    assert_eq!(p.state, ProcessState::RUNNABLE);
    assert_eq!(p.trapframe.epc, 0);
    assert_eq!(p.trapframe.regs[Register::sp.index()], 0x8000_5000);
    let (page, attrs) = owned_page(&p.pgtable, 0);
    assert_eq!(attrs, 26);
    assert_eq!(&page.data[..5], &code[..]);
    assert!(page.data[5..].iter().all(|b| *b == 0));
    assert_eq!(owned_page(&p.pgtable, 0x8000_1000).1, 22);
    assert_eq!(owned_page(&p.pgtable, 0x8000_4fff).1, 22);
    assert_eq!(kernel_target(&p.pgtable, TRAMPOLINE_START), (TRAMPOLINE_TEXT, 10));
    assert_eq!(kernel_target(&p.pgtable, TRAPFRAME_START), (FRAME_PA, 6));
    assert_eq!(p.kstack, HEAP);
    assert!((1..NMAXPROCS).all(|i| kind(&k, i) == "none"));
    assert_eq!(k.pool.lock, 0);
    assert_eq!(cpu.intr_lock.depth, 0);
}

#[test]
fn find_available_pid_gives_the_lowest_free_slot() {
    let mut k = boot();
    let mut cpu = Cpu::new(0);
    assert_eq!(find_available_pid(&mut k, &mut cpu), Some(0));
    k.pool.data[0] = ProcInPool::Scheduled;
    k.pool.data[1] = ProcInPool::BeingSlept;
    k.pool.data[3] = ProcInPool::Scheduled;
    assert_eq!(find_available_pid(&mut k, &mut cpu), Some(2));
    for i in 0..NMAXPROCS {
        k.pool.data[i] = ProcInPool::Scheduled;
    }
    assert_eq!(find_available_pid(&mut k, &mut cpu), None);
    assert_eq!(k.pool.lock, 0);
}

#[test]
fn scheduler_runs_the_first_ready_process() {
    let mut k = boot();
    let mut cpu = Cpu::new(2);
    assert_eq!(scheduler(&mut k, &mut cpu), None);
    assert!(cpu.process.is_none());
    assert!(cpu.intr_lock.enabled);

    init_proc(&mut k, &mut cpu, &vec![1, 2, 3], FRAME_PA);
    cpu.intr_lock.intr_off();
    assert_eq!(scheduler(&mut k, &mut cpu), Some(0));
    assert_eq!(kind(&k, 0), "scheduled");
    let p = cpu.process.as_ref().unwrap();
    assert_eq!(p.pid, 0);
    assert_eq!(p.state, ProcessState::RUNNING);
    assert!(cpu.intr_lock.enabled);
    assert_eq!(cpu.intr_lock.depth, 0);
    assert_eq!(k.pool.lock, 0);
}

#[test]
fn scheduler_passes_processes_that_are_not_ready() {
    let mut k = boot();
    let mut boot_cpu = Cpu::new(0);
    init_proc(&mut k, &mut boot_cpu, &vec![1], FRAME_PA);
    let mut cpu = Cpu::new(1);
    assert_eq!(scheduler(&mut k, &mut cpu), Some(0));
    assert_eq!(fork(&mut k, &mut cpu, FRAME_PA + 0x1000), 1);
    assert_eq!(fork(&mut k, &mut cpu, FRAME_PA + 0x2000), 2);
    match &mut k.pool.data[1] {
        ProcInPool::Pooling(p) => p.state = ProcessState::SLEEPING,
        _ => panic!("the child rests in the pool"),
    }
    let mut other = Cpu::new(2);
    assert_eq!(scheduler(&mut k, &mut other), Some(2));
    assert_eq!(kind(&k, 1), "pooling");
    assert_eq!(resting(&k, 1).state, ProcessState::SLEEPING);
    let mut third = Cpu::new(3);
    assert_eq!(scheduler(&mut k, &mut third), None);
}

#[test]
fn yield_makes_the_process_ready_and_the_scheduler_takes_it_back() {
    let mut k = boot();
    let mut cpu = Cpu::new(0);
    init_proc(&mut k, &mut cpu, &vec![1], FRAME_PA);
    assert_eq!(scheduler(&mut k, &mut cpu), Some(0));
    yield_cpu(&mut cpu);
    assert_eq!(cpu.process.as_ref().unwrap().state, ProcessState::RUNNABLE);
    scheduler_resume(&mut k, &mut cpu);
    assert!(cpu.process.is_none());
    assert_eq!(resting(&k, 0).state, ProcessState::RUNNABLE);
    assert_eq!(scheduler(&mut k, &mut cpu), Some(0));
}

#[test]
fn fork_semantics() {
    let mut k = boot();
    let mut cpu = Cpu::new(0);
    let code: Vec<u8> = vec![7, 8, 9];
    init_proc(&mut k, &mut cpu, &code, FRAME_PA);
    assert_eq!(scheduler(&mut k, &mut cpu), Some(0));
    {
        let parent = cpu.process.as_mut().unwrap();
        parent.trapframe.regs[Register::a0.index()] = 57;
        parent.trapframe.regs[Register::a1.index()] = 58;
        parent.trapframe.epc = 0x10;
    }

    let child_pid = fork(&mut k, &mut cpu, FRAME_PA + 0x1000);
    assert_eq!(child_pid, 1);
    // the system call's result in the parent
    cpu.process.as_mut().unwrap().trapframe.regs[Register::a0.index()] = child_pid as u64;

    let child = resting(&k, 1);
    assert_eq!(child.pid, 1);
    assert_eq!(child.state, ProcessState::RUNNABLE);
    assert_eq!(child.trapframe.regs[Register::a0.index()], 0);
    assert_eq!(child.trapframe.regs[Register::a1.index()], 58);
    assert_eq!(child.trapframe.regs[Register::sp.index()], 0x8000_5000);
    assert_eq!(child.trapframe.epc, 0x10);
    let (page, attrs) = owned_page(&child.pgtable, 0);
    assert_eq!(attrs, 26);
    assert_eq!(&page.data[..3], &code[..]);
    assert_eq!(owned_page(&child.pgtable, 0x8000_1000).1, 22);
    assert_eq!(kernel_target(&child.pgtable, TRAMPOLINE_START), (TRAMPOLINE_TEXT, 10));
    assert_eq!(kernel_target(&child.pgtable, TRAPFRAME_START), (FRAME_PA + 0x1000, 6));
    assert_eq!(child.kstack, HEAP + 1024 * PAGE_SIZE);
    assert_eq!(child.context.regs[CONTEXT_RA], FORKRET);

    let parent = cpu.process.as_ref().unwrap();
    assert_eq!(parent.trapframe.regs[Register::a0.index()], 1);
    assert_eq!(parent.pid, 0);
    assert_eq!(kernel_target(&parent.pgtable, TRAPFRAME_START), (FRAME_PA, 6));
    assert_eq!(kind(&k, 0), "scheduled");

    yield_cpu(&mut cpu);
    scheduler_resume(&mut k, &mut cpu);
    assert_eq!(resting(&k, 0).state, ProcessState::RUNNABLE);
    assert_eq!(resting(&k, 1).state, ProcessState::RUNNABLE);
}

#[test]
fn a_forked_child_has_memory_of_its_own() {
    let mut k = boot();
    let mut cpu = Cpu::new(0);
    init_proc(&mut k, &mut cpu, &vec![1, 1, 1], FRAME_PA);
    assert_eq!(scheduler(&mut k, &mut cpu), Some(0));
    assert_eq!(fork(&mut k, &mut cpu, FRAME_PA + 0x1000), 1);
    let mut page = Page::new();
    page.data[0] = 0xee;
    cpu.process.as_mut().unwrap().pgtable.map(0, page, EntryAttributes::URX.val());
    assert_eq!(owned_page(&cpu.process.as_ref().unwrap().pgtable, 0).0.data[0], 0xee);
    assert_eq!(owned_page(&resting(&k, 1).pgtable, 0).0.data[0], 1);
}

#[test]
fn exec_replaces_the_image() {
    let mut k = boot();
    let mut cpu = Cpu::new(0);
    init_proc(&mut k, &mut cpu, &vec![1, 2, 3], FRAME_PA);
    assert_eq!(scheduler(&mut k, &mut cpu), Some(0));
    {
        let p = cpu.process.as_mut().unwrap();
        p.pgtable.map(0x5000, Page::new(), EntryAttributes::URW.val());
        p.trapframe.regs[Register::a0.index()] = 3;
    }
    let mut text = Page::new();
    for (i, b) in [0x6fu8, 0x00, 0x00, 0x00].iter().enumerate() {
        text.data[i] = *b;
    }
    let mut data = Page::new();
    data.data[4095] = 0x77;
    let image = vec![
        Segment { va: 0, page: text, attrs: EntryAttributes::RX.val() },
        Segment { va: 0x1000, page: data, attrs: EntryAttributes::RW.val() },
    ];
    exec(&mut cpu, &image, 0x24);

    let p = cpu.process.as_ref().unwrap();
    let (page, attrs) = owned_page(&p.pgtable, 0);
    assert_eq!(attrs, 26);
    assert_eq!(&page.data[..4], &[0x6f, 0, 0, 0]);
    assert!(page.data[4..].iter().all(|b| *b == 0));
    let (page, attrs) = owned_page(&p.pgtable, 0x1000);
    assert_eq!(attrs, 22);
    assert_eq!(page.data[4095], 0x77);
    assert!(p.pgtable.lookup(0x5000).is_none());
    for i in 0..4u64 {
        let (stack, attrs) = owned_page(&p.pgtable, 0x8000_1000 + i * 4096);
        assert_eq!(attrs, 22);
        assert!(stack.data.iter().all(|b| *b == 0));
    }
    assert!(p.pgtable.lookup(0x8000_5000).is_none());
    assert_eq!(kernel_target(&p.pgtable, TRAMPOLINE_START), (TRAMPOLINE_TEXT, 10));
    assert_eq!(kernel_target(&p.pgtable, TRAPFRAME_START), (FRAME_PA, 6));
    assert_eq!(p.trapframe.epc, 0x24);
    assert_eq!(p.trapframe.regs[Register::sp.index()], 0x8000_5000);
    assert_eq!(p.trapframe.regs[Register::a0.index()], 3);
    assert_eq!(p.state, ProcessState::RUNNING);
    assert_eq!(p.pid, 0);
}

#[test]
fn load_image_lets_a_later_segment_replace_an_earlier_one() {
    let mut t = Table::new();
    let mut first = Page::new();
    first.data[0] = 1;
    let mut second = Page::new();
    second.data[0] = 2;
    let image = vec![
        Segment { va: 0x3000, page: first, attrs: EntryAttributes::R.val() },
        Segment { va: 0x3800, page: second, attrs: EntryAttributes::RW.val() },
    ];
    load_image(&mut t, &image);
    let (page, attrs) = owned_page(&t, 0x3000);
    assert_eq!(page.data[0], 2);
    assert_eq!(attrs, 22);
}

#[test]
fn exit_makes_a_zombie_that_the_scheduler_frees() {
    let mut k = boot();
    let mut cpu = Cpu::new(0);
    init_proc(&mut k, &mut cpu, &vec![1], FRAME_PA);
    assert_eq!(scheduler(&mut k, &mut cpu), Some(0));
    assert_eq!(fork(&mut k, &mut cpu, FRAME_PA + 0x1000), 1);
    yield_cpu(&mut cpu);
    scheduler_resume(&mut k, &mut cpu);

    let mut other = Cpu::new(1);
    // pid 0 is first in the pool; let the other hart take the child
    assert_eq!(scheduler(&mut k, &mut cpu), Some(0));
    assert_eq!(scheduler(&mut k, &mut other), Some(1));
    assert_eq!(k.alloc.data.page_allocated[1024], 1024);
    exit(&mut other, 0);
    assert_eq!(other.process.as_ref().unwrap().state, ProcessState::ZOMBIE);
    assert!(!other.intr_lock.enabled);
    scheduler_resume(&mut k, &mut other);
    assert!(other.process.is_none());
    assert_eq!(kind(&k, 1), "none");
    assert_eq!(k.alloc.data.page_allocated[1024], 0);
    assert_eq!(k.alloc.data.page_allocated[2047], 0);
    assert_eq!(k.alloc.data.page_allocated[0], 1024);
    assert_eq!(k.alloc.lock, 0);
    assert_eq!(find_available_pid(&mut k, &mut other), Some(1));
}

#[test]
fn put_back_proc_rests_a_process_in_the_slot_of_its_pid() {
    let mut k = boot();
    let mut cpu = Cpu::new(0);
    let symbols = Symbols { trampoline_text_start: TRAMPOLINE_TEXT, forkret: FORKRET };
    let mut p = Process::new(9, FRAME_PA, &symbols, &mut k.alloc, &mut cpu);
    p.state = ProcessState::SLEEPING;
    p.channel = 77;
    put_back_proc(&mut k, &mut cpu, Box::new(p));
    assert_eq!(kind(&k, 9), "pooling");
    assert_eq!(resting(&k, 9).channel, 77);
    assert_eq!(resting(&k, 9).state, ProcessState::SLEEPING);
    assert_eq!(kind(&k, 8), "none");
}

/// Boots, starts pid 0 on hart 0, and takes the lock `l` for it.
fn sleeper_with_lock(k: &mut Kernel, cpu: &mut Cpu, l: &mut Mutex<bool>) -> MutexGuard {
    init_proc(k, cpu, &vec![1], FRAME_PA);
    assert_eq!(scheduler(k, cpu), Some(0));
    l.lock(cpu).unwrap()
}

#[test]
fn sleep_commits_in_the_pool_and_gives_up_the_lock() {
    let mut k = boot();
    let mut cpu = Cpu::new(0);
    let mut l = Mutex::new(false, "cond");
    let guard = sleeper_with_lock(&mut k, &mut cpu, &mut l);
    assert_eq!(cpu.intr_lock.depth, 1);

    let weak = match sleep(&mut k, &mut cpu, 0xc0de, guard, &mut l) {
        Ok(weak) => weak,
        Err(_) => panic!("the sleep lock is free"),
    };
    assert_eq!(weak.name, "cond");
    assert_eq!(kind(&k, 0), "being slept");
    let p = cpu.process.as_ref().unwrap();
    assert_eq!(p.state, ProcessState::SLEEPING);
    assert_eq!(p.channel, 0xc0de);
    let stash = p.drop_on_put_back.as_ref().unwrap();
    assert_eq!(stash.name, "proc_pool_sleep");
    assert_eq!(stash.hart, 0);
    assert_eq!(k.pool_sleep.lock, 1);
    assert_eq!(k.pool_sleep.hart, 0);
    assert_eq!(k.pool.lock, 0);
    assert_eq!(l.lock, 0);
    assert_eq!(l.hart, -1);
    // one critical section is left: that of the sleep lock
    assert_eq!(cpu.intr_lock.depth, 1);
    assert!(!cpu.intr_lock.enabled);

    scheduler_resume(&mut k, &mut cpu);
    assert_eq!(kind(&k, 0), "pooling");
    assert_eq!(resting(&k, 0).state, ProcessState::SLEEPING);
    assert!(resting(&k, 0).drop_on_put_back.is_none());
    assert_eq!(k.pool_sleep.lock, 0);
    assert_eq!(k.pool_sleep.hart, -1);
    assert_eq!(cpu.intr_lock.depth, 0);
    assert!(cpu.intr_lock.enabled);
}

#[test]
fn sleep_waits_while_another_hart_holds_the_sleep_lock() {
    let mut k = boot();
    let mut cpu = Cpu::new(0);
    let mut other = Cpu::new(1);
    let mut l = Mutex::new(false, "cond");
    let guard = sleeper_with_lock(&mut k, &mut cpu, &mut l);
    let held = k.pool_sleep.lock(&mut other).unwrap();

    let guard = match sleep(&mut k, &mut cpu, 5, guard, &mut l) {
        Ok(_) => panic!("the sleep lock is held"),
        Err(guard) => guard,
    };
    // committed to sleep, and still holding the caller's lock
    assert_eq!(kind(&k, 0), "being slept");
    assert_eq!(cpu.process.as_ref().unwrap().state, ProcessState::SLEEPING);
    assert_eq!(cpu.process.as_ref().unwrap().channel, 5);
    assert!(cpu.process.as_ref().unwrap().drop_on_put_back.is_none());
    assert_eq!(k.pool_sleep.hart, 1);
    assert_eq!(k.pool.lock, 0);
    assert_eq!(l.hart, 0);
    assert_eq!(guard.hart, 0);
    assert_eq!(cpu.intr_lock.depth, 1);

    // a waker that comes by now has to get behind the commit
    let mut waker = Cpu::new(2);
    assert_eq!(wakeup(&mut k, &mut waker, 5, 0), 0);
    assert!(!wait_for_sleeper(&mut k, &mut waker));

    k.pool_sleep.unlock(&mut other, held);
    assert!(sleep(&mut k, &mut cpu, 5, guard, &mut l).is_ok());
    assert_eq!(kind(&k, 0), "being slept");
    assert_eq!(k.pool_sleep.hart, 0);
    assert_eq!(l.lock, 0);
    assert!(cpu.process.as_ref().unwrap().drop_on_put_back.is_some());
}

#[test]
fn wakeup_makes_the_sleepers_on_the_channel_ready() {
    let mut k = boot();
    let mut cpu = Cpu::new(0);
    init_proc(&mut k, &mut cpu, &vec![1], FRAME_PA);
    assert_eq!(scheduler(&mut k, &mut cpu), Some(0));
    for i in 1..5 {
        assert_eq!(fork(&mut k, &mut cpu, FRAME_PA + 0x1000 * i as u64), i);
    }
    let states = [
        (1, ProcessState::SLEEPING, 10),
        (2, ProcessState::SLEEPING, 11),
        (3, ProcessState::RUNNABLE, 10),
        (4, ProcessState::SLEEPING, 10),
    ];
    for (pid, state, channel) in states {
        match &mut k.pool.data[pid] {
            ProcInPool::Pooling(p) => {
                p.state = state;
                p.channel = channel;
            },
            _ => panic!("the child rests in the pool"),
        }
    }
    let mut waker = Cpu::new(1);
    assert_eq!(wakeup(&mut k, &mut waker, 10, 0), NMAXPROCS);
    assert_eq!(resting(&k, 1).state, ProcessState::RUNNABLE);
    assert_eq!(resting(&k, 1).channel, 10);
    assert_eq!(resting(&k, 2).state, ProcessState::SLEEPING);
    assert_eq!(resting(&k, 3).state, ProcessState::RUNNABLE);
    assert_eq!(resting(&k, 4).state, ProcessState::RUNNABLE);
    assert_eq!(kind(&k, 0), "scheduled");
    assert_eq!(k.pool.lock, 0);
    assert_eq!(waker.intr_lock.depth, 0);
}

#[test]
fn without_a_wakeup_a_sleeper_stays_asleep() {
    let mut k = boot();
    let mut cpu = Cpu::new(0);
    let mut l = Mutex::new(false, "cond");
    let guard = sleeper_with_lock(&mut k, &mut cpu, &mut l);
    assert!(sleep(&mut k, &mut cpu, 10, guard, &mut l).is_ok());
    scheduler_resume(&mut k, &mut cpu);

    let mut other = Cpu::new(1);
    assert_eq!(scheduler(&mut k, &mut other), None);
    assert_eq!(wakeup(&mut k, &mut other, 11, 0), NMAXPROCS);
    assert_eq!(resting(&k, 0).state, ProcessState::SLEEPING);
    assert_eq!(scheduler(&mut k, &mut other), None);
    assert_eq!(wakeup(&mut k, &mut other, 10, 0), NMAXPROCS);
    assert_eq!(resting(&k, 0).state, ProcessState::RUNNABLE);
    assert_eq!(scheduler(&mut k, &mut other), Some(0));
}

#[test]
fn wakeup_from_a_later_slot_leaves_the_earlier_ones() {
    let mut k = boot();
    let mut cpu = Cpu::new(0);
    init_proc(&mut k, &mut cpu, &vec![1], FRAME_PA);
    assert_eq!(scheduler(&mut k, &mut cpu), Some(0));
    assert_eq!(fork(&mut k, &mut cpu, FRAME_PA + 0x1000), 1);
    assert_eq!(fork(&mut k, &mut cpu, FRAME_PA + 0x2000), 2);
    for pid in [1, 2] {
        match &mut k.pool.data[pid] {
            ProcInPool::Pooling(p) => {
                p.state = ProcessState::SLEEPING;
                p.channel = 4;
            },
            _ => panic!("the child rests in the pool"),
        }
    }
    assert_eq!(wakeup(&mut k, &mut cpu, 4, 2), NMAXPROCS);
    assert_eq!(resting(&k, 1).state, ProcessState::SLEEPING);
    assert_eq!(resting(&k, 2).state, ProcessState::RUNNABLE);
    assert_eq!(wakeup(&mut k, &mut cpu, 4, NMAXPROCS), NMAXPROCS);
}

/// Thread A holds L, finds the condition false and sleeps; thread B sets the
/// condition under L and wakes the channel after A rests in the pool.
#[test]
fn sleep_wakeup_interlock() {
    let mut k = boot();
    let mut a = Cpu::new(0);
    let mut b = Cpu::new(1);
    let mut l = Mutex::new(false, "cond");
    let guard = sleeper_with_lock(&mut k, &mut a, &mut l);
    assert!(!*l.get(&guard));
    let weak = match sleep(&mut k, &mut a, 0xbeef, guard, &mut l) {
        Ok(weak) => weak,
        Err(_) => panic!("the sleep lock is free"),
    };
    scheduler_resume(&mut k, &mut a);

    let gb = l.lock(&mut b).unwrap();
    *l.get_mut(&gb) = true;
    l.unlock(&mut b, gb);
    assert_eq!(wakeup(&mut k, &mut b, 0xbeef, 0), NMAXPROCS);
    assert_eq!(resting(&k, 0).state, ProcessState::RUNNABLE);

    assert_eq!(scheduler(&mut k, &mut a), Some(0));
    let guard = match sleep_done(&mut a, weak, &mut l) {
        Ok(guard) => guard,
        Err(_) => panic!("the lock is free"),
    };
    assert_eq!(a.process.as_ref().unwrap().channel, 0);
    assert_eq!(a.process.as_ref().unwrap().state, ProcessState::RUNNING);
    assert_eq!(l.hart, 0);
    assert!(*l.get(&guard));
    l.unlock(&mut a, guard);
}

/// The same, with B's wakeup arriving while A's slot is still being slept.
#[test]
fn wakeup_racing_with_the_commit_gets_behind_it() {
    let mut k = boot();
    let mut a = Cpu::new(0);
    let mut b = Cpu::new(1);
    let mut l = Mutex::new(false, "cond");
    let guard = sleeper_with_lock(&mut k, &mut a, &mut l);
    let weak = match sleep(&mut k, &mut a, 0xbeef, guard, &mut l) {
        Ok(weak) => weak,
        Err(_) => panic!("the sleep lock is free"),
    };

    // B signals before A's scheduler has taken the process back
    let gb = l.lock(&mut b).unwrap();
    *l.get_mut(&gb) = true;
    l.unlock(&mut b, gb);
    assert_eq!(wakeup(&mut k, &mut b, 0xbeef, 0), 0);
    assert_eq!(kind(&k, 0), "being slept");
    assert!(!wait_for_sleeper(&mut k, &mut b));
    assert_eq!(b.intr_lock.depth, 0);
    assert_eq!(wakeup(&mut k, &mut b, 0xbeef, 0), 0);

    scheduler_resume(&mut k, &mut a);
    assert!(wait_for_sleeper(&mut k, &mut b));
    assert_eq!(k.pool_sleep.lock, 0);
    assert_eq!(wakeup(&mut k, &mut b, 0xbeef, 0), NMAXPROCS);
    assert_eq!(resting(&k, 0).state, ProcessState::RUNNABLE);

    assert_eq!(scheduler(&mut k, &mut a), Some(0));
    let guard = match sleep_done(&mut a, weak, &mut l) {
        Ok(guard) => guard,
        Err(_) => panic!("the lock is free"),
    };
    assert!(*l.get(&guard));
    l.unlock(&mut a, guard);
}

/// A wakeup before the sleeper has committed finds it scheduled and passes.
#[test]
fn wakeup_passes_a_scheduled_process() {
    let mut k = boot();
    let mut a = Cpu::new(0);
    let mut b = Cpu::new(1);
    let mut l = Mutex::new(false, "cond");
    let guard = sleeper_with_lock(&mut k, &mut a, &mut l);
    assert_eq!(wakeup(&mut k, &mut b, 0xbeef, 0), NMAXPROCS);
    assert_eq!(kind(&k, 0), "scheduled");
    assert_eq!(a.process.as_ref().unwrap().state, ProcessState::RUNNING);
    l.unlock(&mut a, guard);
}

#[test]
fn sleep_done_waits_for_the_lock() {
    let mut k = boot();
    let mut a = Cpu::new(0);
    let mut b = Cpu::new(1);
    let mut l = Mutex::new(false, "cond");
    let guard = sleeper_with_lock(&mut k, &mut a, &mut l);
    let weak = match sleep(&mut k, &mut a, 3, guard, &mut l) {
        Ok(weak) => weak,
        Err(_) => panic!("the sleep lock is free"),
    };
    scheduler_resume(&mut k, &mut a);
    assert_eq!(wakeup(&mut k, &mut b, 3, 0), NMAXPROCS);
    assert_eq!(scheduler(&mut k, &mut a), Some(0));
    let gb = l.lock(&mut b).unwrap();
    let weak = match sleep_done(&mut a, weak, &mut l) {
        Ok(_) => panic!("the lock is held"),
        Err(weak) => weak,
    };
    assert_eq!(a.process.as_ref().unwrap().channel, 0);
    l.unlock(&mut b, gb);
    assert!(sleep_done(&mut a, weak, &mut l).is_ok());
    assert_eq!(l.hart, 0);
}
