//! A process and the steps that create it, replace its program, put it to
//! sleep, wake it and end it.

use vstd::prelude::*;
use crate::mem::Allocator;
use crate::mem::first_fit;
use crate::mem::has_fit;
use crate::mem::stamp;
use crate::page::EntryAttributes;
use crate::page::Frame;
use crate::page::Leaf;
use crate::page::Page;
use crate::page::Table;
use crate::page::same_page;
use crate::process::cpu::Cpu;
use crate::process::handoff::view;
use crate::process::pool::put_back_proc;
use crate::process::pool::runnable_at;
use crate::process::pool::stack_is_live;
use crate::process::pool::Kernel;
use crate::process::pool::ProcInPool;
use crate::process::trapframe::Context;
use crate::process::trapframe::Register;
use crate::process::trapframe::TrapFrame;
use crate::process::trapframe::CONTEXT_RA;
use crate::process::trapframe::CONTEXT_SP;
use crate::spinlock::Mutex;
use crate::spinlock::MutexGuard;
use crate::spinlock::WeakMutexGuard;
use crate::symbols::Symbols;
use crate::symbols::MAXVA;
use crate::symbols::NMAXPROCS;
use crate::symbols::PAGE_SIZE;
use crate::symbols::TRAMPOLINE_START;
use crate::symbols::TRAPFRAME_START;

verus! {

/// Frames in a process's kernel stack.
pub const KSTACK_PAGES: usize = 1024;

/// Frames in a process's user stack.
pub const USER_STACK_PAGE: usize = 4;

/// Lowest address of the user stack.
pub const USER_STACK_BEGIN: u64 = 0x8000_1000;

#[allow(non_camel_case_types)]
#[derive(PartialEq, Eq, Structural, Debug, Clone, Copy)]
pub enum ProcessState {
    UNUSED,
    SLEEPING,
    RUNNABLE,
    RUNNING,
    ZOMBIE,
}

/// One process.
pub struct Process {
    /// The process's page table.
    pub pgtable: Box<Table>,
    /// The user's registers while the kernel runs.
    pub trapframe: Box<TrapFrame>,
    /// The kernel's registers while the scheduler runs.
    pub context: Box<Context>,
    pub state: ProcessState,
    /// Lowest address of the kernel stack, a run of the kernel heap.
    pub kstack: usize,
    /// Address past the kernel stack.
    pub kstack_sp: usize,
    /// Index of the process's slot in the pool.
    pub pid: i32,
    /// What the process waits for while it sleeps, else 0.
    pub channel: usize,
    /// Guard of the sleep lock, which the scheduler releases once the process
    /// has left its hart.
    pub drop_on_put_back: Option<MutexGuard>,
}

/// The pages that every process has from the kernel: `after` is `before`
/// with the trampoline and the trap frame mapped.
pub open spec fn with_kernel_pages(
    before: Table,
    after: Table,
    trampoline_pa: u64,
    trapframe_pa: u64,
) -> bool {
    forall|v: u64|
        v < MAXVA ==> #[trigger] after.leaf_at(v) == (if same_page(v, TRAPFRAME_START) {
            Some(Leaf { frame: Frame::Kernel(trapframe_pa), attrs: EntryAttributes::RW.bits() })
        } else if same_page(v, TRAMPOLINE_START) {
            Some(Leaf { frame: Frame::Kernel(trampoline_pa), attrs: EntryAttributes::RX.bits() })
        } else {
            before.leaf_at(v)
        })
}

/// A context in which only the return address and the stack pointer are set.
pub open spec fn entry_context(context: Context, ra: u64, sp: u64) -> bool {
    forall|i: int|
        0 <= i < 14 ==> #[trigger] context.regs@[i] == (if i == CONTEXT_RA {
            ra
        } else if i == CONTEXT_SP {
            sp
        } else {
            0
        })
}

impl Process {
    /// The pid is not negative, the page table is sound, and the kernel stack
    /// has its size.
    pub open spec fn wf(&self) -> bool {
        &&& 0 <= self.pid
        &&& self.pgtable.wf()
        &&& self.kstack_sp == self.kstack + KSTACK_PAGES * PAGE_SIZE
    }

    /// A process around a page table and a trap frame that exist already.
    ///
    /// Takes a kernel stack from the heap, maps the trampoline and the trap
    /// frame (which the machine finds at `trapframe_pa`), and prepares the
    /// context so that
    /// the first switch to the process returns into `forkret` on the new
    /// stack. The heap must have room for the stack.
    pub fn from_exist(
        pid: i32,
        pgtable: Box<Table>,
        trapframe: Box<TrapFrame>,
        trapframe_pa: u64,
        symbols: &Symbols,
        alloc: &mut Mutex<Allocator>,
        cpu: &mut Cpu,
    ) -> (p: Self)
        requires
            0 <= pid,
            pgtable.wf(),
            old(alloc).wf(),
            !old(alloc).is_locked(),
            old(alloc).data.wf(),
            has_fit(old(alloc).data.page_allocated@, KSTACK_PAGES as int),
            old(cpu).wf(),
            old(cpu).intr_lock.depth < usize::MAX,
        ensures
            p.wf(),
            p.pid == pid,
            p.state == ProcessState::UNUSED,
            p.channel == 0,
            p.drop_on_put_back is None,
            p.trapframe == trapframe,
            with_kernel_pages(*pgtable, *p.pgtable, symbols.trampoline_text_start, trapframe_pa),
            entry_context(*p.context, symbols.forkret, (p.kstack + PAGE_SIZE) as u64),
            p.kstack == old(alloc).data.addr_of(old(alloc).data.frame_of(p.kstack as int)),
            first_fit(
                old(alloc).data.page_allocated@,
                KSTACK_PAGES as int,
                old(alloc).data.frame_of(p.kstack as int),
            ),
            final(alloc).data.page_allocated@ == stamp(
                old(alloc).data.page_allocated@,
                old(alloc).data.frame_of(p.kstack as int),
                KSTACK_PAGES as int,
                KSTACK_PAGES,
            ),
            stack_is_live(final(alloc).data, p.kstack),
            final(alloc).data.base_addr == old(alloc).data.base_addr,
            final(alloc).data.wf(),
            final(alloc).wf(),
            !final(alloc).is_locked(),
            final(alloc).name == old(alloc).name,
            *final(cpu) == *old(cpu),
    {
        let guard = alloc.lock(cpu).unwrap();
        let kstack = alloc.get_mut(&guard).allocate(PAGE_SIZE * KSTACK_PAGES);
        alloc.unlock(cpu, guard);

        let mut p = Process {
            trapframe,
            pgtable,
            context: Box::new(Context::zero()),
            state: ProcessState::UNUSED,
            kstack,
            kstack_sp: kstack + PAGE_SIZE * KSTACK_PAGES,
            pid,
            channel: 0,
            drop_on_put_back: None,
        };

        // map trampoline
        p.pgtable.kernel_map(
            TRAMPOLINE_START,
            symbols.trampoline_text_start,
            EntryAttributes::RX.val(),
        );
        // map trapframe
        p.pgtable.kernel_map(TRAPFRAME_START, trapframe_pa, EntryAttributes::RW.val());
        p.context.regs[CONTEXT_RA] = symbols.forkret;
        p.context.regs[CONTEXT_SP] = (p.kstack + PAGE_SIZE) as u64;

        p
    }

    /// A process with an empty page table and a zeroed trap frame, which the
    /// machine finds at `trapframe_pa`.
    pub fn new(
        pid: i32,
        trapframe_pa: u64,
        symbols: &Symbols,
        alloc: &mut Mutex<Allocator>,
        cpu: &mut Cpu,
    ) -> (p: Self)
        requires
            0 <= pid,
            old(alloc).wf(),
            !old(alloc).is_locked(),
            old(alloc).data.wf(),
            has_fit(old(alloc).data.page_allocated@, KSTACK_PAGES as int),
            old(cpu).wf(),
            old(cpu).intr_lock.depth < usize::MAX,
        ensures
            p.wf(),
            p.pid == pid,
            p.state == ProcessState::UNUSED,
            p.channel == 0,
            p.drop_on_put_back is None,
            *p.trapframe == TrapFrame::zeroed(),
            forall|i: int| 0 <= i < 32 ==> p.trapframe.regs@[i] == 0,
            forall|v: u64|
                v < MAXVA ==> #[trigger] p.pgtable.leaf_at(v) == (if same_page(v, TRAPFRAME_START) {
                    Some(
                        Leaf {
                            frame: Frame::Kernel(trapframe_pa),
                            attrs: EntryAttributes::RW.bits(),
                        },
                    )
                } else if same_page(v, TRAMPOLINE_START) {
                    Some(
                        Leaf {
                            frame: Frame::Kernel(symbols.trampoline_text_start),
                            attrs: EntryAttributes::RX.bits(),
                        },
                    )
                } else {
                    None
                }),
            entry_context(*p.context, symbols.forkret, (p.kstack + PAGE_SIZE) as u64),
            p.kstack == old(alloc).data.addr_of(old(alloc).data.frame_of(p.kstack as int)),
            first_fit(
                old(alloc).data.page_allocated@,
                KSTACK_PAGES as int,
                old(alloc).data.frame_of(p.kstack as int),
            ),
            final(alloc).data.page_allocated@ == stamp(
                old(alloc).data.page_allocated@,
                old(alloc).data.frame_of(p.kstack as int),
                KSTACK_PAGES as int,
                KSTACK_PAGES,
            ),
            stack_is_live(final(alloc).data, p.kstack),
            final(alloc).data.base_addr == old(alloc).data.base_addr,
            final(alloc).data.wf(),
            final(alloc).wf(),
            !final(alloc).is_locked(),
            final(alloc).name == old(alloc).name,
            *final(cpu) == *old(cpu),
    {
        Self::from_exist(
            pid,
            Box::new(Table::new()),
            Box::new(TrapFrame::zero()),
            trapframe_pa,
            symbols,
            alloc,
            cpu,
        )
    }
}

/// Maps the user stack in `pgtable`, `USER_STACK_PAGE` fresh pages from
/// `stack_begin` on, and returns the address past it: the initial `sp`.
pub fn map_stack(pgtable: &mut Table, stack_begin: u64) -> (sp: u64)
    requires
        old(pgtable).wf(),
        stack_begin + USER_STACK_PAGE * PAGE_SIZE <= MAXVA,
    ensures
        final(pgtable).wf(),
        sp == stack_begin + USER_STACK_PAGE * PAGE_SIZE,
        forall|v: u64|
            v < MAXVA ==> #[trigger] final(pgtable).leaf_at(v) == (if on_stack(v, stack_begin) {
                Some(stack_leaf())
            } else {
                old(pgtable).leaf_at(v)
            }),
{
    let mut i: usize = 0;
    while i < USER_STACK_PAGE
        invariant
            i <= USER_STACK_PAGE,
            pgtable.wf(),
            stack_begin + USER_STACK_PAGE * PAGE_SIZE <= MAXVA,
            forall|v: u64|
                v < MAXVA ==> #[trigger] pgtable.leaf_at(v) == (if in_pages(
                    v,
                    stack_begin,
                    i as int,
                ) {
                    Some(stack_leaf())
                } else {
                    old(pgtable).leaf_at(v)
                }),
        decreases USER_STACK_PAGE - i,
    {
        let stack = Page::new();
        let va = stack_begin + (i * PAGE_SIZE) as u64;
        pgtable.map(va, stack, EntryAttributes::URW.val());
        assert forall|v: u64| v < MAXVA implies #[trigger] pgtable.leaf_at(v) == (if in_pages(
            v,
            stack_begin,
            i + 1,
        ) {
            Some(stack_leaf())
        } else {
            old(pgtable).leaf_at(v)
        }) by {
            lemma_in_pages_step(v, stack_begin, i as int);
        }
        i += 1;
    }
    stack_begin + (PAGE_SIZE * USER_STACK_PAGE) as u64
}

/// The leaf of a page of a fresh user stack: an owned page of zeroes that
/// the user may read and write.
pub open spec fn stack_leaf() -> Leaf {
    Leaf { frame: Frame::Owned(Box::new(Page::zeroed())), attrs: EntryAttributes::URW.bits() }
}

/// `v` lies in one of the `n` pages whose first one holds `begin`.
pub open spec fn in_pages(v: u64, begin: u64, n: int) -> bool {
    begin as int / 0x1000 <= v as int / 0x1000 < begin as int / 0x1000 + n
}

/// `v` lies on the user stack that begins at `begin`.
pub open spec fn on_stack(v: u64, begin: u64) -> bool {
    in_pages(v, begin, USER_STACK_PAGE as int)
}

proof fn lemma_in_pages_step(v: u64, begin: u64, i: int)
    requires
        0 <= i,
        begin + (i + 1) * 0x1000 <= MAXVA,
    ensures
        in_pages(v, begin, i + 1) == (in_pages(v, begin, i) || same_page(
            v,
            (begin + i * 0x1000) as u64,
        )),
{
    let b = begin as int;
    assert((b + i * 0x1000) / 0x1000 == b / 0x1000 + i) by {
        vstd::arithmetic::div_mod::lemma_div_plus_one(b, 0x1000);
        lemma_div_add_multiple(b, i);
    }
}

proof fn lemma_div_add_multiple(b: int, i: int)
    requires
        0 <= i,
        0 <= b,
    ensures
        (b + i * 0x1000) / 0x1000 == b / 0x1000 + i,
    decreases i,
{
    if i > 0 {
        lemma_div_add_multiple(b, i - 1);
        vstd::arithmetic::div_mod::lemma_div_plus_one(b + (i - 1) * 0x1000, 0x1000);
        assert(b + (i - 1) * 0x1000 + 0x1000 == b + i * 0x1000);
    }
}


/// The lowest pid that no process has.
pub fn find_available_pid(k: &mut Kernel, cpu: &mut Cpu) -> (r: Option<i32>)
    requires
        old(k).wf(),
        old(cpu).wf(),
        old(cpu).intr_lock.depth < usize::MAX,
    ensures
        *final(k) == *old(k),
        *final(cpu) == *old(cpu),
        match r {
            Some(pid) => {
                &&& 0 <= pid < NMAXPROCS
                &&& old(k).pool.data@[pid as int] is NoProc
                &&& forall|j: int| 0 <= j < pid ==> !(old(k).pool.data@[j] is NoProc)
            },
            None => forall|j: int| 0 <= j < NMAXPROCS ==> !(old(k).pool.data@[j] is NoProc),
        },
{
    let guard = k.pool.lock(cpu).unwrap();
    let mut found: Option<i32> = None;
    let mut i: usize = 0;
    while i < NMAXPROCS && found.is_none()
        invariant
            i <= NMAXPROCS,
            k.pool.data@.len() == NMAXPROCS,
            k.pool.guarded_by(guard),
            match found {
                Some(pid) => {
                    &&& 0 <= pid < NMAXPROCS
                    &&& k.pool.data@[pid as int] is NoProc
                    &&& forall|j: int| 0 <= j < pid ==> !(k.pool.data@[j] is NoProc)
                },
                None => forall|j: int| 0 <= j < i ==> !(k.pool.data@[j] is NoProc),
            },
        decreases NMAXPROCS - i + (if found is None { 1int } else { 0int }),
    {
        let pool = k.pool.get(&guard);
        match &pool[i] {
            ProcInPool::NoProc => {
                found = Some(i as i32);
            },
            _ => {
                i += 1;
            },
        }
    }
    k.pool.unlock(cpu, guard);
    found
}

/// The running process ends. It becomes a zombie and interrupts go off; the
/// caller then switches to the scheduler for good, which frees the process.
/// The first process, pid 0, never exits.
pub fn exit(cpu: &mut Cpu, status: i32)
    requires
        old(cpu).process is Some,
        old(cpu).process->0.pid != 0,
    ensures
        final(cpu).process == Some(
            Box::new(Process { state: ProcessState::ZOMBIE, ..*old(cpu).process->0 }),
        ),
        final(cpu).id == old(cpu).id,
        final(cpu).intr_lock == (crate::process::cpu::IntrLock {
            enabled: false,
            ..old(cpu).intr_lock
        }),
{
    match &mut cpu.process {
        Some(p) => {
            p.state = ProcessState::ZOMBIE;
        },
        None => {},
    }
    cpu.intr_lock.intr_off();
}


/// The trap frame of a forked child: the parent's, with 0 in the register
/// that carries a system call's result.
pub open spec fn child_frame(parent: TrapFrame, child: TrapFrame) -> bool {
    &&& child.regs@ == parent.regs@.update(Register::a0.number(), 0)
    &&& child.satp == parent.satp
    &&& child.kernel_sp == parent.kernel_sp
    &&& child.kernel_trap == parent.kernel_trap
    &&& child.epc == parent.epc
    &&& child.hartid == parent.hartid
}

/// What `fork` makes of the shared state and the hart, and what it returns.
pub open spec fn fork_result(
    k0: Kernel,
    cpu0: Cpu,
    k1: Kernel,
    cpu1: Cpu,
    trapframe_pa: u64,
    pid: i32,
) -> bool {
    &&& k1.wf()
    &&& k0.names_kept(&k1)
    &&& cpu1 == cpu0
    &&& k1.symbols == k0.symbols
    &&& k1.pool_sleep == k0.pool_sleep
    &&& 0 <= pid < NMAXPROCS
    &&& k0.pool.data@[pid as int] is NoProc
    &&& forall|j: int| 0 <= j < pid ==> !(k0.pool.data@[j] is NoProc)
    &&& forall|j: int|
        0 <= j < NMAXPROCS && j != pid ==> k1.pool.data@[j] == k0.pool.data@[j]
    &&& k1.pool.data@[pid as int] is Pooling
    &&& ({
        let child = k1.pool.data@[pid as int]->0;
        let parent = cpu0.process->0;
        &&& child.pid == pid
        &&& child.state == ProcessState::RUNNABLE
        &&& child.channel == 0
        &&& child.drop_on_put_back is None
        &&& child_frame(*parent.trapframe, *child.trapframe)
        &&& with_kernel_pages(
            *parent.pgtable,
            *child.pgtable,
            k0.symbols.trampoline_text_start,
            trapframe_pa,
        )
        &&& entry_context(
            *child.context,
            k0.symbols.forkret,
            (child.kstack + PAGE_SIZE) as u64,
        )
        &&& child.kstack == k0.alloc.data.addr_of(
            k0.alloc.data.frame_of(child.kstack as int),
        )
        &&& first_fit(
            k0.alloc.data.page_allocated@,
            KSTACK_PAGES as int,
            k0.alloc.data.frame_of(child.kstack as int),
        )
        &&& k1.alloc.data.page_allocated@ == stamp(
            k0.alloc.data.page_allocated@,
            k0.alloc.data.frame_of(child.kstack as int),
            KSTACK_PAGES as int,
            KSTACK_PAGES,
        )
        &&& stack_is_live(k1.alloc.data, child.kstack)
    })
    &&& k1.alloc.data.base_addr == k0.alloc.data.base_addr
}

/// The running process forks.
///
/// The child gets the lowest free pid, a copy of the parent's page table
/// with its own trap frame (which the machine finds at `trapframe_pa`) mapped
/// in place of the parent's, a copy of the parent's trap frame in which the
/// system call returns 0, and a kernel stack of its own; it rests in the
/// pool, ready to run. Returns the child's pid, which is what the system
/// call returns in the parent. A free pid and room for the stack must be
/// there.
pub fn fork(k: &mut Kernel, cpu: &mut Cpu, trapframe_pa: u64) -> (pid: i32)
    requires
        old(k).wf(),
        old(cpu).wf(),
        old(cpu).process is Some,
        old(cpu).intr_lock.depth < usize::MAX,
        exists|i: int| 0 <= i < NMAXPROCS && old(k).pool.data@[i] is NoProc,
        has_fit(old(k).alloc.data.page_allocated@, KSTACK_PAGES as int),
    ensures
        fork_result(*old(k), *old(cpu), *final(k), *final(cpu), trapframe_pa, pid),
{
    let f_pid = find_available_pid(k, cpu);
    let f_pid = f_pid.unwrap();
    let p = cpu.process.as_ref().unwrap();
    let pgtable = Box::new(p.pgtable.duplicate());
    let trapframe = Box::new(*p.trapframe);
    let symbols = Symbols {
        trampoline_text_start: k.symbols.trampoline_text_start,
        forkret: k.symbols.forkret,
    };
    let mut fork_p = Process::from_exist(
        f_pid,
        pgtable,
        trapframe,
        trapframe_pa,
        &symbols,
        &mut k.alloc,
        cpu,
    );
    fork_p.trapframe.regs[Register::a0.index()] = 0;
    fork_p.state = ProcessState::RUNNABLE;
    put_back_proc(k, cpu, Box::new(fork_p));
    f_pid
}

/// The page that holds a program's first bytes: `content`, then zeroes.
pub open spec fn code_page(content: Seq<u8>, page: Page) -> bool {
    forall|i: int|
        0 <= i < PAGE_SIZE ==> #[trigger] page.data@[i] == (if i < content.len() {
            content[i]
        } else {
            0u8
        })
}

/// What `init_proc` makes of the shared state and the hart.
pub open spec fn init_proc_result(
    k0: Kernel,
    cpu0: Cpu,
    k1: Kernel,
    cpu1: Cpu,
    content: Seq<u8>,
    trapframe_pa: u64,
) -> bool {
    &&& k1.wf()
    &&& k0.names_kept(&k1)
    &&& cpu1 == cpu0
    &&& k1.symbols == k0.symbols
    &&& k1.pool_sleep == k0.pool_sleep
    &&& forall|j: int| 0 < j < NMAXPROCS ==> k1.pool.data@[j] == k0.pool.data@[j]
    &&& k1.pool.data@[0] is Pooling
    &&& ({
        let p = k1.pool.data@[0]->0;
        &&& p.pid == 0
        &&& p.state == ProcessState::RUNNABLE
        &&& p.channel == 0
        &&& p.drop_on_put_back is None
        &&& p.trapframe.epc == 0
        &&& p.trapframe.satp == 0
        &&& p.trapframe.kernel_sp == 0
        &&& p.trapframe.kernel_trap == 0
        &&& p.trapframe.hartid == 0
        &&& p.trapframe.regs@[Register::sp.number()] == USER_STACK_BEGIN + USER_STACK_PAGE
            * PAGE_SIZE
        &&& forall|i: int|
            0 <= i < 32 && i != Register::sp.number() ==> p.trapframe.regs@[i] == 0
        &&& forall|v: u64|
            v < MAXVA ==> #[trigger] p.pgtable.leaf_at(v) == (if on_stack(v, USER_STACK_BEGIN) {
                Some(stack_leaf())
            } else if same_page(v, 0) {
                p.pgtable.leaf_at(0)
            } else if same_page(v, TRAPFRAME_START) {
                Some(
                    Leaf {
                        frame: Frame::Kernel(trapframe_pa),
                        attrs: EntryAttributes::RW.bits(),
                    },
                )
            } else if same_page(v, TRAMPOLINE_START) {
                Some(
                    Leaf {
                        frame: Frame::Kernel(k0.symbols.trampoline_text_start),
                        attrs: EntryAttributes::RX.bits(),
                    },
                )
            } else {
                None
            })
        &&& p.pgtable.leaf_at(0) is Some
        &&& p.pgtable.leaf_at(0)->0.attrs == EntryAttributes::URX.bits()
        &&& p.pgtable.leaf_at(0)->0.frame is Owned
        &&& code_page(content, *p.pgtable.leaf_at(0)->0.frame->Owned_0)
        &&& entry_context(*p.context, k0.symbols.forkret, (p.kstack + PAGE_SIZE) as u64)
        &&& first_fit(
            k0.alloc.data.page_allocated@,
            KSTACK_PAGES as int,
            k0.alloc.data.frame_of(p.kstack as int),
        )
        &&& k1.alloc.data.page_allocated@ == stamp(
            k0.alloc.data.page_allocated@,
            k0.alloc.data.frame_of(p.kstack as int),
            KSTACK_PAGES as int,
            KSTACK_PAGES,
        )
        &&& stack_is_live(k1.alloc.data, p.kstack)
    })
    &&& k1.alloc.data.base_addr == k0.alloc.data.base_addr
}

/// Makes the first process and puts it into the pool, ready to run.
///
/// It has pid 0. `content`, at most a page of code, is mapped at address 0
/// for the user to read and execute; the user stack is mapped at
/// `USER_STACK_BEGIN`; the process starts at address 0 with `sp` at the top
/// of that stack. The machine finds the trap frame at `trapframe_pa`.
pub fn init_proc(k: &mut Kernel, cpu: &mut Cpu, content: &Vec<u8>, trapframe_pa: u64)
    requires
        old(k).wf(),
        old(cpu).wf(),
        old(cpu).intr_lock.depth < usize::MAX,
        content@.len() <= PAGE_SIZE,
        !(old(k).pool.data@[0] is Pooling),
        has_fit(old(k).alloc.data.page_allocated@, KSTACK_PAGES as int),
    ensures
        init_proc_result(*old(k), *old(cpu), *final(k), *final(cpu), content@, trapframe_pa),
{
    let symbols = Symbols {
        trampoline_text_start: k.symbols.trampoline_text_start,
        forkret: k.symbols.forkret,
    };
    let mut p = Process::new(0, trapframe_pa, &symbols, &mut k.alloc, cpu);
    // map init code
    let mut page = Page::new();
    let mut i: usize = 0;
    while i < content.len()
        invariant
            i <= content@.len() <= PAGE_SIZE,
            forall|j: int|
                0 <= j < PAGE_SIZE ==> #[trigger] page.data@[j] == (if j < i {
                    content@[j]
                } else {
                    0u8
                }),
        decreases content@.len() - i,
    {
        page.data[i] = content[i];
        i += 1;
    }
    p.pgtable.map(0, page, EntryAttributes::URX.val());
    // map user stack
    let sp = map_stack(&mut p.pgtable, USER_STACK_BEGIN);
    p.trapframe.epc = 0;
    p.trapframe.regs[Register::sp.index()] = sp;
    p.state = ProcessState::RUNNABLE;
    proof {
        assert(!on_stack(0, USER_STACK_BEGIN));
    }
    put_back_proc(k, cpu, Box::new(p));
}

/// One page of a program as its loader hands it over: where it goes, what
/// it holds, and what the user may do with it.
pub struct Segment {
    pub va: u64,
    pub page: Page,
    pub attrs: u64,
}

/// What maps the page of `v` once the first `n` segments of `image` are
/// loaded over `base`: the last of them that names the page, else `base`.
pub open spec fn image_leaf(image: Seq<Segment>, n: int, v: u64, base: Option<Leaf>) -> Option<
    Leaf,
>
    decreases n,
{
    if n <= 0 {
        base
    } else if same_page(v, image[n - 1].va) {
        Some(
            Leaf {
                frame: Frame::Owned(Box::new(image[n - 1].page)),
                attrs: image[n - 1].attrs | crate::page::ATTR_U,
            },
        )
    } else {
        image_leaf(image, n - 1, v, base)
    }
}

/// The running process replaces its program.
///
/// The user's memory is unmapped and freed (the kernel's mappings and the
/// page table stay), the segments of `image` are mapped for the user, each
/// with a frame of its own, a fresh user stack is mapped, and the trap frame
/// gets `entry` as program counter and the top of the stack as `sp`.
pub fn exec(cpu: &mut Cpu, image: &Vec<Segment>, entry: u64)
    requires
        old(cpu).wf(),
        old(cpu).process is Some,
        forall|i: int| 0 <= i < image@.len() ==> (#[trigger] image@[i]).va < MAXVA,
    ensures
        final(cpu).wf(),
        exec_result(*old(cpu), *final(cpu), image@, entry),
{
    match &mut cpu.process {
        Some(p) => {
            p.pgtable.unmap_user();
            load_image(&mut p.pgtable, image);
            // map user stack
            let sp = map_stack(&mut p.pgtable, USER_STACK_BEGIN);
            p.trapframe.epc = entry;
            p.trapframe.regs[Register::sp.index()] = sp;
        },
        None => {},
    }
}

/// What `exec` makes of a hart: the hart as it is after its process has
/// replaced its program by `image` with entry point `entry`.
pub open spec fn exec_result(old_cpu: Cpu, new_cpu: Cpu, image: Seq<Segment>, entry: u64) -> bool {
    let before = old_cpu.process->0;
    let after = new_cpu.process->0;
    &&& new_cpu.id == old_cpu.id
    &&& new_cpu.intr_lock == old_cpu.intr_lock
    &&& new_cpu.process is Some
    &&& forall|v: u64|
        v < MAXVA ==> #[trigger] after.pgtable.leaf_at(v) == (if on_stack(v, USER_STACK_BEGIN) {
            Some(stack_leaf())
        } else {
            image_leaf(
                image,
                image.len() as int,
                v,
                crate::page::keep_kernel(before.pgtable.leaf_at(v)),
            )
        })
    &&& after.trapframe.epc == entry
    &&& after.trapframe.regs@ == before.trapframe.regs@.update(
        Register::sp.number(),
        (USER_STACK_BEGIN + USER_STACK_PAGE * PAGE_SIZE) as u64,
    )
    &&& after.trapframe.satp == before.trapframe.satp
    &&& after.trapframe.kernel_sp == before.trapframe.kernel_sp
    &&& after.trapframe.kernel_trap == before.trapframe.kernel_trap
    &&& after.trapframe.hartid == before.trapframe.hartid
    &&& after.context == before.context
    &&& after.state == before.state
    &&& after.kstack == before.kstack
    &&& after.kstack_sp == before.kstack_sp
    &&& after.pid == before.pid
    &&& after.channel == before.channel
    &&& after.drop_on_put_back == before.drop_on_put_back
}

/// Maps the segments of `image` in their order, each with a copy of its
/// page, for the user.
pub fn load_image(pgtable: &mut Table, image: &Vec<Segment>)
    requires
        old(pgtable).wf(),
        forall|i: int| 0 <= i < image@.len() ==> (#[trigger] image@[i]).va < MAXVA,
    ensures
        final(pgtable).wf(),
        forall|v: u64|
            v < MAXVA ==> #[trigger] final(pgtable).leaf_at(v) == image_leaf(
                image@,
                image@.len() as int,
                v,
                old(pgtable).leaf_at(v),
            ),
{
    let mut i: usize = 0;
    while i < image.len()
        invariant
            i <= image@.len(),
            pgtable.wf(),
            forall|j: int| 0 <= j < image@.len() ==> (#[trigger] image@[j]).va < MAXVA,
            forall|v: u64|
                v < MAXVA ==> #[trigger] pgtable.leaf_at(v) == image_leaf(
                    image@,
                    i as int,
                    v,
                    old(pgtable).leaf_at(v),
                ),
        decreases image@.len() - i,
    {
        let segment = &image[i];
        pgtable.map(segment.va, segment.page.duplicate(), segment.attrs | crate::page::ATTR_U);
        i += 1;
    }
}


/// What `sleep` makes of the shared state, the hart and the lock, and what
/// it returns.
pub open spec fn sleep_result<U>(
    k0: Kernel,
    cpu0: Cpu,
    mutex0: Mutex<U>,
    k1: Kernel,
    cpu1: Cpu,
    mutex1: Mutex<U>,
    channel: usize,
    lck: MutexGuard,
    r: Result<WeakMutexGuard, MutexGuard>,
) -> bool {
    &&& k1.wf()
    &&& k0.names_kept(&k1)
    &&& cpu1.wf()
    &&& k1.runs(&cpu1)
    &&& k1.alloc == k0.alloc
    &&& k1.symbols == k0.symbols
    &&& cpu1.id == cpu0.id
    &&& cpu1.intr_lock == cpu0.intr_lock
    &&& mutex1.name == mutex0.name
    &&& mutex1.data == mutex0.data
    &&& cpu1.process is Some
    &&& k1.pool.data@ == k0.pool.data@.update(
        cpu0.process->0.pid as int,
        ProcInPool::BeingSlept,
    )
    &&& *cpu1.process->0 == (Process {
        state: ProcessState::SLEEPING,
        channel,
        drop_on_put_back: cpu1.process->0.drop_on_put_back,
        ..*cpu0.process->0
    })
    &&& k0.pool_sleep.is_locked() ==> {
        &&& r == Err::<WeakMutexGuard, MutexGuard>(lck)
        &&& cpu1.process->0.drop_on_put_back is None
        &&& k1.pool_sleep == k0.pool_sleep
        &&& mutex1 == mutex0
        &&& view(k1, *cpu1.process->0, mutex1.holder()) == view(
            k0,
            *cpu0.process->0,
            mutex0.holder(),
        ).commit_sleep(channel, cpu0.id as int)
    }
    &&& !k0.pool_sleep.is_locked() ==> {
        &&& r is Ok
        &&& r->Ok_0.name == lck.name
        &&& cpu1.process->0.drop_on_put_back is Some
        &&& k1.pool_sleep.guarded_by(cpu1.process->0.drop_on_put_back->0)
        &&& cpu1.process->0.drop_on_put_back->0.hart == cpu0.id
        &&& k1.pool_sleep.held_by(cpu0.id as int)
        &&& mutex1.lock == 0
        &&& mutex1.hart == -1
        &&& view(k1, *cpu1.process->0, mutex1.holder()) == view(
            k0,
            *cpu0.process->0,
            mutex0.holder(),
        ).sleep(channel, cpu0.id as int)
    }
}

/// The running process goes to sleep on `channel`, giving up the lock `mutex`
/// that it holds under `lck`. This is the sleeper's half up to the context
/// switch; `sleep_done` is the half after it.
///
/// In this order: the process is marked as sleeping on `channel`; under the
/// pool lock its slot goes from scheduled to being slept; the sleep lock is
/// taken and its guard stashed in the process, for the scheduler to release
/// once the process has left the hart; `lck` is turned into a weak guard,
/// which releases `mutex`. The caller then switches to the scheduler.
///
/// While another hart holds the sleep lock, the sleeper gets as far as its
/// slot being slept and `lck` comes back: the caller tries again, for as
/// long as it takes.
pub fn sleep<U>(
    k: &mut Kernel,
    cpu: &mut Cpu,
    channel: usize,
    lck: MutexGuard,
    mutex: &mut Mutex<U>,
) -> (r: Result<WeakMutexGuard, MutexGuard>)
    requires
        old(k).wf(),
        old(cpu).wf(),
        old(k).runs(old(cpu)),
        old(cpu).process is Some,
        old(cpu).process->0.drop_on_put_back is None,
        !old(k).pool_sleep.held_by(old(cpu).id as int),
        old(mutex).wf(),
        old(mutex).guarded_by(lck),
        lck.hart == old(cpu).id,
        0 < old(cpu).intr_lock.depth < usize::MAX,
    ensures
        sleep_result(
            *old(k),
            *old(cpu),
            *old(mutex),
            *final(k),
            *final(cpu),
            *final(mutex),
            channel,
            lck,
            r,
        ),
{
    let mut p = cpu.process.take().unwrap();
    p.channel = channel;
    p.state = ProcessState::SLEEPING;

    // mark the slot as being slept, so that no wakeup is lost
    let guard = k.pool.lock(cpu).unwrap();
    let pool = k.pool.get_mut(&guard);
    pool[p.pid as usize] = ProcInPool::BeingSlept;
    k.pool.unlock(cpu, guard);

    match k.pool_sleep.lock(cpu) {
        Some(sleep_guard) => {
            p.drop_on_put_back = Some(sleep_guard);
            cpu.process = Some(p);

            // give up the caller's lock for the time of the sleep
            let weak_lock = lck.into_weak(mutex, cpu);
            Ok(weak_lock)
        },
        None => {
            cpu.process = Some(p);
            Err(lck)
        },
    }
}

/// What `sleep_done` makes of the hart and the lock, and what it returns.
pub open spec fn sleep_done_result<U>(
    cpu0: Cpu,
    mutex0: Mutex<U>,
    cpu1: Cpu,
    mutex1: Mutex<U>,
    weak_lock: WeakMutexGuard,
    r: Result<MutexGuard, WeakMutexGuard>,
) -> bool {
    &&& cpu1.wf()
    &&& mutex1.wf()
    &&& cpu1.id == cpu0.id
    &&& cpu1.process == Some(Box::new(Process { channel: 0, ..*cpu0.process->0 }))
    &&& mutex1.name == mutex0.name
    &&& mutex1.data == mutex0.data
    &&& mutex0.is_locked() ==> {
        &&& r == Err::<MutexGuard, WeakMutexGuard>(weak_lock)
        &&& mutex1 == mutex0
        &&& cpu1.intr_lock == cpu0.intr_lock
    }
    &&& !mutex0.is_locked() ==> {
        &&& r is Ok
        &&& r->Ok_0.hart == cpu0.id
        &&& mutex1.guarded_by(r->Ok_0)
        &&& cpu1.intr_lock == cpu0.intr_lock.pushed()
    }
}

/// The sleeper's half after it was scheduled again: it waits for nothing
/// any more, and takes the lock again that it gave up when it went to sleep.
///
/// While another hart holds the lock, the weak guard comes back: the caller
/// tries again.
pub fn sleep_done<U>(cpu: &mut Cpu, weak_lock: WeakMutexGuard, mutex: &mut Mutex<U>) -> (r: Result<
    MutexGuard,
    WeakMutexGuard,
>)
    requires
        old(cpu).wf(),
        old(cpu).process is Some,
        old(mutex).wf(),
        weak_lock.name@ == old(mutex).name@,
        !old(mutex).held_by(old(cpu).id as int),
        old(cpu).intr_lock.depth < usize::MAX,
    ensures
        sleep_done_result(*old(cpu), *old(mutex), *final(cpu), *final(mutex), weak_lock, r),
{
    match &mut cpu.process {
        Some(p) => {
            p.channel = 0;
        },
        None => {},
    }
    weak_lock.into_guard(mutex, cpu)
}

/// What a waker on `channel` makes of a slot: a resting process that sleeps
/// on `channel` becomes ready to run, everything else stays.
pub open spec fn woken(slot: ProcInPool, channel: usize) -> ProcInPool {
    match slot {
        ProcInPool::Pooling(p) => if p.state == ProcessState::SLEEPING && p.channel == channel {
            ProcInPool::Pooling(Box::new(Process { state: ProcessState::RUNNABLE, ..*p }))
        } else {
            slot
        },
        _ => slot,
    }
}

/// Wakes the processes that sleep on `channel`, from slot `start` on.
///
/// Under the pool lock the slots are walked in order. A resting process that
/// sleeps on `channel` becomes ready to run; free slots, scheduled processes
/// and other resting processes are passed. The walk stops before a slot that
/// is being slept and returns its index: the waker has to get behind that
/// sleeper's commit (`wait_for_sleeper`), and then goes on from that slot.
/// When the walk reaches the end, `NMAXPROCS` is returned.
pub fn wakeup(k: &mut Kernel, cpu: &mut Cpu, channel: usize, start: usize) -> (r: usize)
    requires
        old(k).wf(),
        old(cpu).wf(),
        old(cpu).intr_lock.depth < usize::MAX,
        start <= NMAXPROCS,
    ensures
        final(k).wf(),
        old(k).names_kept(final(k)),
        *final(cpu) == *old(cpu),
        final(k).alloc == old(k).alloc,
        final(k).pool_sleep == old(k).pool_sleep,
        final(k).symbols == old(k).symbols,
        start <= r <= NMAXPROCS,
        r < NMAXPROCS ==> old(k).pool.data@[r as int] is BeingSlept,
        forall|j: int| start <= j < r ==> !(old(k).pool.data@[j] is BeingSlept),
        forall|j: int|
            0 <= j < NMAXPROCS ==> #[trigger] final(k).pool.data@[j] == (if start <= j < r {
                woken(old(k).pool.data@[j], channel)
            } else {
                old(k).pool.data@[j]
            }),
        forall|j: int, cond_lock: int|
            start <= j < r && old(k).pool.data@[j] is Pooling ==> #[trigger] view(
                *final(k),
                *final(k).pool.data@[j]->0,
                cond_lock,
            ) == view(*old(k), *old(k).pool.data@[j]->0, cond_lock).wakeup(
                channel,
                old(cpu).id as int,
            ),
{
    let guard = k.pool.lock(cpu).unwrap();
    let mut i: usize = start;
    let mut blocked = false;
    while i < NMAXPROCS && !blocked
        invariant
            start <= i <= NMAXPROCS,
            k.pool.guarded_by(guard),
            k.pool.wf(),
            k.pool.name == old(k).pool.name,
            k.alloc == old(k).alloc,
            k.pool_sleep == old(k).pool_sleep,
            k.symbols == old(k).symbols,
            k.pool.data@.len() == NMAXPROCS,
            blocked ==> i < NMAXPROCS && old(k).pool.data@[i as int] is BeingSlept,
            forall|j: int| start <= j < i ==> !(old(k).pool.data@[j] is BeingSlept),
            forall|j: int|
                0 <= j < NMAXPROCS ==> #[trigger] k.pool.data@[j] == (if start <= j < i {
                    woken(old(k).pool.data@[j], channel)
                } else {
                    old(k).pool.data@[j]
                }),
            forall|j: int|
                0 <= j < NMAXPROCS ==> ((#[trigger] old(k).pool.data@[j]) is Pooling ==> {
                    &&& old(k).pool.data@[j]->0.wf()
                    &&& old(k).pool.data@[j]->0.pid == j
                }),
        decreases NMAXPROCS - i + (if blocked { 0int } else { 1int }),
    {
        let pool = k.pool.get_mut(&guard);
        match &mut pool[i] {
            ProcInPool::Pooling(p) => {
                if p.state == ProcessState::SLEEPING && p.channel == channel {
                    p.state = ProcessState::RUNNABLE;
                }
                i += 1;
            },
            ProcInPool::BeingSlept => {
                blocked = true;
            },
            _ => {
                i += 1;
            },
        }
    }
    k.pool.unlock(cpu, guard);
    i
}

/// A waker that found a slot being slept gets behind the sleeper's commit:
/// it takes the sleep lock and releases it at once. Returns whether it got
/// the lock; while the sleeper's hart still holds it, the waker tries again.
/// Nothing is changed either way.
pub fn wait_for_sleeper(k: &mut Kernel, cpu: &mut Cpu) -> (r: bool)
    requires
        old(k).wf(),
        old(cpu).wf(),
        !old(k).pool_sleep.held_by(old(cpu).id as int),
        old(cpu).intr_lock.depth < usize::MAX,
    ensures
        r == !old(k).pool_sleep.is_locked(),
        *final(k) == *old(k),
        *final(cpu) == *old(cpu),
        r ==> forall|p: Process, cond_lock: int|
            #[trigger] view(*final(k), p, cond_lock) == view(*old(k), p, cond_lock).lock_sleep(
                old(cpu).id as int,
            ).unlock_sleep(),
{
    match k.pool_sleep.lock(cpu) {
        Some(guard) => {
            k.pool_sleep.unlock(cpu, guard);
            true
        },
        None => false,
    }
}


/// A process that rests asleep on a channel is made ready by a waker on that
/// channel and by nothing else: a waker on another channel leaves it as it
/// is, and so does a scheduler, which takes it for not ready.
pub proof fn lemma_sleeper_wakes_on_its_channel(pool: Seq<ProcInPool>, i: int, other: usize)
    requires
        0 <= i < pool.len(),
        pool[i] is Pooling,
        pool[i]->0.state == ProcessState::SLEEPING,
        other != pool[i]->0.channel,
    ensures
        woken(pool[i], pool[i]->0.channel) == ProcInPool::Pooling(
            Box::new(Process { state: ProcessState::RUNNABLE, ..*pool[i]->0 }),
        ),
        runnable_at(pool.update(i, woken(pool[i], pool[i]->0.channel)), i),
        woken(pool[i], other) == pool[i],
        !runnable_at(pool, i),
{
}

} // verus!
