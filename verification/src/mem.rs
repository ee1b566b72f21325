//! Page-frame allocator: first-fit allocation of contiguous runs of frames
//! over a fixed heap region, with the run length stored in every frame's cell.

use vstd::prelude::*;
use vstd::arithmetic::power2::pow2;
use vstd::arithmetic::power2::lemma_pow2_pos;
use vstd::arithmetic::power2::lemma2_to64;
use vstd::bits::lemma_usize_shl_is_mul;
use vstd::bits::lemma_usize_pow2_no_overflow;
use vstd::bits::lemma_usize_low_bits_mask_is_mod;
use vstd::bits::low_bits_mask;
use crate::process::cpu::Cpu;
use crate::spinlock::Mutex;
use crate::symbols::PAGE_ORDER;
use crate::symbols::PAGE_SIZE;

verus! {

/// Number of frames in the kernel heap: 128 MiB of pages.
pub const MAX_PAGE: usize = 32768;

proof fn lemma_shift_is_pow2(order: usize)
    requires
        order < usize::BITS,
    ensures
        (1usize << order) == pow2(order as nat),
        pow2(order as nat) > 0,
        pow2(order as nat) <= usize::MAX,
{
    lemma_usize_pow2_no_overflow(order as nat);
    lemma_pow2_pos(order as nat);
    lemma_usize_shl_is_mul(1usize, order);
}

proof fn lemma_mask_down(val: usize, order: usize)
    requires
        order < usize::BITS,
    ensures
        val & !(((1usize << order) - 1) as usize) == val - val % (1usize << order),
{
    lemma_shift_is_pow2(order);
    let m: usize = ((1usize << order) - 1) as usize;
    assert(m == low_bits_mask(order as nat));
    lemma_usize_low_bits_mask_is_mod(val, order as nat);
    assert(val & !m == val - (val & m)) by (bit_vector);
}

/// Rounds `val` down to a multiple of `2^order`.
pub fn align_val_down(val: usize, order: usize) -> (r: usize)
    requires
        order < usize::BITS,
    ensures
        r as int % pow2(order as nat) as int == 0,
        r <= val,
        val - r < pow2(order as nat),
{
    proof {
        lemma_shift_is_pow2(order);
        lemma_mask_down(val, order);
        let p = pow2(order as nat) as int;
        assert((val as int - val as int % p) % p == 0) by {
            vstd::arithmetic::div_mod::lemma_fundamental_div_mod(val as int, p);
            vstd::arithmetic::div_mod::lemma_mod_multiples_basic(val as int / p, p);
            vstd::arithmetic::mul::lemma_mul_is_commutative(val as int / p, p);
        }
    }
    val & !((1usize << order) - 1)
}

/// Rounds `val` up to a multiple of `2^order`.
pub fn align_val(val: usize, order: usize) -> (r: usize)
    requires
        order < usize::BITS,
        val + pow2(order as nat) - 1 <= usize::MAX,
    ensures
        r as int % pow2(order as nat) as int == 0,
        val <= r,
        r - val < pow2(order as nat),
{
    proof {
        lemma_shift_is_pow2(order);
    }
    let o: usize = (1usize << order) - 1;
    proof {
        lemma_mask_down((val + o) as usize, order);
        let p = pow2(order as nat) as int;
        let v = val + o;
        assert((v - v % p) % p == 0) by {
            vstd::arithmetic::div_mod::lemma_fundamental_div_mod(v, p);
            vstd::arithmetic::div_mod::lemma_mod_multiples_basic(v / p, p);
            vstd::arithmetic::mul::lemma_mul_is_commutative(v / p, p);
        }
    }
    (val + o) & !o
}

/// Rounds `val` down to the start of its page.
pub fn page_down(val: usize) -> (r: usize)
    ensures
        r == val - val % 4096,
{
    proof {
        lemma2_to64();
    }
    let r = align_val_down(val, PAGE_ORDER);
    assert(r == val - val % 4096) by {
        let q = val as int / 4096;
        let qr = r as int / 4096;
        assert(r as int == 4096 * qr);
        assert(val as int == 4096 * q + val as int % 4096);
    }
    r
}


/// The allocator's state: where the heap starts, and one cell per frame.
///
/// A cell holds 0 while its frame is free. The frames of a live run of `k`
/// frames each hold `k`, so the length of a run can be read at its first frame.
pub struct Allocator {
    pub base_addr: usize,
    pub page_allocated: Vec<usize>,
}

/// Number of frames that `size` bytes take: `size / PAGE_SIZE`, rounded up.
pub open spec fn pages_of(size: int) -> int {
    (size + PAGE_SIZE - 1) / (PAGE_SIZE as int)
}

/// The `k` cells from `i` on exist and are all free.
pub open spec fn all_free(cells: Seq<usize>, i: int, k: int) -> bool {
    &&& 0 <= i
    &&& 0 <= k
    &&& i + k <= cells.len()
    &&& forall|j: int| i <= j < i + k ==> cells[j] == 0
}

/// A run of `k` frames can be placed at `i`: the frame `i` is free, and so
/// are the `k` frames from it on. (For `k == 0` this asks for one free frame.)
pub open spec fn fits(cells: Seq<usize>, i: int, k: int) -> bool {
    &&& i < cells.len()
    &&& all_free(cells, i, k)
    &&& cells[i] == 0
}

/// A run of `k` frames can be placed somewhere.
pub open spec fn has_fit(cells: Seq<usize>, k: int) -> bool {
    exists|i: int| fits(cells, i, k)
}

/// `i` is the lowest index at which a run of `k` frames can be placed.
pub open spec fn first_fit(cells: Seq<usize>, k: int, i: int) -> bool {
    &&& fits(cells, i, k)
    &&& forall|j: int| 0 <= j < i ==> !fits(cells, j, k)
}

/// `cells` with `v` written into the `k` cells from `i` on.
pub open spec fn stamp(cells: Seq<usize>, i: int, k: int, v: usize) -> Seq<usize> {
    Seq::new(cells.len(), |j: int| if i <= j < i + k { v } else { cells[j] })
}

/// Read from `from` on, the cells split into free cells and whole runs: a
/// nonzero cell `k` at the reading position starts `k` cells that all hold `k`.
pub open spec fn tiled(cells: Seq<usize>, from: int) -> bool
    decreases cells.len() - from,
{
    if from < 0 {
        false
    } else if from >= cells.len() {
        from == cells.len()
    } else if cells[from] == 0 {
        tiled(cells, from + 1)
    } else {
        let k = cells[from] as int;
        &&& from + k <= cells.len()
        &&& forall|j: int| from <= j < from + k ==> cells[j] == k
        &&& tiled(cells, from + k)
    }
}

/// Reading from `from` on, a run starts exactly at `i`.
pub open spec fn head_from(cells: Seq<usize>, from: int, i: int) -> bool
    decreases cells.len() - from,
{
    if from < 0 || from >= cells.len() || from > i {
        false
    } else if from == i {
        cells[i] != 0
    } else if cells[from] == 0 {
        head_from(cells, from + 1, i)
    } else if from + cells[from] > cells.len() {
        false
    } else {
        head_from(cells, from + cells[from], i)
    }
}

/// The live runs from `from` on, in address order, each as first frame and length.
pub open spec fn runs_from(cells: Seq<usize>, from: int) -> Seq<(int, int)>
    decreases cells.len() - from,
{
    if from < 0 || from >= cells.len() {
        Seq::empty()
    } else if cells[from] == 0 {
        runs_from(cells, from + 1)
    } else if from + cells[from] > cells.len() {
        seq![(from, cells[from] as int)]
    } else {
        seq![(from, cells[from] as int)] + runs_from(cells, from + cells[from])
    }
}

/// Two cell arrays that agree from `from` on are tiled alike from there.
proof fn lemma_tiled_agree(a: Seq<usize>, b: Seq<usize>, from: int)
    requires
        0 <= from,
        a.len() == b.len(),
        forall|j: int| from <= j < a.len() ==> a[j] == b[j],
        tiled(a, from),
    ensures
        tiled(b, from),
    decreases a.len() - from,
{
    if from < a.len() {
        if a[from] == 0 {
            lemma_tiled_agree(a, b, from + 1);
        } else {
            lemma_tiled_agree(a, b, from + a[from]);
        }
    }
}

/// Free cells may be read one by one or skipped at once.
proof fn lemma_tiled_across_free(cells: Seq<usize>, a: int, b: int)
    requires
        0 <= a <= b <= cells.len(),
        forall|j: int| a <= j < b ==> cells[j] == 0,
    ensures
        tiled(cells, a) == tiled(cells, b),
    decreases b - a,
{
    if a < b {
        lemma_tiled_across_free(cells, a + 1, b);
    }
}

/// Stamping a run onto free cells keeps the tiling and makes its first cell a head.
proof fn lemma_alloc_keeps_tiling(cells: Seq<usize>, from: int, i: int, k: int)
    requires
        0 <= from <= i,
        0 < k <= usize::MAX,
        all_free(cells, i, k),
        tiled(cells, from),
    ensures
        tiled(stamp(cells, i, k, k as usize), from),
        head_from(stamp(cells, i, k, k as usize), from, i),
    decreases i - from,
{
    let next = stamp(cells, i, k, k as usize);
    if from == i {
        lemma_tiled_across_free(cells, i, i + k);
        lemma_tiled_agree(cells, next, i + k);
    } else if cells[from] == 0 {
        lemma_alloc_keeps_tiling(cells, from + 1, i, k);
    } else {
        let m = cells[from] as int;
        if from + m > i {
            assert(cells[i] == m);
        }
        lemma_alloc_keeps_tiling(cells, from + m, i, k);
    }
}

/// Clearing a run from its head keeps the tiling.
proof fn lemma_free_keeps_tiling(cells: Seq<usize>, from: int, i: int)
    requires
        0 <= from <= i < cells.len(),
        tiled(cells, from),
        head_from(cells, from, i),
    ensures
        tiled(stamp(cells, i, cells[i] as int, 0), from),
    decreases i - from,
{
    let k = cells[i] as int;
    let next = stamp(cells, i, k, 0);
    if from == i {
        lemma_tiled_agree(cells, next, i + k);
        lemma_tiled_across_free(next, i, i + k);
    } else if cells[from] == 0 {
        lemma_free_keeps_tiling(cells, from + 1, i);
    } else {
        let m = cells[from] as int;
        assert(head_from(cells, from + m, i));
        lemma_free_keeps_tiling(cells, from + m, i);
    }
}

impl Allocator {
    /// The heap region fits the address space, starts on a page boundary, and
    /// its cells split into free cells and whole runs.
    pub open spec fn wf(&self) -> bool {
        &&& self.base_addr as int % (PAGE_SIZE as int) == 0
        &&& self.base_addr + self.page_allocated@.len() * PAGE_SIZE <= usize::MAX
        &&& tiled(self.page_allocated@, 0)
    }

    /// Address of frame `id`.
    pub open spec fn addr_of(&self, id: int) -> int {
        self.base_addr + id * PAGE_SIZE
    }

    /// Frame that holds `addr`.
    pub open spec fn frame_of(&self, addr: int) -> int {
        (addr - self.base_addr) / (PAGE_SIZE as int)
    }

    /// A run is live with its first frame at `id`.
    pub open spec fn is_head(&self, id: int) -> bool {
        head_from(self.page_allocated@, 0, id)
    }

    /// An allocator over the whole kernel heap, every frame free, based at 0
    /// until `init` places it.
    pub fn new() -> (r: Self)
        ensures
            r.base_addr == 0,
            r.page_allocated@.len() == MAX_PAGE,
            forall|j: int| 0 <= j < MAX_PAGE ==> r.page_allocated@[j] == 0,
            r.wf(),
    {
        let r = Allocator { base_addr: 0, page_allocated: vec![0usize; MAX_PAGE] };
        proof {
            lemma_tiled_across_free(r.page_allocated@, 0, MAX_PAGE as int);
        }
        r
    }

    /// Address of frame `id`.
    pub fn offset_addr_of(&self, id: usize) -> (addr: usize)
        requires
            self.base_addr + id * PAGE_SIZE <= usize::MAX,
        ensures
            addr == self.addr_of(id as int),
    {
        let addr = self.base_addr + id * PAGE_SIZE;
        addr
    }

    /// Frame that holds the address `page`.
    pub fn offset_page_of(&self, page: usize) -> (id: usize)
        requires
            self.base_addr <= page,
        ensures
            id == self.frame_of(page as int),
    {
        let id = (page - self.base_addr) / PAGE_SIZE;
        id
    }

    /// First-fit search: the lowest free frame from which on `pages` frames
    /// are free.
    pub fn find_free(&self, pages: usize) -> (r: Option<usize>)
        ensures
            match r {
                Some(i) => first_fit(self.page_allocated@, pages as int, i as int),
                None => !has_fit(self.page_allocated@, pages as int),
            },
    {
        let n = self.page_allocated.len();
        if pages > n {
            return None;
        }
        let last = n - pages;
        let mut i: usize = 0;
        while i < n && i <= last
            invariant
                n == self.page_allocated@.len(),
                pages <= n,
                last == n - pages,
                forall|j: int| 0 <= j < i ==> !fits(self.page_allocated@, j, pages as int),
            decreases n - i,
        {
            if self.page_allocated[i] == 0 {
                let mut j: usize = 0;
                let mut found = true;
                while j < pages
                    invariant
                        n == self.page_allocated@.len(),
                        i + pages <= n,
                        j <= pages,
                        found ==> forall|t: int| i <= t < i + j ==> self.page_allocated@[t] == 0,
                        !found ==> !all_free(self.page_allocated@, i as int, pages as int),
                        found || j == pages,
                    decreases pages - j,
                {
                    if self.page_allocated[i + j] != 0 {
                        found = false;
                        j = pages;
                    } else {
                        j += 1;
                    }
                }
                if found {
                    return Some(i);
                }
            }
            i += 1;
        }
        None
    }

    /// Allocates `size` bytes as a run of whole frames, first fit, and returns
    /// the address of the run. A request for no bytes gets the address of the
    /// lowest free frame and marks nothing.
    ///
    /// The caller makes sure that a run is to be had (`find_free` tells): an
    /// exhausted heap is fatal to the kernel.
    pub fn allocate(&mut self, size: usize) -> (addr: usize)
        requires
            old(self).wf(),
            has_fit(old(self).page_allocated@, pages_of(size as int)),
        ensures
            final(self).wf(),
            final(self).base_addr == old(self).base_addr,
            addr == old(self).addr_of(old(self).frame_of(addr as int)),
            first_fit(
                old(self).page_allocated@,
                pages_of(size as int),
                old(self).frame_of(addr as int),
            ),
            final(self).page_allocated@ == stamp(
                old(self).page_allocated@,
                old(self).frame_of(addr as int),
                pages_of(size as int),
                pages_of(size as int) as usize,
            ),
            pages_of(size as int) > 0 ==> final(self).is_head(old(self).frame_of(addr as int)),
            addr as int % (PAGE_SIZE as int) == 0,
            addr >= old(self).base_addr,
            addr + pages_of(size as int) * PAGE_SIZE <= old(self).base_addr + old(
                self,
            ).page_allocated@.len() * PAGE_SIZE,
    {
        let page_required = size / PAGE_SIZE + if size % PAGE_SIZE != 0 {
            1usize
        } else {
            0usize
        };
        assert(page_required == pages_of(size as int));
        let found = self.find_free(page_required);
        let i = found.unwrap();
        let n = self.page_allocated.len();
        let mut j: usize = 0;
        while j < page_required
            invariant
                j <= page_required,
                i + page_required <= n,
                n == self.page_allocated@.len(),
                self.page_allocated@.len() == old(self).page_allocated@.len(),
                self.base_addr == old(self).base_addr,
                self.page_allocated@ == stamp(
                    old(self).page_allocated@,
                    i as int,
                    j as int,
                    page_required,
                ),
            decreases page_required - j,
        {
            self.page_allocated[i + j] = page_required;
            j += 1;
            assert(self.page_allocated@ =~= stamp(
                old(self).page_allocated@,
                i as int,
                j as int,
                page_required,
            ));
        }
        proof {
            if page_required > 0 {
                lemma_alloc_keeps_tiling(
                    old(self).page_allocated@,
                    0,
                    i as int,
                    page_required as int,
                );
            } else {
                assert(self.page_allocated@ =~= old(self).page_allocated@);
            }
            assert(i * PAGE_SIZE + page_required * PAGE_SIZE <= self.page_allocated@.len()
                * PAGE_SIZE) by (nonlinear_arith)
                requires
                    i + page_required <= self.page_allocated@.len(),
            ;
        }
        let addr = self.offset_addr_of(i);
        assert(self.frame_of(addr as int) == i);
        addr
    }

    /// Whether `addr` lies in the first frame of a live run.
    pub fn starts_run(&self, addr: usize) -> (r: bool)
        requires
            self.wf(),
        ensures
            r == (self.base_addr <= addr && self.frame_of(addr as int) < self.page_allocated@.len()
                && self.is_head(self.frame_of(addr as int))),
    {
        if addr < self.base_addr {
            return false;
        }
        let id = self.offset_page_of(addr);
        let n = self.page_allocated.len();
        if id >= n {
            return false;
        }
        let mut j: usize = 0;
        while j < id
            invariant
                id < n,
                j <= n,
                n == self.page_allocated@.len(),
                tiled(self.page_allocated@, j as int),
                head_from(self.page_allocated@, 0, id as int) == head_from(
                    self.page_allocated@,
                    j as int,
                    id as int,
                ),
            decreases n - j,
        {
            let size = self.page_allocated[j];
            if size != 0 {
                j += size;
            } else {
                j += 1;
            }
        }
        j == id && self.page_allocated[id] != 0
    }

    /// Frees the run that starts at the frame of `addr`: reads its length at
    /// that frame and clears that many cells. On a free frame nothing changes.
    ///
    /// `addr` lies in the heap and not inside a run past its first frame.
    pub fn deallocate(&mut self, addr: usize)
        requires
            old(self).wf(),
            old(self).base_addr <= addr,
            old(self).frame_of(addr as int) < old(self).page_allocated@.len(),
            old(self).page_allocated@[old(self).frame_of(addr as int)] != 0 ==> old(self).is_head(
                old(self).frame_of(addr as int),
            ),
        ensures
            final(self).wf(),
            final(self).base_addr == old(self).base_addr,
            final(self).page_allocated@ == stamp(
                old(self).page_allocated@,
                old(self).frame_of(addr as int),
                old(self).page_allocated@[old(self).frame_of(addr as int)] as int,
                0,
            ),
    {
        let id = self.offset_page_of(addr);
        let page_stride = self.page_allocated[id];
        let n = self.page_allocated.len();
        proof {
            if page_stride != 0 {
                lemma_head_run(self.page_allocated@, 0, id as int);
                lemma_free_keeps_tiling(self.page_allocated@, 0, id as int);
            }
        }
        let mut j: usize = 0;
        while j < page_stride
            invariant
                j <= page_stride,
                id + page_stride <= n,
                n == self.page_allocated@.len(),
                self.page_allocated@.len() == old(self).page_allocated@.len(),
                self.base_addr == old(self).base_addr,
                self.page_allocated@ == stamp(old(self).page_allocated@, id as int, j as int, 0),
            decreases page_stride - j,
        {
            self.page_allocated[j + id] = 0;
            j += 1;
            assert(self.page_allocated@ =~= stamp(
                old(self).page_allocated@,
                id as int,
                j as int,
                0,
            ));
        }
        proof {
            if page_stride == 0 {
                assert(self.page_allocated@ =~= old(self).page_allocated@);
            }
        }
    }
}

/// A head's run lies inside the array and holds its length in every cell.
proof fn lemma_head_run(cells: Seq<usize>, from: int, i: int)
    requires
        0 <= from,
        tiled(cells, from),
        head_from(cells, from, i),
    ensures
        0 <= i < cells.len(),
        cells[i] != 0,
        i + cells[i] <= cells.len(),
        forall|j: int| i <= j < i + cells[i] ==> cells[j] == cells[i],
        tiled(cells, i),
    decreases cells.len() - from,
{
    if from == i {
    } else if cells[from] == 0 {
        lemma_head_run(cells, from + 1, i);
    } else {
        lemma_head_run(cells, from + cells[from], i);
    }
}


impl Allocator {
    /// The live runs in address order, each as the address of its first byte,
    /// the address past its last byte, and its number of frames: what the
    /// kernel prints when asked to show the heap.
    pub fn debug(&self) -> (lines: Vec<(usize, usize, usize)>)
        requires
            self.wf(),
        ensures
            lines@.len() == runs_from(self.page_allocated@, 0).len(),
            forall|t: int|
                0 <= t < lines@.len() ==> {
                    let run = #[trigger] runs_from(self.page_allocated@, 0)[t];
                    &&& lines@[t].0 == self.addr_of(run.0)
                    &&& lines@[t].1 == self.addr_of(run.0 + run.1)
                    &&& lines@[t].2 == run.1
                },
    {
        let n = self.page_allocated.len();
        let mut lines: Vec<(usize, usize, usize)> = Vec::new();
        let ghost done: Seq<(int, int)> = Seq::empty();
        let mut j: usize = 0;
        while j < n
            invariant
                self.wf(),
                n == self.page_allocated@.len(),
                j <= n,
                tiled(self.page_allocated@, j as int),
                runs_from(self.page_allocated@, 0) == done + runs_from(
                    self.page_allocated@,
                    j as int,
                ),
                lines@.len() == done.len(),
                forall|t: int|
                    0 <= t < done.len() ==> {
                        &&& lines@[t].0 == self.addr_of(#[trigger] done[t].0)
                        &&& lines@[t].1 == self.addr_of(done[t].0 + done[t].1)
                        &&& lines@[t].2 == done[t].1
                    },
            decreases n - j,
        {
            let size = self.page_allocated[j];
            if size != 0 {
                proof {
                    assert(j * PAGE_SIZE <= (j + size) * PAGE_SIZE <= n * PAGE_SIZE)
                        by (nonlinear_arith)
                        requires
                            0 <= j,
                            0 <= size,
                            j + size <= n,
                    ;
                }
                let from = self.offset_addr_of(j);
                let to = self.offset_addr_of(j + size);
                lines.push((from, to, size));
                proof {
                    let rest = runs_from(self.page_allocated@, j + size);
                    assert(done + (seq![(j as int, size as int)] + rest) =~= done.push(
                        (j as int, size as int),
                    ) + rest);
                    done = done.push((j as int, size as int));
                }
                j += size;
            } else {
                j += 1;
            }
        }
        proof {
            assert(done + Seq::<(int, int)>::empty() =~= done);
        }
        lines
    }
}

/// The kernel heap's allocator in its lock, as it is before `init`: this is
/// the value that the kernel keeps for its whole run.
#[allow(non_snake_case)]
pub fn ALLOC() -> (m: Mutex<Allocator>)
    ensures
        m.wf(),
        !m.is_locked(),
        m.name@ == "alloc"@,
        m.data.wf(),
        m.data.base_addr == 0,
        m.data.page_allocated@.len() == MAX_PAGE,
        forall|j: int| 0 <= j < MAX_PAGE ==> m.data.page_allocated@[j] == 0,
{
    Mutex::new(Allocator::new(), "alloc")
}

/// Places the heap: under the heap's lock, its base becomes `heap_start`
/// rounded up to a page boundary.
pub fn init(alloc: &mut Mutex<Allocator>, cpu: &mut Cpu, heap_start: usize)
    requires
        old(alloc).wf(),
        !old(alloc).is_locked(),
        old(cpu).wf(),
        old(cpu).intr_lock.depth < usize::MAX,
        heap_start + PAGE_SIZE - 1 <= usize::MAX,
    ensures
        final(alloc).wf(),
        !final(alloc).is_locked(),
        final(alloc).name == old(alloc).name,
        *final(cpu) == *old(cpu),
        final(alloc).data.page_allocated == old(alloc).data.page_allocated,
        final(alloc).data.base_addr as int % (PAGE_SIZE as int) == 0,
        heap_start <= final(alloc).data.base_addr < heap_start + PAGE_SIZE,
{
    proof {
        lemma2_to64();
    }
    let guard = alloc.lock(cpu).unwrap();
    alloc.get_mut(&guard).base_addr = align_val(heap_start, PAGE_ORDER);
    alloc.unlock(cpu, guard);
}

/// Freeing what was just allocated restores the cell array: stamping a run on
/// free cells and then clearing it from its first frame gives the cells back.
pub proof fn lemma_allocate_then_deallocate(cells: Seq<usize>, size: int, i: int)
    requires
        0 <= pages_of(size) <= usize::MAX,
        first_fit(cells, pages_of(size), i),
    ensures
        ({
            let k = pages_of(size);
            let mid = stamp(cells, i, k, k as usize);
            stamp(mid, i, mid[i] as int, 0) == cells
        }),
{
    let k = pages_of(size);
    let mid = stamp(cells, i, k, k as usize);
    assert(mid[i] == k);
    assert(stamp(mid, i, mid[i] as int, 0) =~= cells);
}

/// Past a stretch of free cells the reading for a later head goes on unchanged.
proof fn lemma_head_past_free(cells: Seq<usize>, a: int, b: int, h: int)
    requires
        0 <= a <= b <= cells.len(),
        b <= h,
        forall|j: int| a <= j < b ==> cells[j] == 0,
    ensures
        head_from(cells, a, h) == head_from(cells, b, h),
    decreases b - a,
{
    if a < b {
        lemma_head_past_free(cells, a + 1, b, h);
    }
}

/// Stamping a run on free cells leaves every head a head.
proof fn lemma_alloc_keeps_heads(cells: Seq<usize>, from: int, h: int, i: int, k: int)
    requires
        0 <= from,
        from <= i || from >= i + k,
        0 < k <= usize::MAX,
        all_free(cells, i, k),
        tiled(cells, from),
        head_from(cells, from, h),
    ensures
        head_from(stamp(cells, i, k, k as usize), from, h),
    decreases cells.len() - from,
{
    let next = stamp(cells, i, k, k as usize);
    if from == h {
    } else if from == i {
        assert(cells[i] == 0);
        if h < i + k {
            assert(cells[h] == 0);
            lemma_head_zero(cells, from, h);
        }
        lemma_head_past_free(cells, i, i + k, h);
        lemma_tiled_across_free(cells, i, i + k);
        lemma_alloc_keeps_heads(cells, i + k, h, i, k);
    } else if cells[from] == 0 {
        lemma_alloc_keeps_heads(cells, from + 1, h, i, k);
    } else {
        let m = cells[from] as int;
        if from < i && from + m > i {
            assert(cells[i] == m);
        }
        lemma_alloc_keeps_heads(cells, from + m, h, i, k);
    }
}

/// A free cell is no head.
proof fn lemma_head_zero(cells: Seq<usize>, from: int, h: int)
    requires
        0 <= h < cells.len(),
        cells[h] == 0,
    ensures
        !head_from(cells, from, h),
    decreases cells.len() - from,
{
    if 0 <= from < cells.len() && from < h {
        if cells[from] == 0 {
            lemma_head_zero(cells, from + 1, h);
        } else if from + cells[from] <= cells.len() {
            lemma_head_zero(cells, from + cells[from], h);
        }
    }
}

/// Clearing one run leaves every other head a head, with its run untouched.
proof fn lemma_free_keeps_heads(cells: Seq<usize>, from: int, h: int, d: int)
    requires
        0 <= from,
        0 <= d < cells.len(),
        d + cells[d] <= cells.len(),
        cells[d] != 0,
        forall|j: int| d <= j < d + cells[d] ==> cells[j] == cells[d],
        head_from(cells, from, d) || from >= d + cells[d],
        h != d,
        tiled(cells, from),
        head_from(cells, from, h),
    ensures
        head_from(stamp(cells, d, cells[d] as int, 0), from, h),
        h < d || h >= d + cells[d],
    decreases cells.len() - from,
{
    let kd = cells[d] as int;
    let next = stamp(cells, d, kd, 0);
    if from == h {
    } else if from == d {
        lemma_free_keeps_heads(cells, d + kd, h, d);
        lemma_head_past_free(next, d, d + kd, h);
    } else if cells[from] == 0 {
        lemma_free_keeps_heads(cells, from + 1, h, d);
    } else {
        lemma_free_keeps_heads(cells, from + cells[from], h, d);
    }
}

/// While a run is live, no allocation is placed on any frame of it, nor
/// gets an address inside it, and the run stays as it is.
pub proof fn lemma_allocate_avoids_live_run(cells: Seq<usize>, h: int, size: int, i: int)
    requires
        tiled(cells, 0),
        head_from(cells, 0, h),
        0 <= pages_of(size) <= usize::MAX,
        first_fit(cells, pages_of(size), i),
    ensures
        ({
            let k = pages_of(size);
            let next = stamp(cells, i, k, k as usize);
            &&& i + k <= h || h + cells[h] <= i
            &&& !(h <= i < h + cells[h])
            &&& i != h
            &&& forall|t: int| h <= t < h + cells[h] ==> next[t] == cells[t]
            &&& head_from(next, 0, h)
        }),
{
    let k = pages_of(size);
    lemma_head_run(cells, 0, h);
    if h <= i < h + cells[h] {
        assert(cells[i] == cells[h]);
    }
    if !(i + k <= h || h + cells[h] <= i) {
        assert(cells[h] == 0);
    }
    if k > 0 {
        lemma_alloc_keeps_heads(cells, 0, h, i, k);
    } else {
        assert(stamp(cells, i, k, k as usize) =~= cells);
    }
}

/// Freeing one run leaves every other live run as it is, frames and head.
pub proof fn lemma_deallocate_keeps_other_runs(cells: Seq<usize>, h: int, d: int)
    requires
        tiled(cells, 0),
        head_from(cells, 0, h),
        head_from(cells, 0, d),
        h != d,
    ensures
        ({
            let next = stamp(cells, d, cells[d] as int, 0);
            &&& forall|t: int| h <= t < h + cells[h] ==> next[t] == cells[t]
            &&& head_from(next, 0, h)
        }),
{
    lemma_head_run(cells, 0, h);
    lemma_head_run(cells, 0, d);
    lemma_free_keeps_heads(cells, 0, h, d);
    lemma_free_keeps_heads(cells, 0, d, h);
}

} // verus!
