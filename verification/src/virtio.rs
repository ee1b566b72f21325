//! Driver for a legacy VirtIO block device behind memory-mapped registers.
//!
//! The driver owns one queue of `DESC_NUM` descriptors. A request is a chain
//! of three descriptors (header, data, status byte); its head is published
//! in the available ring, and the device reports it back in the used ring.
//! Register accesses, the memory that the device reads and writes, and the
//! wait for the device are the caller's: the functions here say which access
//! comes next, and what descriptors and rings have to hold.

use vstd::prelude::*;
use crate::process::cpu::Cpu;
use crate::spinlock::Mutex;
use crate::symbols::PAGE_ORDER;
use crate::symbols::PAGE_SIZE;

verus! {

/// Where the device's registers are mapped.
pub const VIRTIO_MMIO_BASE: usize = 0x10001000;

/// The device's registers.
#[allow(non_camel_case_types)]
#[derive(Clone, Copy, Debug, PartialEq, Eq, Structural)]
pub enum VIRTIO_MMIO {
    MAGIC_VALUE,
    VERSION,
    DEVICE_ID,
    VENDOR_ID,
    DEVICE_FEATURES,
    DRIVER_FEATURES,
    GUEST_PAGE_SIZE,
    QUEUE_SEL,
    QUEUE_NUM_MAX,
    QUEUE_NUM,
    QUEUE_ALIGN,
    QUEUE_PFN,
    QUEUE_READY,
    QUEUE_NOTIFY,
    INTERRUPT_STATUS,
    INTERRUPT_ACK,
    STATUS,
}

impl VIRTIO_MMIO {
    /// The register's offset from the base.
    pub open spec fn offset(self) -> int {
        match self {
            VIRTIO_MMIO::MAGIC_VALUE => 0x0,
            VIRTIO_MMIO::VERSION => 0x4,
            VIRTIO_MMIO::DEVICE_ID => 0x8,
            VIRTIO_MMIO::VENDOR_ID => 0xc,
            VIRTIO_MMIO::DEVICE_FEATURES => 0x10,
            VIRTIO_MMIO::DRIVER_FEATURES => 0x20,
            VIRTIO_MMIO::GUEST_PAGE_SIZE => 0x28,
            VIRTIO_MMIO::QUEUE_SEL => 0x30,
            VIRTIO_MMIO::QUEUE_NUM_MAX => 0x34,
            VIRTIO_MMIO::QUEUE_NUM => 0x38,
            VIRTIO_MMIO::QUEUE_ALIGN => 0x3c,
            VIRTIO_MMIO::QUEUE_PFN => 0x40,
            VIRTIO_MMIO::QUEUE_READY => 0x44,
            VIRTIO_MMIO::QUEUE_NOTIFY => 0x50,
            VIRTIO_MMIO::INTERRUPT_STATUS => 0x60,
            VIRTIO_MMIO::INTERRUPT_ACK => 0x64,
            VIRTIO_MMIO::STATUS => 0x70,
        }
    }

    /// The register's address.
    pub fn val(self) -> (addr: usize)
        ensures
            addr == VIRTIO_MMIO_BASE + self.offset(),
    {
        let offset: usize = match self {
            VIRTIO_MMIO::MAGIC_VALUE => 0x0,
            VIRTIO_MMIO::VERSION => 0x4,
            VIRTIO_MMIO::DEVICE_ID => 0x8,
            VIRTIO_MMIO::VENDOR_ID => 0xc,
            VIRTIO_MMIO::DEVICE_FEATURES => 0x10,
            VIRTIO_MMIO::DRIVER_FEATURES => 0x20,
            VIRTIO_MMIO::GUEST_PAGE_SIZE => 0x28,
            VIRTIO_MMIO::QUEUE_SEL => 0x30,
            VIRTIO_MMIO::QUEUE_NUM_MAX => 0x34,
            VIRTIO_MMIO::QUEUE_NUM => 0x38,
            VIRTIO_MMIO::QUEUE_ALIGN => 0x3c,
            VIRTIO_MMIO::QUEUE_PFN => 0x40,
            VIRTIO_MMIO::QUEUE_READY => 0x44,
            VIRTIO_MMIO::QUEUE_NOTIFY => 0x50,
            VIRTIO_MMIO::INTERRUPT_STATUS => 0x60,
            VIRTIO_MMIO::INTERRUPT_ACK => 0x64,
            VIRTIO_MMIO::STATUS => 0x70,
        };
        offset + VIRTIO_MMIO_BASE
    }
}

/// Bits of the device status register.
#[allow(non_camel_case_types)]
#[derive(Clone, Copy, Debug)]
pub enum VIRTIO_CONFIG_S {
    ACKNOWLDGE,
    DRIVER,
    DRIVER_OK,
    FEATURES_OK,
}

impl VIRTIO_CONFIG_S {
    /// The status bit.
    pub open spec fn mask(self) -> u32 {
        match self {
            VIRTIO_CONFIG_S::ACKNOWLDGE => 1,
            VIRTIO_CONFIG_S::DRIVER => 2,
            VIRTIO_CONFIG_S::DRIVER_OK => 4,
            VIRTIO_CONFIG_S::FEATURES_OK => 8,
        }
    }

    /// The status bit.
    pub fn val(self) -> (r: u32)
        ensures
            r == self.mask(),
    {
        match self {
            VIRTIO_CONFIG_S::ACKNOWLDGE => 1,
            VIRTIO_CONFIG_S::DRIVER => 2,
            VIRTIO_CONFIG_S::DRIVER_OK => 4,
            VIRTIO_CONFIG_S::FEATURES_OK => 8,
        }
    }
}

/// Device features that the driver turns down.
#[allow(non_camel_case_types)]
#[derive(Clone, Copy, Debug)]
pub enum VIRTIO_FEATURE {
    BLK_F_RO,
    BLK_F_SCSI,
    BLK_F_CONFIG_WCE,
    BLK_F_MQ,
    F_ANY_LAYOUT,
    RING_F_INDIRECT_DESC,
    RING_F_EVENT_IDX,
}

impl VIRTIO_FEATURE {
    /// The feature's bit number.
    pub open spec fn number(self) -> u32 {
        match self {
            VIRTIO_FEATURE::BLK_F_RO => 5,
            VIRTIO_FEATURE::BLK_F_SCSI => 7,
            VIRTIO_FEATURE::BLK_F_CONFIG_WCE => 11,
            VIRTIO_FEATURE::BLK_F_MQ => 12,
            VIRTIO_FEATURE::F_ANY_LAYOUT => 27,
            VIRTIO_FEATURE::RING_F_INDIRECT_DESC => 28,
            VIRTIO_FEATURE::RING_F_EVENT_IDX => 29,
        }
    }

    /// The feature's bit in the feature word.
    pub fn bit(self) -> (r: u32)
        ensures
            r == 1u32 << self.number(),
    {
        let n: u32 = match self {
            VIRTIO_FEATURE::BLK_F_RO => 5,
            VIRTIO_FEATURE::BLK_F_SCSI => 7,
            VIRTIO_FEATURE::BLK_F_CONFIG_WCE => 11,
            VIRTIO_FEATURE::BLK_F_MQ => 12,
            VIRTIO_FEATURE::F_ANY_LAYOUT => 27,
            VIRTIO_FEATURE::RING_F_INDIRECT_DESC => 28,
            VIRTIO_FEATURE::RING_F_EVENT_IDX => 29,
        };
        1u32 << n
    }
}

/// Descriptors in the queue.
pub const DESC_NUM: usize = 8;

/// One descriptor: a piece of memory for the device.
#[derive(Clone, Copy, Debug)]
pub struct VRingDesc {
    pub addr: usize,
    pub len: u32,
    pub flags: u16,
    pub next: u16,
}

impl VRingDesc {
    pub fn new() -> (d: Self)
        ensures
            d == (VRingDesc { addr: 0, len: 0, flags: 0, next: 0 }),
    {
        Self { addr: 0, len: 0, flags: 0, next: 0 }
    }
}

/// Descriptor flag: the chain goes on at `next`.
pub const VRING_DESC_F_NEXT: u16 = 1;

/// Descriptor flag: the device writes this memory.
pub const VRING_DESC_F_WRITE: u16 = 2;

/// One completion in the used ring: the head of the chain and the bytes written.
#[derive(Clone, Copy, Debug)]
pub struct VRingUsedElem {
    pub id: u32,
    pub len: u32,
}

impl VRingUsedElem {
    pub fn new() -> (e: Self)
        ensures
            e == (VRingUsedElem { id: 0, len: 0 }),
    {
        Self { id: 0, len: 0 }
    }
}

/// Request type: read from the disk.
pub const VIRTIO_BLK_T_IN: u32 = 0;

/// Request type: write to the disk.
pub const VIRTIO_BLK_T_OUT: u32 = 1;

/// The used ring, which the device writes.
#[derive(Clone, Copy, Debug)]
pub struct UsedArea {
    pub flags: u16,
    /// Number of completions that the device has reported so far.
    pub id: u16,
    pub elems: [VRingUsedElem; DESC_NUM],
}

impl UsedArea {
    pub fn new() -> (u: Self)
        ensures
            u.flags == 0,
            u.id == 0,
            forall|i: int| 0 <= i < DESC_NUM ==> u.elems@[i] == (VRingUsedElem { id: 0, len: 0 }),
    {
        Self { flags: 0, id: 0, elems: [VRingUsedElem::new();DESC_NUM] }
    }
}

/// Bytes of one descriptor in the device's view.
pub const DESC_SIZE: usize = 16;

/// Entries of the available area: it fills the device object's first page
/// behind the descriptors.
pub const AVAIL_SZ: usize = 1984;

/// Bytes in a block.
pub const BSIZE: usize = 1024;

/// A block buffer.
pub struct Buf {
    pub valid: bool,
    /// 1 while the disk owns the buffer.
    pub disk: i32,
    pub dev: u32,
    pub blockno: u32,
    pub data: [u8; BSIZE],
}

impl Buf {
    pub fn new() -> (b: Self)
        ensures
            !b.valid,
            b.disk == 0,
            b.dev == 0,
            b.blockno == 0,
            forall|i: int| 0 <= i < BSIZE ==> b.data@[i] == 0,
    {
        Self { valid: false, disk: 0, dev: 0, blockno: 0, data: [0u8;BSIZE] }
    }
}

/// A request on its way: the buffer, and the status byte for the device.
pub struct InflightOp {
    pub buf: Box<Buf>,
    pub status: usize,
}

/// The header that starts each request.
#[derive(Clone, Copy, Debug, PartialEq, Eq, Structural)]
pub struct BlkOutHdr {
    pub blk_type: u32,
    pub reserved: u32,
    pub sector: u64,
}

/// The device object. The device sees it through its physical page number:
/// the descriptors and the available area fill its first page, the used area
/// starts its second.
pub struct VirtIO {
    pub desc: [VRingDesc; DESC_NUM],
    /// Flags, the number of heads published so far, and the ring of heads.
    pub avail: [u16; AVAIL_SZ],
    pub used: [UsedArea; DESC_NUM],
    pub free: [bool; DESC_NUM],
    pub used_idx: u16,
    pub info: [Option<InflightOp>; DESC_NUM],
}

impl VirtIO {
    /// The device object is as `new` makes it: all zero, nothing free yet,
    /// nothing in flight.
    pub open spec fn is_fresh(&self) -> bool {
        &&& forall|i: int|
            0 <= i < DESC_NUM ==> self.desc@[i] == (VRingDesc {
                addr: 0,
                len: 0,
                flags: 0,
                next: 0,
            })
        &&& forall|i: int| 0 <= i < AVAIL_SZ ==> self.avail@[i] == 0
        &&& forall|i: int|
            0 <= i < DESC_NUM ==> {
                &&& (#[trigger] self.used@[i]).flags == 0
                &&& self.used@[i].id == 0
                &&& forall|j: int|
                    0 <= j < DESC_NUM ==> self.used@[i].elems@[j] == (VRingUsedElem {
                        id: 0,
                        len: 0,
                    })
            }
        &&& forall|i: int| 0 <= i < DESC_NUM ==> !self.free@[i]
        &&& forall|i: int| 0 <= i < DESC_NUM ==> self.info@[i] is None
        &&& self.used_idx == 0
    }

    /// The device object before `init`.
    pub fn new() -> (v: Self)
        ensures
            v.is_fresh(),
    {
        Self {
            desc: [VRingDesc::new();DESC_NUM],
            avail: [0u16;AVAIL_SZ],
            used: [UsedArea::new();DESC_NUM],
            free: [false;DESC_NUM],
            used_idx: 0,
            info: [None, None, None, None, None, None, None, None],
        }
    }

    /// Takes the lowest free descriptor.
    pub fn alloc_desc(&mut self) -> (r: Option<usize>)
        ensures
            final(self).desc == old(self).desc,
            final(self).avail == old(self).avail,
            final(self).used == old(self).used,
            final(self).used_idx == old(self).used_idx,
            final(self).info == old(self).info,
            match r {
                Some(i) => {
                    &&& i < DESC_NUM
                    &&& old(self).free@[i as int]
                    &&& forall|j: int| 0 <= j < i ==> !old(self).free@[j]
                    &&& final(self).free@ == old(self).free@.update(i as int, false)
                },
                None => {
                    &&& forall|j: int| 0 <= j < DESC_NUM ==> !old(self).free@[j]
                    &&& final(self).free == old(self).free
                },
            },
    {
        let mut i: usize = 0;
        while i < DESC_NUM
            invariant
                i <= DESC_NUM,
                *self == *old(self),
                forall|j: int| 0 <= j < i ==> !self.free@[j],
            decreases DESC_NUM - i,
        {
            if self.free[i] {
                self.free[i] = false;
                return Some(i);
            }
            i += 1;
        }
        None
    }

    /// Gives descriptor `i` back. It must be one of the queue's, and taken.
    pub fn free_desc(&mut self, i: usize)
        requires
            i < DESC_NUM,
            !old(self).free@[i as int],
        ensures
            final(self).desc@ == old(self).desc@.update(
                i as int,
                VRingDesc { addr: 0, ..old(self).desc@[i as int] },
            ),
            final(self).free@ == old(self).free@.update(i as int, true),
            final(self).avail == old(self).avail,
            final(self).used == old(self).used,
            final(self).used_idx == old(self).used_idx,
            final(self).info == old(self).info,
    {
        self.desc[i].addr = 0;
        self.free[i] = true;
    }
}


/// `a`, `b` and `c` are the three lowest free descriptors.
pub open spec fn lowest_three(free: Seq<bool>, a: int, b: int, c: int) -> bool {
    &&& 0 <= a < b < c < DESC_NUM
    &&& free[a]
    &&& free[b]
    &&& free[c]
    &&& forall|j: int| 0 <= j < c && j != a && j != b ==> !free[j]
}

/// At least three descriptors are free.
pub open spec fn three_free(free: Seq<bool>) -> bool {
    exists|a: int, b: int, c: int|
        #![trigger free[a], free[b], free[c]]
        0 <= a < b < c < DESC_NUM && free[a] && free[b] && free[c]
}

/// The chain of descriptors that starts at `i`, at most `n` long.
pub open spec fn chain(desc: Seq<VRingDesc>, i: int, n: nat) -> Seq<int>
    decreases n,
{
    if n == 0 {
        Seq::empty()
    } else if desc[i].flags & VRING_DESC_F_NEXT != 0 {
        seq![i] + chain(desc, desc[i].next as int, (n - 1) as nat)
    } else {
        seq![i]
    }
}

/// The chain that starts at `i` ends within `n` descriptors, and each of
/// them is one of the queue's, taken, and no second time in the chain.
pub open spec fn chain_ok(desc: Seq<VRingDesc>, free: Seq<bool>, i: int, n: nat) -> bool
    decreases n,
{
    &&& n > 0
    &&& 0 <= i < DESC_NUM
    &&& !free[i]
    &&& desc[i].flags & VRING_DESC_F_NEXT != 0 ==> chain_ok(
        desc,
        free.update(i, true),
        desc[i].next as int,
        (n - 1) as nat,
    )
}

/// A chain depends on the links of the descriptors only.
proof fn lemma_chain_links(d1: Seq<VRingDesc>, d2: Seq<VRingDesc>, free: Seq<bool>, i: int, n: nat)
    requires
        d1.len() == DESC_NUM,
        d2.len() == DESC_NUM,
        forall|j: int|
            0 <= j < DESC_NUM ==> d1[j].flags == d2[j].flags && d1[j].next == d2[j].next,
        chain_ok(d1, free, i, n),
    ensures
        chain(d1, i, n) == chain(d2, i, n),
        chain_ok(d2, free, i, n),
    decreases n,
{
    if n > 0 && d1[i].flags & VRING_DESC_F_NEXT != 0 {
        lemma_chain_links(d1, d2, free.update(i, true), d1[i].next as int, (n - 1) as nat);
    }
}

impl VirtIO {
    /// The place in the used ring that the driver reads next is one of the ring's.
    pub open spec fn wf(&self) -> bool {
        self.used_idx < DESC_NUM
    }

    /// Takes the three lowest free descriptors, or none: where fewer than
    /// three are free, those that were taken are given back, as `free_desc`
    /// gives them back.
    pub fn alloc3_desc(&mut self) -> (r: Option<[usize; 3]>)
        ensures
            final(self).avail == old(self).avail,
            final(self).used == old(self).used,
            final(self).used_idx == old(self).used_idx,
            final(self).info == old(self).info,
            match r {
                Some(idx) => {
                    &&& lowest_three(old(self).free@, idx@[0] as int, idx@[1] as int, idx@[2] as int)
                    &&& final(self).free@ == old(self).free@.update(idx@[0] as int, false).update(
                        idx@[1] as int,
                        false,
                    ).update(idx@[2] as int, false)
                    &&& final(self).desc == old(self).desc
                },
                None => {
                    &&& !three_free(old(self).free@)
                    &&& final(self).free@ == old(self).free@
                    &&& forall|j: int|
                        0 <= j < DESC_NUM ==> #[trigger] final(self).desc@[j] == (if old(
                            self,
                        ).free@[j] {
                            VRingDesc { addr: 0, ..old(self).desc@[j] }
                        } else {
                            old(self).desc@[j]
                        })
                },
            },
    {
        let a = match self.alloc_desc() {
            Some(x) => x,
            None => {
                assert(self.free@ =~= old(self).free@);
                return None;
            },
        };
        let b = match self.alloc_desc() {
            Some(x) => x,
            None => {
                self.free_desc(a);
                assert(self.free@ =~= old(self).free@);
                return None;
            },
        };
        let c = match self.alloc_desc() {
            Some(x) => x,
            None => {
                self.free_desc(a);
                self.free_desc(b);
                assert(self.free@ =~= old(self).free@);
                return None;
            },
        };
        let mut idx = [0usize;3];
        idx[0] = a;
        idx[1] = b;
        idx[2] = c;
        proof {
            let f0 = old(self).free@;
            let f1 = f0.update(a as int, false);
            let f2 = f1.update(b as int, false);
            assert(a < b) by {
                if b <= a {
                    assert(f1[b as int]);
                }
            }
            assert(b < c) by {
                if c <= b {
                    assert(f2[c as int]);
                }
            }
            assert(f0[b as int]) by {
                assert(f1[b as int]);
            }
            assert(f0[c as int]) by {
                assert(f2[c as int]);
            }
            assert forall|j: int| 0 <= j < c && j != a && j != b implies !f0[j] by {
                assert(!f2[j]);
            }
            assert(idx@[0] == a && idx@[1] == b && idx@[2] == c);
            assert(self.desc == old(self).desc);
        }
        Some(idx)
    }

    /// Whether `free_chain` can give back the chain that starts at `i`: it
    /// ends, and each of its descriptors is one of the queue's, taken, and
    /// no second time in the chain.
    pub fn chain_is_taken(&self, i: usize) -> (r: bool)
        ensures
            r == chain_ok(self.desc@, self.free@, i as int, DESC_NUM as nat),
    {
        let mut taken = self.free;
        let mut at = i;
        let mut n: usize = DESC_NUM;
        loop
            invariant
                n <= DESC_NUM,
                chain_ok(self.desc@, self.free@, i as int, DESC_NUM as nat) == chain_ok(
                    self.desc@,
                    taken@,
                    at as int,
                    n as nat,
                ),
            decreases n,
        {
            if n == 0 || at >= DESC_NUM || taken[at] {
                return false;
            }
            if self.desc[at].flags & VRING_DESC_F_NEXT == 0 {
                return true;
            }
            taken[at] = true;
            at = self.desc[at].next as usize;
            n -= 1;
        }
    }

    /// Gives back the chain of descriptors that starts at `i`.
    pub fn free_chain(&mut self, i: usize)
        requires
            chain_ok(old(self).desc@, old(self).free@, i as int, DESC_NUM as nat),
        ensures
            final(self).avail == old(self).avail,
            final(self).used == old(self).used,
            final(self).used_idx == old(self).used_idx,
            final(self).info == old(self).info,
            forall|j: int|
                0 <= j < DESC_NUM ==> #[trigger] final(self).free@[j] == (old(self).free@[j]
                    || chain(old(self).desc@, i as int, DESC_NUM as nat).contains(j)),
            forall|j: int|
                0 <= j < DESC_NUM ==> #[trigger] final(self).desc@[j] == (if chain(
                    old(self).desc@,
                    i as int,
                    DESC_NUM as nat,
                ).contains(j) {
                    VRingDesc { addr: 0, ..old(self).desc@[j] }
                } else {
                    old(self).desc@[j]
                }),
    {
        let ghost whole = chain(old(self).desc@, i as int, DESC_NUM as nat);
        let ghost mut done: Seq<int> = Seq::empty();
        let ghost mut n: nat = DESC_NUM as nat;
        let mut i = i;
        loop
            invariant_except_break
                chain_ok(self.desc@, self.free@, i as int, n),
                whole == done + chain(self.desc@, i as int, n),
            invariant
                self.avail == old(self).avail,
                self.used == old(self).used,
                self.used_idx == old(self).used_idx,
                self.info == old(self).info,
                forall|j: int|
                    0 <= j < DESC_NUM ==> self.desc@[j].flags == old(self).desc@[j].flags
                        && self.desc@[j].next == old(self).desc@[j].next,
                forall|j: int|
                    0 <= j < DESC_NUM ==> #[trigger] self.free@[j] == (old(self).free@[j]
                        || done.contains(j)),
                forall|j: int|
                    0 <= j < DESC_NUM ==> #[trigger] self.desc@[j] == (if done.contains(j) {
                        VRingDesc { addr: 0, ..old(self).desc@[j] }
                    } else {
                        old(self).desc@[j]
                    }),
            ensures
                whole == done,
            decreases n,
        {
            let ghost before = *self;
            self.free_desc(i);
            proof {
                lemma_chain_links(before.desc@, self.desc@, before.free@, i as int, n);
                assert(done.push(i as int).contains(i as int)) by {
                    assert(done.push(i as int)[done.len() as int] == i);
                }
                assert forall|j: int| 0 <= j < DESC_NUM implies (done.push(i as int).contains(j)
                    <==> (done.contains(j) || j == i)) by {
                    if done.contains(j) {
                        let t = choose|t: int| 0 <= t < done.len() && done[t] == j;
                        assert(done.push(i as int)[t] == j);
                    }
                }
            }
            if self.desc[i].flags & VRING_DESC_F_NEXT != 0 {
                proof {
                    assert(seq![i as int] + chain(
                        self.desc@,
                        self.desc@[i as int].next as int,
                        (n - 1) as nat,
                    ) == chain(self.desc@, i as int, n));
                    assert(done + (seq![i as int] + chain(
                        self.desc@,
                        self.desc@[i as int].next as int,
                        (n - 1) as nat,
                    )) =~= done.push(i as int) + chain(
                        self.desc@,
                        self.desc@[i as int].next as int,
                        (n - 1) as nat,
                    ));
                    done = done.push(i as int);
                    n = (n - 1) as nat;
                }
                i = self.desc[i].next as usize;
            } else {
                proof {
                    assert(done + seq![i as int] =~= done.push(i as int));
                    done = done.push(i as int);
                }
                break ;
            }
        }
    }
}


/// One access to a device register.
#[derive(Clone, Copy, Debug, PartialEq, Eq, Structural)]
pub enum MmioOp {
    /// Read the register; the value goes into the next step.
    Read(VIRTIO_MMIO),
    /// Write the value to the register.
    Write(VIRTIO_MMIO, u32),
}

/// Why no disk could be set up.
#[derive(Clone, Copy, Debug, PartialEq, Eq, Structural)]
pub enum InitError {
    MagicValue,
    Version,
    DeviceId,
    VendorId,
    NoQueue,
    QueueTooShort,
}

/// What the magic value register of a VirtIO device holds.
pub const VIRTIO_MAGIC: u32 = 0x74726976;

/// The vendor of the device that the driver is written for.
pub const VIRTIO_VENDOR: u32 = 0x554d4551;

/// The features that the driver turns down, as one mask.
pub const REJECTED_FEATURES: u32 = 0x3800_18a0;

/// Steps in the setup of the device.
pub const INIT_STEPS: usize = 15;

/// The setup of the device, step by step: what step `step` does, given the
/// answer to the read of the step before it, if that was a read. `pfn` is
/// the page number of the device object.
///
/// The identity of the device is read and checked; the status goes through
/// ACKNOWLEDGE, DRIVER, FEATURES_OK and DRIVER_OK, with the features that the
/// driver turns down cleared between DRIVER and FEATURES_OK; the page size is
/// announced; queue 0 is selected, its size checked and set, and the page
/// number of the device object handed over.
pub open spec fn init_script(step: int, answer: u32, pfn: u32) -> Result<Option<MmioOp>, InitError> {
    if step == 0 {
        Ok(Some(MmioOp::Read(VIRTIO_MMIO::MAGIC_VALUE)))
    } else if step == 1 {
        if answer != VIRTIO_MAGIC {
            Err(InitError::MagicValue)
        } else {
            Ok(Some(MmioOp::Read(VIRTIO_MMIO::VERSION)))
        }
    } else if step == 2 {
        if answer != 1 {
            Err(InitError::Version)
        } else {
            Ok(Some(MmioOp::Read(VIRTIO_MMIO::DEVICE_ID)))
        }
    } else if step == 3 {
        if answer != 2 {
            Err(InitError::DeviceId)
        } else {
            Ok(Some(MmioOp::Read(VIRTIO_MMIO::VENDOR_ID)))
        }
    } else if step == 4 {
        if answer != VIRTIO_VENDOR {
            Err(InitError::VendorId)
        } else {
            Ok(Some(MmioOp::Write(VIRTIO_MMIO::STATUS, 1)))
        }
    } else if step == 5 {
        Ok(Some(MmioOp::Write(VIRTIO_MMIO::STATUS, 3)))
    } else if step == 6 {
        Ok(Some(MmioOp::Read(VIRTIO_MMIO::DEVICE_FEATURES)))
    } else if step == 7 {
        Ok(Some(MmioOp::Write(VIRTIO_MMIO::DEVICE_FEATURES, answer & !REJECTED_FEATURES)))
    } else if step == 8 {
        Ok(Some(MmioOp::Write(VIRTIO_MMIO::STATUS, 11)))
    } else if step == 9 {
        Ok(Some(MmioOp::Write(VIRTIO_MMIO::STATUS, 15)))
    } else if step == 10 {
        Ok(Some(MmioOp::Write(VIRTIO_MMIO::GUEST_PAGE_SIZE, 4096)))
    } else if step == 11 {
        Ok(Some(MmioOp::Write(VIRTIO_MMIO::QUEUE_SEL, 0)))
    } else if step == 12 {
        Ok(Some(MmioOp::Read(VIRTIO_MMIO::QUEUE_NUM_MAX)))
    } else if step == 13 {
        if answer == 0 {
            Err(InitError::NoQueue)
        } else if answer < DESC_NUM {
            Err(InitError::QueueTooShort)
        } else {
            Ok(Some(MmioOp::Write(VIRTIO_MMIO::QUEUE_NUM, 8)))
        }
    } else if step == 14 {
        Ok(Some(MmioOp::Write(VIRTIO_MMIO::QUEUE_PFN, pfn)))
    } else {
        Ok(None)
    }
}

/// The status word while the setup goes on: the bits of the stages reached.
fn status_upto(stage: usize) -> (status: u32)
    requires
        1 <= stage <= 4,
    ensures
        status == (if stage == 1 {
            1u32
        } else if stage == 2 {
            3u32
        } else if stage == 3 {
            11u32
        } else {
            15u32
        }),
{
    let mut status: u32 = 0;
    status |= VIRTIO_CONFIG_S::ACKNOWLDGE.val();
    assert(0u32 | 1u32 == 1u32) by (bit_vector);
    if stage >= 2 {
        status |= VIRTIO_CONFIG_S::DRIVER.val();
        assert(1u32 | 2u32 == 3u32) by (bit_vector);
    }
    if stage >= 3 {
        status |= VIRTIO_CONFIG_S::FEATURES_OK.val();
        assert(3u32 | 8u32 == 11u32) by (bit_vector);
    }
    if stage >= 4 {
        status |= VIRTIO_CONFIG_S::DRIVER_OK.val();
        assert(11u32 | 4u32 == 15u32) by (bit_vector);
    }
    status
}

/// The feature word without the features that the driver turns down.
fn negotiate(features: u32) -> (r: u32)
    ensures
        r == features & !REJECTED_FEATURES,
{
    let mut features = features;
    let ghost offered = features;
    features &= !VIRTIO_FEATURE::BLK_F_RO.bit();
    features &= !VIRTIO_FEATURE::BLK_F_SCSI.bit();
    features &= !VIRTIO_FEATURE::BLK_F_CONFIG_WCE.bit();
    features &= !VIRTIO_FEATURE::BLK_F_MQ.bit();
    features &= !VIRTIO_FEATURE::F_ANY_LAYOUT.bit();
    features &= !VIRTIO_FEATURE::RING_F_EVENT_IDX.bit();
    features &= !VIRTIO_FEATURE::RING_F_INDIRECT_DESC.bit();
    assert(((((((offered & !(1u32 << 5u32)) & !(1u32 << 7u32)) & !(1u32 << 11u32)) & !(1u32
        << 12u32)) & !(1u32 << 27u32)) & !(1u32 << 29u32)) & !(1u32 << 28u32) == offered
        & !0x3800_18a0u32) by (bit_vector);
    features
}

impl VirtIO {
    /// One step of the device's setup. The caller starts with step 0, does
    /// the access that a step returns, and calls the next step with the value
    /// read, until a step fails or returns `None`. `self_addr` is the physical
    /// address of the device object.
    ///
    /// The steps are those of `init_script`. The step after the last access
    /// marks every descriptor free.
    pub fn init(&mut self, step: usize, answer: u32, self_addr: usize) -> (r: Result<
        Option<MmioOp>,
        InitError,
    >)
        requires
            self_addr as int % (PAGE_SIZE as int) == 0,
            self_addr as int / (PAGE_SIZE as int) <= u32::MAX,
        ensures
            r == init_script(step as int, answer, (self_addr as int / (PAGE_SIZE as int)) as u32),
            final(self).desc == old(self).desc,
            final(self).avail == old(self).avail,
            final(self).used == old(self).used,
            final(self).used_idx == old(self).used_idx,
            final(self).info == old(self).info,
            step != INIT_STEPS ==> final(self).free == old(self).free,
            step == INIT_STEPS ==> forall|i: int| 0 <= i < DESC_NUM ==> final(self).free@[i],
            step == INIT_STEPS && old(self).wf() && (forall|i: int|
                0 <= i < DESC_NUM ==> old(self).info@[i] is None) ==> final(self).inv(),
    {
        if step == 0 {
            Ok(Some(MmioOp::Read(VIRTIO_MMIO::MAGIC_VALUE)))
        } else if step == 1 {
            if answer != VIRTIO_MAGIC {
                return Err(InitError::MagicValue);
            }
            Ok(Some(MmioOp::Read(VIRTIO_MMIO::VERSION)))
        } else if step == 2 {
            if answer != 1 {
                return Err(InitError::Version);
            }
            Ok(Some(MmioOp::Read(VIRTIO_MMIO::DEVICE_ID)))
        } else if step == 3 {
            if answer != 2 {
                return Err(InitError::DeviceId);
            }
            Ok(Some(MmioOp::Read(VIRTIO_MMIO::VENDOR_ID)))
        } else if step == 4 {
            if answer != VIRTIO_VENDOR {
                return Err(InitError::VendorId);
            }
            Ok(Some(MmioOp::Write(VIRTIO_MMIO::STATUS, status_upto(1))))
        } else if step == 5 {
            Ok(Some(MmioOp::Write(VIRTIO_MMIO::STATUS, status_upto(2))))
        } else if step == 6 {
            Ok(Some(MmioOp::Read(VIRTIO_MMIO::DEVICE_FEATURES)))
        } else if step == 7 {
            Ok(Some(MmioOp::Write(VIRTIO_MMIO::DEVICE_FEATURES, negotiate(answer))))
        } else if step == 8 {
            Ok(Some(MmioOp::Write(VIRTIO_MMIO::STATUS, status_upto(3))))
        } else if step == 9 {
            Ok(Some(MmioOp::Write(VIRTIO_MMIO::STATUS, status_upto(4))))
        } else if step == 10 {
            Ok(Some(MmioOp::Write(VIRTIO_MMIO::GUEST_PAGE_SIZE, PAGE_SIZE as u32)))
        } else if step == 11 {
            Ok(Some(MmioOp::Write(VIRTIO_MMIO::QUEUE_SEL, 0)))
        } else if step == 12 {
            Ok(Some(MmioOp::Read(VIRTIO_MMIO::QUEUE_NUM_MAX)))
        } else if step == 13 {
            if answer == 0 {
                return Err(InitError::NoQueue);
            }
            if answer < DESC_NUM as u32 {
                return Err(InitError::QueueTooShort);
            }
            Ok(Some(MmioOp::Write(VIRTIO_MMIO::QUEUE_NUM, DESC_NUM as u32)))
        } else if step == 14 {
            assert(self_addr >> 12 == self_addr / 4096) by (bit_vector);
            Ok(Some(MmioOp::Write(VIRTIO_MMIO::QUEUE_PFN, (self_addr >> PAGE_ORDER) as u32)))
        } else {
            if step == INIT_STEPS {
                let mut i: usize = 0;
                while i < DESC_NUM
                    invariant
                        i <= DESC_NUM,
                        self.desc == old(self).desc,
                        self.avail == old(self).avail,
                        self.used == old(self).used,
                        self.used_idx == old(self).used_idx,
                        self.info == old(self).info,
                        forall|j: int| 0 <= j < i ==> self.free@[j],
                    decreases DESC_NUM - i,
                {
                    self.free[i] = true;
                    i += 1;
                }
                proof {
                    assert forall|j: int| 0 <= j < DESC_NUM && (forall|i: int|
                        0 <= i < DESC_NUM ==> old(self).info@[i] is None) implies !in_flight(
                        self.desc@,
                        self.info@,
                        j,
                    ) by {}
                }
            }
            Ok(None)
        }
    }
}

/// Where the device finds the three pieces of a request in memory.
pub struct DmaAddrs {
    /// The request header.
    pub header: usize,
    /// The data of the block.
    pub data: usize,
    /// The status byte.
    pub status: usize,
}

/// A request that is published and waits for the device's notification.
pub struct Request {
    /// First descriptor of the request's chain: names the request until it
    /// is completed.
    pub head: usize,
    /// The header, to lie at `DmaAddrs::header` while the request is under way.
    pub header: BlkOutHdr,
    /// The channel on which the submitter sleeps and the completion wakes.
    pub channel: usize,
    /// The register access that tells the device of the request.
    pub notify: MmioOp,
}

/// The descriptors of a request: header, data and status byte, chained in
/// this order through the descriptors `a`, `b` and `c`.
pub open spec fn request_descs(
    desc: Seq<VRingDesc>,
    write: bool,
    addrs: DmaAddrs,
    a: int,
    b: int,
    c: int,
) -> Seq<VRingDesc> {
    desc.update(
        a,
        VRingDesc { addr: addrs.header, len: 16, flags: VRING_DESC_F_NEXT, next: b as u16 },
    ).update(
        b,
        VRingDesc {
            addr: addrs.data,
            len: BSIZE as u32,
            flags: if write {
                1u16
            } else {
                3u16
            },
            next: c as u16,
        },
    ).update(c, VRingDesc { addr: addrs.status, len: 1, flags: VRING_DESC_F_WRITE, next: 0 })
}

/// The available area after one more head is published.
pub open spec fn published(avail: Seq<u16>, head: int) -> Seq<u16> {
    avail.update(2 + avail[1] as int % (DESC_NUM as int), head as u16).update(
        1,
        if avail[1] == u16::MAX {
            0u16
        } else {
            (avail[1] + 1) as u16
        },
    )
}

impl VirtIO {
    /// Submits a request for the block of `b`: a write of the buffer to the
    /// disk, or a read from the disk into it.
    ///
    /// The three lowest free descriptors are taken and filled for header,
    /// data and status byte; the buffer becomes the disk's and goes into the
    /// in-flight record of the first descriptor, with a zeroed status byte;
    /// the first descriptor is written into the available ring and counted
    /// there. The caller then places the header, lets the device see the
    /// descriptors and the ring slot before the new count (a full memory
    /// fence stands between them), does the access that notifies the device,
    /// and sleeps on the request's channel until `rw_done` hands the buffer
    /// back.
    ///
    /// While fewer than three descriptors are free, the buffer comes back at
    /// once and the caller tries again.
    pub fn rw(&mut self, b: Box<Buf>, write: bool, addrs: &DmaAddrs) -> (r: Result<
        Request,
        Box<Buf>,
    >)
        ensures
            final(self).used == old(self).used,
            final(self).used_idx == old(self).used_idx,
            old(self).inv() ==> final(self).inv(),
            match r {
                Ok(request) => {
                    let head = request.head as int;
                    let second = final(self).desc@[head].next as int;
                    let third = final(self).desc@[second].next as int;
                    &&& lowest_three(old(self).free@, head, second, third)
                    &&& final(self).free@ == old(self).free@.update(head, false).update(
                        second,
                        false,
                    ).update(third, false)
                    &&& final(self).desc@ == request_descs(
                        old(self).desc@,
                        write,
                        *addrs,
                        head,
                        second,
                        third,
                    )
                    &&& final(self).info@ == old(self).info@.update(
                        head,
                        Some(InflightOp { buf: Box::new(Buf { disk: 1, ..*b }), status: 0 }),
                    )
                    &&& final(self).avail@ == published(old(self).avail@, head)
                    &&& request.header == (BlkOutHdr {
                        blk_type: if write {
                            VIRTIO_BLK_T_OUT
                        } else {
                            VIRTIO_BLK_T_IN
                        },
                        reserved: 0,
                        sector: (b.blockno * 2) as u64,
                    })
                    &&& request.channel == addrs.data
                    &&& request.notify == MmioOp::Write(VIRTIO_MMIO::QUEUE_NOTIFY, 0)
                },
                Err(back) => {
                    &&& back == b
                    &&& !three_free(old(self).free@)
                    &&& final(self).free@ == old(self).free@
                    &&& final(self).info == old(self).info
                    &&& final(self).avail == old(self).avail
                    &&& forall|j: int|
                        0 <= j < DESC_NUM ==> #[trigger] final(self).desc@[j] == (if old(
                            self,
                        ).free@[j] {
                            VRingDesc { addr: 0, ..old(self).desc@[j] }
                        } else {
                            old(self).desc@[j]
                        })
                },
            },
    {
        let mut b = b;
        let sector = b.blockno as u64 * ((BSIZE / 512) as u64);

        let idx: [usize; 3] = match self.alloc3_desc() {
            Some(idx) => idx,
            None => {
                proof {
                    if old(self).inv() {
                        lemma_same_shape_keeps_inv(*old(self), *self);
                    }
                }
                return Err(b);
            },
        };

        let buf0 = BlkOutHdr {
            reserved: 0,
            sector,
            blk_type: if write {
                VIRTIO_BLK_T_OUT
            } else {
                VIRTIO_BLK_T_IN
            },
        };

        self.desc[idx[0]] = VRingDesc {
            addr: addrs.header,
            len: 16,
            flags: VRING_DESC_F_NEXT,
            next: idx[1] as u16,
        };

        let mut flags: u16 = if write {
            0
        } else {
            VRING_DESC_F_WRITE
        };
        flags |= VRING_DESC_F_NEXT;
        assert(0u16 | 1u16 == 1u16 && 2u16 | 1u16 == 3u16) by (bit_vector);
        self.desc[idx[1]] = VRingDesc {
            addr: addrs.data,
            len: BSIZE as u32,
            flags,
            next: idx[2] as u16,
        };

        b.disk = 1;
        self.info[idx[0]] = Some(InflightOp { buf: b, status: 0 });

        self.desc[idx[2]] = VRingDesc {
            addr: addrs.status,
            len: 1,
            flags: VRING_DESC_F_WRITE,
            next: 0,
        };

        let slot = 2 + self.avail[1] as usize % DESC_NUM;
        self.avail[slot] = idx[0] as u16;
        self.avail[1] = self.avail[1].wrapping_add(1);

        assert(self.desc@ =~= request_descs(
            old(self).desc@,
            write,
            *addrs,
            idx@[0] as int,
            idx@[1] as int,
            idx@[2] as int,
        ));
        proof {
            if old(self).inv() {
                assert(1u16 & 1u16 != 0 && 3u16 & 1u16 != 0 && 2u16 & 1u16 == 0) by (bit_vector);
                lemma_rw_keeps_inv(
                    *old(self),
                    *self,
                    idx@[0] as int,
                    idx@[1] as int,
                    idx@[2] as int,
                );
            }
        }
        Ok(
            Request {
                head: idx[0],
                header: buf0,
                channel: addrs.data,
                notify: MmioOp::Write(VIRTIO_MMIO::QUEUE_NOTIFY, 0),
            },
        )
    }

    /// Submits a read of block `blockno` of device `dev` into a new buffer.
    pub fn read(&mut self, dev: u32, blockno: u32, addrs: &DmaAddrs) -> (r: Result<
        Request,
        Box<Buf>,
    >)
        ensures
            final(self).used == old(self).used,
            final(self).used_idx == old(self).used_idx,
            old(self).inv() ==> final(self).inv(),
            match r {
                Ok(request) => {
                    let head = request.head as int;
                    let second = final(self).desc@[head].next as int;
                    let third = final(self).desc@[second].next as int;
                    &&& lowest_three(old(self).free@, head, second, third)
                    &&& final(self).free@ == old(self).free@.update(head, false).update(
                        second,
                        false,
                    ).update(third, false)
                    &&& final(self).desc@ == request_descs(
                        old(self).desc@,
                        false,
                        *addrs,
                        head,
                        second,
                        third,
                    )
                    &&& final(self).info@[head] is Some
                    &&& final(self).info@[head]->0.status == 0
                    &&& final(self).info@[head]->0.buf.disk == 1
                    &&& final(self).info@[head]->0.buf.dev == dev
                    &&& final(self).info@[head]->0.buf.blockno == blockno
                    &&& !final(self).info@[head]->0.buf.valid
                    &&& forall|i: int|
                        0 <= i < BSIZE ==> final(self).info@[head]->0.buf.data@[i] == 0
                    &&& forall|j: int|
                        0 <= j < DESC_NUM && j != head ==> final(self).info@[j] == old(
                            self,
                        ).info@[j]
                    &&& final(self).avail@ == published(old(self).avail@, head)
                    &&& request.header == (BlkOutHdr {
                        blk_type: VIRTIO_BLK_T_IN,
                        reserved: 0,
                        sector: (blockno * 2) as u64,
                    })
                    &&& request.channel == addrs.data
                    &&& request.notify == MmioOp::Write(VIRTIO_MMIO::QUEUE_NOTIFY, 0)
                },
                Err(back) => {
                    &&& !back.valid
                    &&& back.disk == 0
                    &&& back.dev == dev
                    &&& back.blockno == blockno
                    &&& forall|i: int| 0 <= i < BSIZE ==> back.data@[i] == 0
                    &&& !three_free(old(self).free@)
                    &&& final(self).free@ == old(self).free@
                    &&& final(self).info == old(self).info
                    &&& final(self).avail == old(self).avail
                    &&& forall|j: int|
                        0 <= j < DESC_NUM ==> #[trigger] final(self).desc@[j] == (if old(
                            self,
                        ).free@[j] {
                            VRingDesc { addr: 0, ..old(self).desc@[j] }
                        } else {
                            old(self).desc@[j]
                        })
                },
            },
    {
        let mut buf = Box::new(Buf::new());
        buf.dev = dev;
        buf.blockno = blockno;
        self.rw(buf, false, addrs)
    }

    /// Submits a write of `buf` to its block: `rw` for a write.
    pub fn write(&mut self, buf: Box<Buf>, addrs: &DmaAddrs) -> (r: Result<Request, Box<Buf>>)
        ensures
            final(self).used == old(self).used,
            final(self).used_idx == old(self).used_idx,
            old(self).inv() ==> final(self).inv(),
            match r {
                Ok(request) => {
                    let head = request.head as int;
                    let second = final(self).desc@[head].next as int;
                    let third = final(self).desc@[second].next as int;
                    &&& lowest_three(old(self).free@, head, second, third)
                    &&& final(self).free@ == old(self).free@.update(head, false).update(
                        second,
                        false,
                    ).update(third, false)
                    &&& final(self).desc@ == request_descs(
                        old(self).desc@,
                        true,
                        *addrs,
                        head,
                        second,
                        third,
                    )
                    &&& final(self).info@ == old(self).info@.update(
                        head,
                        Some(InflightOp { buf: Box::new(Buf { disk: 1, ..*buf }), status: 0 }),
                    )
                    &&& final(self).avail@ == published(old(self).avail@, head)
                    &&& request.header == (BlkOutHdr {
                        blk_type: VIRTIO_BLK_T_OUT,
                        reserved: 0,
                        sector: (buf.blockno * 2) as u64,
                    })
                    &&& request.channel == addrs.data
                    &&& request.notify == MmioOp::Write(VIRTIO_MMIO::QUEUE_NOTIFY, 0)
                },
                Err(back) => {
                    &&& back == buf
                    &&& !three_free(old(self).free@)
                    &&& final(self).free@ == old(self).free@
                    &&& final(self).info == old(self).info
                    &&& final(self).avail == old(self).avail
                    &&& forall|j: int|
                        0 <= j < DESC_NUM ==> #[trigger] final(self).desc@[j] == (if old(
                            self,
                        ).free@[j] {
                            VRingDesc { addr: 0, ..old(self).desc@[j] }
                        } else {
                            old(self).desc@[j]
                        })
                },
            },
    {
        self.rw(buf, true, addrs)
    }
}


/// Number of completions that the device has reported and the driver has
/// not yet handled.
pub open spec fn pending(used_idx: u16, reported: u16) -> int {
    (reported as int % (DESC_NUM as int) + DESC_NUM - used_idx as int) % (DESC_NUM as int)
}

/// The head that the `k`th pending completion names.
pub open spec fn pending_head(v: VirtIO, k: int) -> int {
    v.used@[0].elems@[(v.used_idx as int + k) % (DESC_NUM as int)].id as int
}

/// What the interrupt handler cannot go on with.
#[derive(Clone, Copy, Debug, PartialEq, Eq, Structural)]
pub enum IntrFault {
    /// A completion names no request in flight.
    InvalidId,
    /// The device has reported a failure in the status byte.
    Status,
}

/// What is wrong with the `k`th pending completion, if anything.
pub open spec fn fault_at(v: VirtIO, k: int) -> Option<IntrFault> {
    let head = pending_head(v, k);
    if head >= DESC_NUM || v.info@[head] is None {
        Some(IntrFault::InvalidId)
    } else if v.info@[head]->0.status != 0 {
        Some(IntrFault::Status)
    } else {
        None
    }
}

/// Each pending completion names a request that is in flight and whose
/// status byte the device has left at 0.
pub open spec fn completions_ok(v: VirtIO) -> bool {
    forall|k: int| 0 <= k < pending(v.used_idx, v.used@[0].id) ==> #[trigger] fault_at(v, k) is None
}

/// The in-flight record once the device is done with it: the buffer is the
/// driver's again.
pub open spec fn returned(op: Option<InflightOp>) -> Option<InflightOp> {
    match op {
        Some(op) => Some(
            InflightOp { buf: Box::new(Buf { disk: 0, ..*op.buf }), status: op.status },
        ),
        None => None,
    }
}

/// The in-flight table `after` is `before` with the requests of `heads`
/// handed back by the device.
pub open spec fn handled(
    before: Seq<Option<InflightOp>>,
    after: Seq<Option<InflightOp>>,
    heads: Seq<usize>,
) -> bool {
    &&& after.len() == before.len()
    &&& forall|j: int|
        0 <= j < before.len() ==> #[trigger] after[j] == (if heads.contains(j as usize) {
            returned(before[j])
        } else {
            before[j]
        })
}

/// Handling one completion leaves one less pending, and moves the place in
/// the ring on by one.
proof fn lemma_pending_step(used_idx: u16, reported: u16, first: int, seen: int)
    requires
        used_idx < DESC_NUM,
        used_idx != reported % (DESC_NUM as u16),
        0 <= first < DESC_NUM,
        0 <= seen,
        used_idx as int == (first + seen) % (DESC_NUM as int),
    ensures
        pending(used_idx, reported) > 0,
        pending(((used_idx + 1) as usize % DESC_NUM) as u16, reported) == pending(
            used_idx,
            reported,
        ) - 1,
        ((used_idx + 1) as usize % DESC_NUM) as int == (first + seen + 1) % (DESC_NUM as int),
{
}

proof fn lemma_handled_step(
    first: Seq<Option<InflightOp>>,
    before: Seq<Option<InflightOp>>,
    seen: Seq<usize>,
    id: usize,
)
    requires
        first.len() == DESC_NUM,
        handled(first, before, seen),
        id < DESC_NUM,
    ensures
        handled(first, before.update(id as int, returned(before[id as int])), seen.push(id)),
{
    let after = before.update(id as int, returned(before[id as int]));
    let heads = seen.push(id);
    assert(heads[seen.len() as int] == id);
    assert forall|j: int| 0 <= j < DESC_NUM implies #[trigger] after[j] == (if heads.contains(
        j as usize,
    ) {
        returned(first[j])
    } else {
        first[j]
    }) by {
        let ju = j as usize;
        if seen.contains(ju) {
            let t = choose|t: int| 0 <= t < seen.len() && seen[t] == ju;
            assert(heads[t] == ju);
            assert(heads.contains(ju));
        }
        if heads.contains(ju) && !seen.contains(ju) {
            let t = choose|t: int| 0 <= t < heads.len() && heads[t] == ju;
            if t < seen.len() {
                assert(seen[t] == ju);
            }
            assert(ju == id);
        }
        if j == id {
            assert(heads.contains(ju));
            assert(before[j] == first[j] || before[j] == returned(first[j]));
            lemma_returned_twice(first[j]);
        } else {
            assert(after[j] == before[j]);
        }
    }
}

proof fn lemma_returned_twice(op: Option<InflightOp>)
    ensures
        returned(returned(op)) == returned(op),
{
}

impl VirtIO {
    /// The channel of the request with head `head`: the address of its data.
    pub fn channel(&self, head: usize) -> (channel: usize)
        requires
            head < DESC_NUM,
            self.desc@[head as int].next < DESC_NUM,
        ensures
            channel == self.desc@[self.desc@[head as int].next as int].addr,
    {
        self.desc[self.desc[head].next as usize].addr
    }

    /// Looks at the pending completions in their order, for what `intr`
    /// cannot go on with: the fault of the first completion that has one.
    pub fn check_completions(&self) -> (r: Result<(), IntrFault>)
        requires
            self.wf(),
        ensures
            r is Ok <==> completions_ok(*self),
            r is Err ==> exists|k: int|
                0 <= k < pending(self.used_idx, self.used@[0].id) && #[trigger] fault_at(*self, k)
                    == Some(r->Err_0) && forall|t: int| 0 <= t < k ==> fault_at(*self, t) is None,
    {
        let target = self.used[0].id % (DESC_NUM as u16);
        let mut at: u16 = self.used_idx;
        let ghost mut k: int = 0;
        while at != target
            invariant
                self.wf(),
                at < DESC_NUM,
                target == self.used@[0].id % (DESC_NUM as u16),
                0 <= k,
                k + pending(at, self.used@[0].id) == pending(self.used_idx, self.used@[0].id),
                at as int == (self.used_idx + k) % (DESC_NUM as int),
                forall|t: int| 0 <= t < k ==> fault_at(*self, t) is None,
            decreases pending(at, self.used@[0].id),
        {
            proof {
                lemma_pending_step(at, self.used@[0].id, self.used_idx as int, k);
            }
            let id = self.used[0].elems[at as usize].id as usize;
            assert(id == pending_head(*self, k));
            if id >= DESC_NUM {
                assert(fault_at(*self, k) == Some(IntrFault::InvalidId));
                return Err(IntrFault::InvalidId);
            }
            match &self.info[id] {
                None => {
                    assert(fault_at(*self, k) == Some(IntrFault::InvalidId));
                    return Err(IntrFault::InvalidId);
                },
                Some(op) => {
                    if op.status != 0 {
                        assert(fault_at(*self, k) == Some(IntrFault::Status));
                        return Err(IntrFault::Status);
                    }
                },
            }
            at = ((at + 1) as usize % DESC_NUM) as u16;
            proof {
                k = k + 1;
            }
        }
        Ok(())
    }

    /// The interrupt handler's work: handles the completions that the device
    /// has reported since the last time, in their order.
    ///
    /// For each, the request's buffer stops being the disk's. Returns the
    /// heads of the completed requests: the caller wakes the sleepers on
    /// their channels. A completion that names no request in flight, or whose
    /// status byte is not 0, is fatal to the kernel.
    pub fn intr(&mut self) -> (heads: Vec<usize>)
        requires
            old(self).wf(),
            completions_ok(*old(self)),
        ensures
            final(self).wf(),
            final(self).desc == old(self).desc,
            final(self).avail == old(self).avail,
            final(self).used == old(self).used,
            final(self).free == old(self).free,
            final(self).used_idx == old(self).used@[0].id % (DESC_NUM as u16),
            heads@.len() == pending(old(self).used_idx, old(self).used@[0].id),
            forall|k: int| 0 <= k < heads@.len() ==> heads@[k] == pending_head(*old(self), k),
            handled(old(self).info@, final(self).info@, heads@),
            old(self).inv() ==> final(self).inv(),
    {
        let mut heads: Vec<usize> = Vec::new();
        let target = self.used[0].id % (DESC_NUM as u16);
        while self.used_idx != target
            invariant
                self.wf(),
                target < DESC_NUM,
                target == old(self).used@[0].id % (DESC_NUM as u16),
                self.desc == old(self).desc,
                self.avail == old(self).avail,
                self.used == old(self).used,
                self.free == old(self).free,
                old(self).wf(),
                completions_ok(*old(self)),
                heads@.len() + pending(self.used_idx, old(self).used@[0].id) == pending(
                    old(self).used_idx,
                    old(self).used@[0].id,
                ),
                self.used_idx as int == (old(self).used_idx + heads@.len()) % (DESC_NUM as int),
                forall|k: int| 0 <= k < heads@.len() ==> heads@[k] == pending_head(*old(self), k),
                handled(old(self).info@, self.info@, heads@),
            decreases pending(self.used_idx, old(self).used@[0].id),
        {
            let ghost k = heads@.len() as int;
            let ghost seen = heads@;
            let ghost before = self.info@;
            proof {
                lemma_pending_step(
                    self.used_idx,
                    old(self).used@[0].id,
                    old(self).used_idx as int,
                    k,
                );
            }
            let id = self.used[0].elems[self.used_idx as usize].id as usize;
            assert(id == pending_head(*old(self), k));
            assert(fault_at(*old(self), k) is None);
            match &mut self.info[id] {
                Some(info) => {
                    info.buf.disk = 0;
                },
                None => {},
            }
            heads.push(id);
            self.used_idx = ((self.used_idx + 1) as usize % DESC_NUM) as u16;
            proof {
                assert(self.info@ == before.update(id as int, returned(before[id as int])));
                lemma_handled_step(old(self).info@, before, seen, id);
            }
        }
        proof {
            if old(self).inv() {
                lemma_same_shape_keeps_inv(*old(self), *self);
            }
        }
        heads
    }

    /// Takes a request's buffer back once the device is done with it.
    ///
    /// While the buffer is still the disk's, nothing is done and `None` is
    /// returned: the caller sleeps again. Else the request leaves the
    /// in-flight table, its descriptors are given back, and the buffer is the
    /// caller's.
    pub fn rw_done(&mut self, head: usize) -> (r: Option<Box<Buf>>)
        requires
            head < DESC_NUM,
            old(self).info@[head as int] is Some,
            old(self).info@[head as int]->0.buf.disk != 1 ==> old(self).inv() || chain_ok(
                old(self).desc@,
                old(self).free@,
                head as int,
                DESC_NUM as nat,
            ),
        ensures
            final(self).avail == old(self).avail,
            final(self).used == old(self).used,
            final(self).used_idx == old(self).used_idx,
            old(self).inv() ==> final(self).inv(),
            old(self).info@[head as int]->0.buf.disk == 1 ==> {
                &&& r is None
                &&& final(self).desc == old(self).desc
                &&& final(self).free == old(self).free
                &&& final(self).info == old(self).info
            },
            old(self).info@[head as int]->0.buf.disk != 1 ==> {
                &&& r == Some(old(self).info@[head as int]->0.buf)
                &&& final(self).info@ == old(self).info@.update(head as int, None)
                &&& forall|j: int|
                    0 <= j < DESC_NUM ==> #[trigger] final(self).free@[j] == (old(self).free@[j]
                        || chain(old(self).desc@, head as int, DESC_NUM as nat).contains(j))
                &&& forall|j: int|
                    0 <= j < DESC_NUM ==> #[trigger] final(self).desc@[j] == (if chain(
                        old(self).desc@,
                        head as int,
                        DESC_NUM as nat,
                    ).contains(j) {
                        VRingDesc { addr: 0, ..old(self).desc@[j] }
                    } else {
                        old(self).desc@[j]
                    })
            },
    {
        let waiting = match &self.info[head] {
            Some(info) => info.buf.disk == 1,
            None => false,
        };
        if waiting {
            return None;
        }
        proof {
            if old(self).inv() {
                lemma_request_chain(*old(self), head as int);
            }
        }
        let result = self.info[head].take();
        self.free_chain(head);
        proof {
            if old(self).inv() {
                let whole = chain(old(self).desc@, head as int, DESC_NUM as nat);
                assert forall|j: int| 0 <= j < DESC_NUM implies whole.contains(j) == in_request(
                    old(self).desc@,
                    head as int,
                    j,
                ) by {
                    if in_request(old(self).desc@, head as int, j) {
                        assert(whole[0] == head && whole[1] == second(old(self).desc@, head as int)
                            && whole[2] == third(old(self).desc@, head as int));
                    }
                }
                lemma_done_keeps_inv(*old(self), *self, head as int);
            }
        }
        Some(result.unwrap().buf)
    }
}

/// The disk's device object in its lock, as it is before `init`: this is the
/// value that the kernel keeps for its whole run.
#[allow(non_snake_case)]
pub fn VIRTIO() -> (m: Mutex<VirtIO>)
    ensures
        m.wf(),
        !m.is_locked(),
        m.name@ == "virtio"@,
        m.data.wf(),
        m.data.is_fresh(),
{
    Mutex::new(VirtIO::new(), "virtio")
}

/// What `virtiointr` makes of the disk in its lock, and what it returns.
pub open spec fn intr_result(
    disk0: Mutex<VirtIO>,
    disk1: Mutex<VirtIO>,
    r: Option<Vec<usize>>,
) -> bool {
    &&& disk1.wf()
    &&& disk1.name == disk0.name
    &&& disk1.lock == disk0.lock
    &&& disk1.hart == disk0.hart
    &&& disk0.is_locked() ==> r is None && disk1.data == disk0.data
    &&& !disk0.is_locked() ==> {
        &&& r is Some
        &&& disk1.data.wf()
        &&& disk1.data.desc == disk0.data.desc
        &&& disk1.data.avail == disk0.data.avail
        &&& disk1.data.used == disk0.data.used
        &&& disk1.data.free == disk0.data.free
        &&& disk1.data.used_idx == disk0.data.used@[0].id % (DESC_NUM as u16)
        &&& r->0@.len() == pending(disk0.data.used_idx, disk0.data.used@[0].id)
        &&& forall|k: int|
            0 <= k < r->0@.len() ==> r->0@[k] == pending_head(disk0.data, k)
        &&& handled(disk0.data.info@, disk1.data.info@, r->0@)
        &&& disk0.data.inv() ==> disk1.data.inv()
    }
}

/// The disk's interrupt: under the disk's lock, the completions that the
/// device has reported are handled as `VirtIO::intr` says. Returns the heads
/// of the completed requests, or `None`, with nothing done, while another
/// hart holds the lock. The hart that takes the interrupt does not hold it.
pub fn virtiointr(disk: &mut Mutex<VirtIO>, cpu: &mut Cpu) -> (r: Option<Vec<usize>>)
    requires
        old(disk).wf(),
        old(cpu).wf(),
        !old(disk).held_by(old(cpu).id as int),
        old(cpu).intr_lock.depth < usize::MAX,
        old(disk).data.wf(),
        completions_ok(old(disk).data),
    ensures
        *final(cpu) == *old(cpu),
        intr_result(*old(disk), *final(disk), r),
{
    match disk.lock(cpu) {
        Some(guard) => {
            let heads = disk.get_mut(&guard).intr();
            disk.unlock(cpu, guard);
            Some(heads)
        },
        None => None,
    }
}

/// Where the areas of a device object at `base` lie: the descriptors, the
/// available area, and the used area.
///
/// The descriptors start the object, and the used area starts one page
/// behind them: on a page boundary, when the object lies on one.
pub fn layout(base: usize) -> (r: (usize, usize, usize))
    requires
        base + 2 * PAGE_SIZE <= usize::MAX,
    ensures
        r.0 == base,
        r.1 == base + DESC_NUM * DESC_SIZE,
        r.2 == base + PAGE_SIZE,
        r.2 - r.0 == PAGE_SIZE,
        base as int % (PAGE_SIZE as int) == 0 ==> r.0 as int % (PAGE_SIZE as int) == 0 && r.2 as int
            % (PAGE_SIZE as int) == 0,
{
    let desc = base;
    let avail = desc + DESC_NUM * DESC_SIZE;
    let used = avail + AVAIL_SZ * 2;
    (desc, avail, used)
}


/// A request comes back from the device with its buffer the driver's again:
/// for each completion that the interrupt handles, the status byte was 0
/// when the handler looked, and afterwards the buffer is no more the disk's,
/// holds what it held, and is what `rw_done` hands out.
pub proof fn lemma_round_trip(
    before: VirtIO,
    after: Seq<Option<InflightOp>>,
    heads: Seq<usize>,
    k: int,
)
    requires
        completions_ok(before),
        handled(before.info@, after, heads),
        heads.len() == pending(before.used_idx, before.used@[0].id),
        forall|t: int| 0 <= t < heads.len() ==> heads[t] == pending_head(before, t),
        0 <= k < heads.len(),
    ensures
        heads[k] < DESC_NUM,
        before.info@[heads[k] as int] is Some,
        before.info@[heads[k] as int]->0.status == 0,
        after[heads[k] as int] == Some(
            InflightOp {
                buf: Box::new(Buf { disk: 0, ..*before.info@[heads[k] as int]->0.buf }),
                status: 0,
            },
        ),
{
    let head = pending_head(before, k);
    assert(heads[k] == head);
    assert(fault_at(before, k) is None);
    assert(heads.contains(heads[k]));
}

/// The second descriptor of the request with head `h`.
pub open spec fn second(desc: Seq<VRingDesc>, h: int) -> int {
    desc[h].next as int
}

/// The third descriptor of the request with head `h`.
pub open spec fn third(desc: Seq<VRingDesc>, h: int) -> int {
    desc[second(desc, h)].next as int
}

/// Descriptor `j` is one of the three of the request with head `h`.
pub open spec fn in_request(desc: Seq<VRingDesc>, h: int, j: int) -> bool {
    j == h || j == second(desc, h) || j == third(desc, h)
}

/// The descriptors from `h` on are linked as a request: three different
/// descriptors of the queue, the first two with a successor, the third
/// without.
pub open spec fn is_request(desc: Seq<VRingDesc>, h: int) -> bool {
    let b = second(desc, h);
    let c = third(desc, h);
    &&& 0 <= b < DESC_NUM
    &&& 0 <= c < DESC_NUM
    &&& h != b
    &&& b != c
    &&& h != c
    &&& desc[h].flags & VRING_DESC_F_NEXT != 0
    &&& desc[b].flags & VRING_DESC_F_NEXT != 0
    &&& desc[c].flags & VRING_DESC_F_NEXT == 0
}

/// Descriptor `j` belongs to a request in flight.
pub open spec fn in_flight(desc: Seq<VRingDesc>, info: Seq<Option<InflightOp>>, j: int) -> bool {
    exists|h: int| 0 <= h < DESC_NUM && info[h] is Some && #[trigger] in_request(desc, h, j)
}

impl VirtIO {
    /// The queue is in order: each request in flight has its three
    /// descriptors, no descriptor belongs to two requests, and a descriptor
    /// is free if and only if it belongs to no request in flight.
    pub open spec fn inv(&self) -> bool {
        &&& self.wf()
        &&& forall|h: int|
            0 <= h < DESC_NUM && (#[trigger] self.info@[h]) is Some ==> is_request(
                self.desc@,
                h,
            )
        &&& forall|g: int, h: int, j: int|
            0 <= g < DESC_NUM && 0 <= h < DESC_NUM && g != h && self.info@[g] is Some
                && self.info@[h] is Some && #[trigger] in_request(self.desc@, g, j)
                ==> !#[trigger] in_request(self.desc@, h, j)
        &&& forall|j: int|
            0 <= j < DESC_NUM ==> (#[trigger] self.free@[j] <==> !in_flight(
                self.desc@,
                self.info@,
                j,
            ))
    }
}

/// In a queue that is in order, the chain of a request in flight is its
/// three descriptors, and `free_chain` can give them back.
pub proof fn lemma_request_chain(v: VirtIO, h: int)
    requires
        v.inv(),
        0 <= h < DESC_NUM,
        v.info@[h] is Some,
    ensures
        chain_ok(v.desc@, v.free@, h, DESC_NUM as nat),
        chain(v.desc@, h, DESC_NUM as nat) == seq![h, second(v.desc@, h), third(v.desc@, h)],
{
    let desc = v.desc@;
    let b = second(desc, h);
    let c = third(desc, h);
    assert(is_request(desc, h));
    assert(in_request(desc, h, h) && in_request(desc, h, b) && in_request(desc, h, c));
    assert(in_flight(desc, v.info@, h) && in_flight(desc, v.info@, b) && in_flight(desc, v.info@, c));
    reveal_with_fuel(chain, 4);
    reveal_with_fuel(chain_ok, 4);
    assert(chain(desc, h, DESC_NUM as nat) =~= seq![h, b, c]);
}

/// Submitting a request keeps the queue in order.
proof fn lemma_rw_keeps_inv(before: VirtIO, after: VirtIO, a: int, b: int, c: int)
    requires
        before.inv(),
        lowest_three(before.free@, a, b, c),
        after.wf(),
        after.free@ == before.free@.update(a, false).update(b, false).update(c, false),
        after.info@.len() == DESC_NUM,
        forall|h: int| 0 <= h < DESC_NUM && h != a ==> after.info@[h] == before.info@[h],
        after.info@[a] is Some,
        forall|j: int|
            0 <= j < DESC_NUM && j != a && j != b && j != c ==> after.desc@[j] == before.desc@[j],
        after.desc@[a].next == b,
        after.desc@[b].next == c,
        after.desc@[a].flags & VRING_DESC_F_NEXT != 0,
        after.desc@[b].flags & VRING_DESC_F_NEXT != 0,
        after.desc@[c].flags & VRING_DESC_F_NEXT == 0,
    ensures
        after.inv(),
{
    let d0 = before.desc@;
    let d1 = after.desc@;
    // the requests that were in flight keep their descriptors
    assert forall|h: int| 0 <= h < DESC_NUM && (#[trigger] before.info@[h]) is Some implies h != a
        && second(d1, h) == second(d0, h) && third(d1, h) == third(d0, h) && is_request(d1, h) by {
        assert(is_request(d0, h));
        assert(in_request(d0, h, h) && in_request(d0, h, second(d0, h)) && in_request(
            d0,
            h,
            third(d0, h),
        ));
        assert(in_flight(d0, before.info@, h));
        assert(in_flight(d0, before.info@, second(d0, h)));
        assert(in_flight(d0, before.info@, third(d0, h)));
    }
    assert forall|h: int, j: int|
        0 <= h < DESC_NUM && before.info@[h] is Some implies #[trigger] in_request(d1, h, j)
        == in_request(d0, h, j) by {}
    assert(is_request(d1, a));
    assert forall|h: int| 0 <= h < DESC_NUM && (#[trigger] after.info@[h]) is Some implies is_request(
        d1,
        h,
    ) by {
        if h != a {
            assert(before.info@[h] is Some);
        }
    }
    assert forall|j: int| 0 <= j < DESC_NUM implies (#[trigger] after.free@[j] <==> !in_flight(
        d1,
        after.info@,
        j,
    )) by {
        if j == a || j == b || j == c {
            assert(in_request(d1, a, j));
        } else if in_flight(d0, before.info@, j) {
            let h = choose|h: int|
                0 <= h < DESC_NUM && before.info@[h] is Some && #[trigger] in_request(d0, h, j);
            assert(in_request(d1, h, j));
        } else if in_flight(d1, after.info@, j) {
            let h = choose|h: int|
                0 <= h < DESC_NUM && after.info@[h] is Some && #[trigger] in_request(d1, h, j);
            assert(h != a);
            assert(in_request(d0, h, j));
        }
    }
    assert forall|g: int, h: int, j: int|
        0 <= g < DESC_NUM && 0 <= h < DESC_NUM && g != h && after.info@[g] is Some
            && after.info@[h] is Some && #[trigger] in_request(d1, g, j) implies !#[trigger] in_request(
        d1,
        h,
        j,
    ) by {
        if g == a {
            if in_request(d1, h, j) {
                assert(in_request(d0, h, j));
                assert(in_flight(d0, before.info@, j));
            }
        } else if h == a {
            assert(in_request(d0, g, j));
            assert(in_flight(d0, before.info@, j));
        } else {
            assert(in_request(d0, g, j));
        }
    }
}

/// Taking a finished request out keeps the queue in order.
proof fn lemma_done_keeps_inv(before: VirtIO, after: VirtIO, head: int)
    requires
        before.inv(),
        0 <= head < DESC_NUM,
        before.info@[head] is Some,
        after.wf(),
        after.info@ == before.info@.update(head, None),
        forall|j: int|
            0 <= j < DESC_NUM ==> #[trigger] after.free@[j] == (before.free@[j] || in_request(
                before.desc@,
                head,
                j,
            )),
        forall|j: int|
            0 <= j < DESC_NUM ==> (#[trigger] after.desc@[j]).flags == before.desc@[j].flags
                && after.desc@[j].next == before.desc@[j].next,
    ensures
        after.inv(),
{
    let d0 = before.desc@;
    let d1 = after.desc@;
    assert forall|h: int, j: int|
        0 <= h < DESC_NUM && before.info@[h] is Some implies #[trigger] in_request(d1, h, j)
        == in_request(d0, h, j) by {}
    assert forall|h: int| 0 <= h < DESC_NUM && (#[trigger] after.info@[h]) is Some implies is_request(
        d1,
        h,
    ) by {
        assert(before.info@[h] is Some);
        assert(is_request(d0, h));
    }
    assert forall|j: int| 0 <= j < DESC_NUM implies (#[trigger] after.free@[j] <==> !in_flight(
        d1,
        after.info@,
        j,
    )) by {
        if in_flight(d1, after.info@, j) {
            let h = choose|h: int|
                0 <= h < DESC_NUM && after.info@[h] is Some && #[trigger] in_request(d1, h, j);
            assert(in_request(d0, h, j));
            assert(in_flight(d0, before.info@, j));
            assert(!in_request(d0, head, j));
        } else if !in_request(d0, head, j) && in_flight(d0, before.info@, j) {
            let h = choose|h: int|
                0 <= h < DESC_NUM && before.info@[h] is Some && #[trigger] in_request(d0, h, j);
            assert(in_request(d1, h, j));
        }
    }
    assert forall|g: int, h: int, j: int|
        0 <= g < DESC_NUM && 0 <= h < DESC_NUM && g != h && after.info@[g] is Some
            && after.info@[h] is Some && #[trigger] in_request(d1, g, j) implies !#[trigger] in_request(
        d1,
        h,
        j,
    ) by {
        assert(in_request(d0, g, j));
    }
}

/// A change that keeps the links, the free list, and which requests are in
/// flight keeps the queue in order.
proof fn lemma_same_shape_keeps_inv(before: VirtIO, after: VirtIO)
    requires
        before.inv(),
        after.wf(),
        after.free@ == before.free@,
        forall|j: int|
            0 <= j < DESC_NUM ==> (#[trigger] after.desc@[j]).flags == before.desc@[j].flags
                && after.desc@[j].next == before.desc@[j].next,
        forall|h: int|
            0 <= h < DESC_NUM ==> (#[trigger] after.info@[h]) is Some == before.info@[h] is Some,
    ensures
        after.inv(),
{
    let d0 = before.desc@;
    let d1 = after.desc@;
    assert forall|h: int, j: int|
        0 <= h < DESC_NUM && before.info@[h] is Some implies #[trigger] in_request(d1, h, j)
        == in_request(d0, h, j) by {
        assert(is_request(d0, h));
    }
    assert forall|h: int| 0 <= h < DESC_NUM && (#[trigger] after.info@[h]) is Some implies is_request(
        d1,
        h,
    ) by {
        assert(before.info@[h] is Some);
        assert(is_request(d0, h));
    }
    assert forall|j: int| 0 <= j < DESC_NUM implies (#[trigger] after.free@[j] <==> !in_flight(
        d1,
        after.info@,
        j,
    )) by {
        if in_flight(d1, after.info@, j) {
            let h = choose|h: int|
                0 <= h < DESC_NUM && after.info@[h] is Some && #[trigger] in_request(d1, h, j);
            assert(before.info@[h] is Some);
            assert(in_request(d0, h, j));
        } else if in_flight(d0, before.info@, j) {
            let h = choose|h: int|
                0 <= h < DESC_NUM && before.info@[h] is Some && #[trigger] in_request(d0, h, j);
            assert(after.info@[h] is Some);
            assert(in_request(d1, h, j));
        }
    }
    assert forall|g: int, h: int, j: int|
        0 <= g < DESC_NUM && 0 <= h < DESC_NUM && g != h && after.info@[g] is Some
            && after.info@[h] is Some && #[trigger] in_request(d1, g, j) implies !#[trigger] in_request(
        d1,
        h,
        j,
    ) by {
        assert(before.info@[g] is Some && before.info@[h] is Some);
        assert(in_request(d0, g, j));
    }
}

/// With no request in flight, every descriptor of a queue in order is free.
pub proof fn lemma_idle_queue_is_free(v: VirtIO)
    requires
        v.inv(),
        forall|h: int| 0 <= h < DESC_NUM ==> v.info@[h] is None,
    ensures
        forall|j: int| 0 <= j < DESC_NUM ==> v.free@[j],
{
    assert forall|j: int| 0 <= j < DESC_NUM implies v.free@[j] by {
        assert(!in_flight(v.desc@, v.info@, j));
    }
}

} // verus!
