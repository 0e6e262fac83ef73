//! The buffer cache facade and the caller handle.
//!
//! `Bcache` composes the control metadata (the recency list, under the
//! metadata spinlock) with the data slots (each a byte buffer behind its
//! own blocking lock, plus a validity flag).  A fetch locks the metadata
//! only for bookkeeping — find the identity, or recycle the
//! least-recently-used unreferenced slot — and releases it before touching
//! the slot's blocking lock, so the metadata lock is never held across
//! device I/O.  A `Buf` handle owns the slot's bytes for its lifetime,
//! which is this model's form of holding the slot's blocking lock;
//! `brelse` gives the bytes back first and only then drops the reference
//! count, so the metadata never sees an unreferenced slot whose content is
//! still checked out.
//!
//! By design, the metadata step does not re-check whether an identity
//! became cached between losing the metadata lock and retaking it: on
//! real hardware, two truly simultaneous misses for one identity could
//! each recycle a slot for it.  That sharp edge is deliberately kept, not
//! closed; this sequential model cannot exhibit it, since every fetch
//! runs to completion before the next begins.

use vstd::prelude::*;

use crate::disk::zero_block;
use crate::disk::zero_block_vec;
use crate::disk::Disk;
use crate::lru::lemma_links_consistent;
use crate::lru::lemma_victim_none;
use crate::lru::BufLru;
use crate::param::BSIZE;
use crate::sleeplock::SleepLock;
use crate::spinlock::cpu_restored;
use crate::spinlock::Cpu;
use crate::spinlock::SpinLock;

verus! {

/// The raw bytes of one cached block.
pub struct BufData {
    bytes: Vec<u8>,
}

impl View for BufData {
    type V = Seq<u8>;

    closed spec fn view(&self) -> Seq<u8> {
        self.bytes@
    }
}

impl BufData {
    pub open spec fn wf(self) -> bool {
        self@.len() == BSIZE
    }

    pub fn new() -> (d: BufData)
        ensures
            d.wf(),
            d@ == zero_block(),
    {
        BufData { bytes: zero_block_vec() }
    }

    /// The byte at `offset`.
    pub fn read_byte(&self, offset: usize) -> (b: u8)
        requires
            self.wf(),
            offset < BSIZE,
        ensures
            b == self@[offset as int],
    {
        self.bytes[offset]
    }

    /// Overwrite the byte at `offset`.
    pub fn write_byte(&mut self, offset: usize, b: u8)
        requires
            old(self).wf(),
            offset < BSIZE,
        ensures
            final(self).wf(),
            final(self)@ == old(self)@.update(offset as int, b),
    {
        self.bytes[offset] = b;
    }
}

/// One data slot: the validity flag (has this slot been filled from the
/// device since it was last assigned its identity?) and the blocking lock
/// around the bytes.  The flag is read and written only while the metadata
/// lock or this slot's blocking lock serialises the access.
struct BufInner {
    valid: bool,
    data: SleepLock<BufData>,
}

impl BufInner {
    fn new() -> (b: BufInner)
        ensures
            !b.valid,
            b.data.wf(),
            !b.data.locked(),
            b.data.payload().wf(),
            b.data.payload()@ == zero_block(),
    {
        BufInner { valid: false, data: SleepLock::new(BufData::new(), "BufData") }
    }
}

/// The caller's scoped handle to one fetched block: the slot index, the
/// block identity, and — as owned data — the slot's bytes, whose
/// possession stands for holding the slot's blocking lock.  While a handle
/// is live its slot stays referenced and its identity immutable; `brelse`
/// consumes the handle and returns the slot to the cache.
pub struct Buf {
    index: usize,
    dev: u32,
    blockno: u32,
    data: BufData,
}

impl Buf {
    /// The slot this handle has checked out.
    pub closed spec fn slot(self) -> int {
        self.index as int
    }

    pub closed spec fn dev(self) -> u32 {
        self.dev
    }

    pub closed spec fn blockno(self) -> u32 {
        self.blockno
    }

    /// The block bytes the handle currently holds.
    pub closed spec fn data_view(self) -> Seq<u8> {
        self.data@
    }

    pub closed spec fn buf_data(self) -> BufData {
        self.data
    }

    pub open spec fn wf(self) -> bool {
        self.buf_data().wf()
    }

    pub fn read_blockno(&self) -> (b: u32)
        ensures
            b == self.blockno(),
    {
        self.blockno
    }

    /// The slot index this handle refers to.
    pub fn read_index(&self) -> (i: usize)
        ensures
            i as int == self.slot(),
    {
        self.index
    }

    /// Write the handle's bytes back to the device, synchronously.  The
    /// slot's blocking lock — the handle itself — is held throughout; the
    /// metadata lock is not taken.
    pub fn bwrite(&mut self, disk: &mut Disk)
        requires
            old(self).wf(),
            old(disk).wf(),
            old(disk).writes() < u64::MAX,
        ensures
            *final(self) == *old(self),
            final(disk).wf(),
            final(disk).stored() == old(disk).stored().insert(
                (old(self).dev(), old(self).blockno()),
                old(self).data_view(),
            ),
            final(disk).contents(old(self).dev(), old(self).blockno()) == old(self).data_view(),
            final(disk).reads() == old(disk).reads(),
            final(disk).writes() == old(disk).writes() + 1,
    {
        disk.rw(self.dev, self.blockno, &mut self.data.bytes, true);
    }

    /// Mutable access to the block's bytes, for the handle's lifetime.
    pub fn raw_data(&mut self) -> (r: &mut BufData)
        ensures
            *r == old(self).buf_data(),
            final(self).buf_data() == *final(r),
            final(self).data_view() == (*final(r))@,
            final(self).slot() == old(self).slot(),
            final(self).dev() == old(self).dev(),
            final(self).blockno() == old(self).blockno(),
    {
        &mut self.data
    }
}

/// The buffer cache: control metadata under the metadata spinlock, and one
/// data slot per control record.
pub struct Bcache {
    ctrl: SpinLock<BufLru>,
    bufs: Vec<BufInner>,
}

impl Bcache {
    /// Number of slots in the pool.
    pub closed spec fn nbufs(self) -> nat {
        self.bufs@.len()
    }

    /// The control metadata (as guarded by the metadata lock, which is
    /// free whenever the cache is quiescent).
    pub closed spec fn lru(self) -> BufLru {
        self.ctrl.payload()
    }

    /// Whether slot `i` has been filled from the device since it was last
    /// assigned its identity.
    pub closed spec fn slot_valid(self, i: int) -> bool {
        self.bufs@[i].valid
    }

    /// Whether slot `i`'s blocking lock is held, i.e. whether a live
    /// handle has the slot checked out.
    pub closed spec fn slot_locked(self, i: int) -> bool {
        self.bufs@[i].data.locked()
    }

    /// The bytes cached in slot `i`.  Meaningful only while the slot is
    /// not checked out.
    pub closed spec fn slot_data(self, i: int) -> Seq<u8> {
        self.bufs@[i].data.payload()@
    }

    pub open spec fn slot_dev(self, i: int) -> u32 {
        self.lru().slot(i).dev
    }

    pub open spec fn slot_blockno(self, i: int) -> u32 {
        self.lru().slot(i).blockno
    }

    pub open spec fn slot_refcnt(self, i: int) -> nat {
        self.lru().slot(i).refcnt as nat
    }

    /// The quiescent invariant: the metadata lock is free, the recency
    /// list is well-formed and spans exactly the slot pool, every slot's
    /// blocking lock is coherent, checked-out slots hold block-sized
    /// bytes, and a slot's reference count is exactly the number of live
    /// handles to it — one while it is checked out, zero otherwise.
    pub closed spec fn wf(self) -> bool {
        &&& self.ctrl.wf()
        &&& !self.ctrl.locked()
        &&& self.lru().wf()
        &&& self.lru().len() == self.bufs@.len()
        &&& self.bufs@.len() >= 2
        &&& forall|i: int| 0 <= i < self.bufs@.len() ==> (#[trigger] self.bufs@[i]).data.wf()
        &&& forall|i: int|
            0 <= i < self.bufs@.len() ==> (!(#[trigger] self.bufs@[i]).data.locked()
                ==> self.bufs@[i].data.payload()@.len() == BSIZE)
        &&& forall|i: int|
            0 <= i < self.bufs@.len() ==> (#[trigger] self.lru().slot(i)).refcnt == (
            if self.bufs@[i].data.locked() {
                1int
            } else {
                0int
            })
    }

    /// The not-yet-initialised state `new` leaves and `binit` consumes:
    /// everything is in place except that the records are not threaded
    /// into the recency list yet.
    pub closed spec fn fresh(self) -> bool {
        &&& self.ctrl.wf()
        &&& !self.ctrl.locked()
        &&& self.lru().len() == self.bufs@.len()
        &&& self.bufs@.len() >= 2
        &&& forall|i: int|
            0 <= i < self.bufs@.len() ==> (#[trigger] self.lru().slot(i)).dev == 0
                && self.lru().slot(i).blockno == 0 && self.lru().slot(i).refcnt == 0
        &&& forall|i: int|
            0 <= i < self.bufs@.len() ==> !(#[trigger] self.bufs@[i]).valid
                && self.bufs@[i].data.wf() && !self.bufs@[i].data.locked()
                && self.bufs@[i].data.payload()@ == zero_block()
    }

    /// The slot a fetch of `(dev, blockno)` wins: the cached slot if the
    /// identity is cached, else the eviction victim, else nothing — the
    /// pool is exhausted.
    pub open spec fn target_slot(self, dev: u32, blockno: u32) -> Option<int> {
        match self.lru().first_match(dev, blockno) {
            Some(i) => Some(i),
            None => self.lru().victim(),
        }
    }

    /// A pool of `nbuf` slots, not yet threaded into the recency list.
    pub fn new(nbuf: usize) -> (c: Bcache)
        requires
            nbuf >= 2,
        ensures
            c.fresh(),
            c.nbufs() == nbuf,
    {
        let lru = BufLru::new(nbuf);
        let mut bufs: Vec<BufInner> = Vec::new();
        let mut i: usize = 0;
        while i < nbuf
            invariant
                i <= nbuf,
                bufs@.len() == i,
                forall|k: int|
                    0 <= k < i ==> !(#[trigger] bufs@[k]).valid && bufs@[k].data.wf()
                        && !bufs@[k].data.locked() && bufs@[k].data.payload()@
                        == zero_block(),
            decreases nbuf - i,
        {
            bufs.push(BufInner::new());
            i = i + 1;
        }
        Bcache { ctrl: SpinLock::new(lru, "BufLru"), bufs }
    }

    /// Initialise the cache: thread every slot's control record into one
    /// recency list and assign each its permanent index.  Called exactly
    /// once, single-threaded, before any other cache operation.
    pub fn binit(&mut self, cpu: &mut Cpu)
        requires
            old(self).fresh(),
            old(cpu).wf(),
            old(cpu).noff + 1 < usize::MAX,
        ensures
            final(self).wf(),
            final(self).nbufs() == old(self).nbufs(),
            final(self).lru().order() == Seq::new(old(self).nbufs(), |j: int| j),
            forall|i: int|
                0 <= i < old(self).nbufs() ==> final(self).slot_dev(i) == 0 && final(self).slot_blockno(i) == 0 && final(self).slot_refcnt(i) == 0 && !final(self).slot_valid(i) && !final(self).slot_locked(i) && final(self).slot_data(i)
                    == zero_block(),
            cpu_restored(*old(cpu), *final(cpu)),
            final(cpu).wf(),
    {
        let mut ctrl = self.ctrl.acquire_lock(cpu);
        ctrl.init();
        self.ctrl.release_lock(cpu, ctrl);
    }

    /// Find-or-evict a slot for `(dev, blockno)` under the metadata lock,
    /// then check the winning slot out.  `None` means the pool is
    /// exhausted: every slot is referenced.  The metadata lock is released
    /// before the slot's blocking lock is taken.
    fn bget(&mut self, cpu: &mut Cpu, dev: u32, blockno: u32) -> (r: Option<Buf>)
        requires
            old(self).wf(),
            old(cpu).wf(),
            old(cpu).noff + 1 < usize::MAX,
            // a block that is still checked out may not be fetched again:
            // its blocking lock would suspend this caller forever
            match old(self).lru().first_match(dev, blockno) {
                Some(i) => old(self).lru().slot(i).refcnt == 0,
                None => true,
            },
        ensures
            final(self).wf(),
            final(self).nbufs() == old(self).nbufs(),
            cpu_restored(*old(cpu), *final(cpu)),
            final(cpu).wf(),
            r is Some == old(self).target_slot(dev, blockno) is Some,
            r is None ==> final(self).lru() == old(self).lru() && forall|m: int|
                0 <= m < old(self).nbufs() ==> #[trigger] final(self).bufs@[m] == old(self).bufs@[m],
            r matches Some(b) ==> {
                &&& b.dev() == dev
                &&& b.blockno() == blockno
                &&& b.wf()
                &&& 0 <= b.slot() < old(self).nbufs()
                &&& Some(b.slot()) == old(self).target_slot(dev, blockno)
                &&& b.data_view() == old(self).slot_data(b.slot())
                &&& final(self).slot_locked(b.slot())
                &&& final(self).slot_refcnt(b.slot()) == 1
                &&& final(self).slot_dev(b.slot()) == dev
                &&& final(self).slot_blockno(b.slot()) == blockno
                &&& final(self).lru().order() == old(self).lru().order()
                &&& final(self).slot_valid(b.slot()) == (old(self).lru().first_match(
                    dev,
                    blockno,
                ) is Some && old(self).slot_valid(b.slot()))
                &&& forall|m: int|
                    0 <= m < old(self).nbufs() && m != b.slot() ==> #[trigger] final(self).bufs@[m] == old(self).bufs@[m] && final(self).lru().slot(m) == old(self).lru().slot(m)
            },
    {
        let mut ctrl = self.ctrl.acquire_lock(cpu);
        let hit = ctrl.find_cached(dev, blockno);
        match hit {
            Some(index) => {
                self.ctrl.release_lock(cpu, ctrl);
                let data = self.bufs[index].data.acquire();
                Some(Buf { index, dev, blockno, data })
            },
            None => {
                match ctrl.recycle(dev, blockno) {
                    Some(index) => {
                        self.bufs[index].valid = false;
                        self.ctrl.release_lock(cpu, ctrl);
                        let data = self.bufs[index].data.acquire();
                        Some(Buf { index, dev, blockno, data })
                    },
                    None => {
                        // pool exhausted: surfaced to the caller, who
                        // treats it as fatal
                        self.ctrl.release_lock(cpu, ctrl);
                        None
                    },
                }
            },
        }
    }

    /// Fetch `(dev, blockno)`, filling the slot from the device first if
    /// its cached content is stale or absent.  The device read happens
    /// under the slot's blocking lock, never under the metadata lock.  A
    /// fetch of a block that is cached and valid performs no device
    /// operation.  `None` means the pool is exhausted, which the kernel
    /// treats as fatal.
    pub fn bread(&mut self, cpu: &mut Cpu, disk: &mut Disk, dev: u32, blockno: u32) -> (r:
        Option<Buf>)
        requires
            old(self).wf(),
            old(cpu).wf(),
            old(cpu).noff + 1 < usize::MAX,
            old(disk).wf(),
            old(disk).reads() < u64::MAX,
            match old(self).lru().first_match(dev, blockno) {
                Some(i) => old(self).lru().slot(i).refcnt == 0,
                None => true,
            },
        ensures
            final(self).wf(),
            final(self).nbufs() == old(self).nbufs(),
            cpu_restored(*old(cpu), *final(cpu)),
            final(cpu).wf(),
            final(disk).wf(),
            final(disk).stored() == old(disk).stored(),
            final(disk).writes() == old(disk).writes(),
            r is Some == old(self).target_slot(dev, blockno) is Some,
            r is None ==> final(self).lru() == old(self).lru() && *final(disk) == *old(disk) && forall|m: int|
                0 <= m < old(self).nbufs() ==> #[trigger] final(self).slot_valid(m) == old(self).slot_valid(m)
                    && final(self).slot_locked(m) == old(self).slot_locked(m)
                    && final(self).slot_data(m) == old(self).slot_data(m),
            r matches Some(b) ==> {
                &&& b.dev() == dev
                &&& b.blockno() == blockno
                &&& b.wf()
                &&& 0 <= b.slot() < old(self).nbufs()
                &&& Some(b.slot()) == old(self).target_slot(dev, blockno)
                &&& final(self).slot_locked(b.slot())
                &&& final(self).slot_refcnt(b.slot()) == 1
                &&& final(self).slot_dev(b.slot()) == dev
                &&& final(self).slot_blockno(b.slot()) == blockno
                &&& final(self).slot_valid(b.slot())
                &&& final(self).lru().order() == old(self).lru().order()
                // a cached, valid block is served without touching the
                // device; anything else is read from it, exactly once
                &&& (old(self).lru().first_match(dev, blockno) is Some && old(self).slot_valid(b.slot())) ==> b.data_view() == old(self).slot_data(b.slot())
                    && *final(disk) == *old(disk)
                &&& !(old(self).lru().first_match(dev, blockno) is Some && old(self).slot_valid(b.slot())) ==> b.data_view() == old(disk).contents(
                    dev,
                    blockno,
                ) && final(disk).reads() == old(disk).reads() + 1
                &&& forall|m: int|
                    0 <= m < old(self).nbufs() && m != b.slot() ==> #[trigger] final(self).slot_valid(m) == old(self).slot_valid(m)
                        && final(self).slot_locked(m) == old(self).slot_locked(m)
                        && final(self).slot_data(m) == old(self).slot_data(m)
                        && final(self).lru().slot(m) == old(self).lru().slot(m)
            },
    {
        let fetched = self.bget(cpu, dev, blockno);
        match fetched {
            None => None,
            Some(mut b) => {
                let index = b.index;
                if !self.bufs[index].valid {
                    disk.rw(dev, blockno, &mut b.data.bytes, false);
                    self.bufs[index].valid = true;
                }
                Some(b)
            },
        }
    }

    /// Return a handle to the cache: give the slot's bytes back (releasing
    /// its blocking lock), then retake the metadata lock just long enough
    /// to drop the reference count, which moves the now-unreferenced slot
    /// to the most-recently-used position.
    pub fn brelse(&mut self, cpu: &mut Cpu, b: Buf)
        requires
            old(self).wf(),
            old(cpu).wf(),
            old(cpu).noff + 1 < usize::MAX,
            0 <= b.slot() < old(self).nbufs(),
            old(self).slot_locked(b.slot()),
            b.wf(),
        ensures
            final(self).wf(),
            final(self).nbufs() == old(self).nbufs(),
            cpu_restored(*old(cpu), *final(cpu)),
            final(cpu).wf(),
            final(self).slot_refcnt(b.slot()) == 0,
            !final(self).slot_locked(b.slot()),
            final(self).slot_data(b.slot()) == b.data_view(),
            final(self).slot_valid(b.slot()) == old(self).slot_valid(b.slot()),
            forall|m: int|
                0 <= m < old(self).nbufs() && m != b.slot() ==> #[trigger] final(self).slot_valid(m) == old(self).slot_valid(m)
                    && final(self).slot_locked(m) == old(self).slot_locked(m)
                    && final(self).slot_data(m) == old(self).slot_data(m),
            forall|m: int|
                0 <= m < old(self).nbufs() ==> final(self).slot_dev(m) == old(self).slot_dev(m) && final(self).slot_blockno(m) == old(self).slot_blockno(m)
                    && (m != b.slot() ==> final(self).slot_refcnt(m) == old(self).slot_refcnt(m)),
            final(self).lru().order() == (if old(self).lru().order()[0] == b.slot() {
                old(self).lru().order()
            } else {
                seq![b.slot()] + old(self).lru().order().remove(
                    old(self).lru().pos_of(b.slot()),
                )
            }),
    {
        let Buf { index, dev: _, blockno: _, data } = b;
        self.bufs[index].data.release(data);
        let mut ctrl = self.ctrl.acquire_lock(cpu);
        ctrl.move_if_no_ref(index);
        self.ctrl.release_lock(cpu, ctrl);
    }
}

/// At any quiescent point the recency list spans exactly the pool's
/// records, neighbouring links agree with each other, and no two records
/// share a slot index.
pub proof fn lemma_cache_list_consistent(c: Bcache)
    requires
        c.wf(),
    ensures
        c.lru().wf(),
        c.lru().len() == c.nbufs(),
        c.nbufs() >= 2,
        c.lru().order().len() == c.nbufs(),
        forall|i: int|
            0 <= i < c.nbufs() ==> match (#[trigger] c.lru().slot(i)).next {
                Some(k) => k < c.nbufs() && c.lru().slot(k as int).prev == Some(i as usize),
                None => c.lru().tail_link() == Some(i as usize),
            },
        forall|i: int|
            0 <= i < c.nbufs() ==> match (#[trigger] c.lru().slot(i)).prev {
                Some(k) => k < c.nbufs() && c.lru().slot(k as int).next == Some(i as usize),
                None => c.lru().head_link() == Some(i as usize),
            },
        forall|i1: int, i2: int|
            0 <= i1 < c.nbufs() && 0 <= i2 < c.nbufs() && i1 != i2 ==> c.lru().slot(
                i1,
            ).index != c.lru().slot(i2).index,
{
    lemma_links_consistent(c.lru());
}

/// A fetch is owed a slot whenever some slot is unreferenced: pool
/// exhaustion — every slot checked out — is the only way a fetch can come
/// back empty-handed.
pub proof fn lemma_fetch_succeeds(c: Bcache, dev: u32, blockno: u32)
    requires
        c.wf(),
        exists|i: int| 0 <= i < c.nbufs() && !(#[trigger] c.slot_locked(i)),
    ensures
        c.target_slot(dev, blockno) is Some,
{
    let i = choose|i: int| 0 <= i < c.nbufs() && !(#[trigger] c.slot_locked(i));
    lemma_refcnt_counts_handles(c);
    if c.lru().first_match(dev, blockno) is None {
        if c.lru().victim() is None {
            lemma_victim_none(c.lru());
            assert(c.lru().slot(i).refcnt > 0);
            assert(false);
        }
    }
}

/// A slot's reference count is the number of live handles to it: one
/// while some handle has it checked out, zero otherwise; it can never go
/// negative.
pub proof fn lemma_refcnt_counts_handles(c: Bcache)
    requires
        c.wf(),
    ensures
        forall|i: int|
            0 <= i < c.nbufs() ==> #[trigger] c.slot_refcnt(i) == (if c.slot_locked(i) {
                1nat
            } else {
                0nat
            }),
{
}

} // verus!
