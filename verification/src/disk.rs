//! The block device collaborator, modeled as an in-memory store.
//!
//! The cache consumes exactly one operation from the device driver: a
//! synchronous "perform read-or-write of one block", called with the
//! slot's blocking lock held.  This model records every write and serves a
//! read from the latest write for that identity, or zero bytes for a block
//! never written; it also counts the operations performed, which is how the
//! cache's promise not to re-read a still-valid block becomes observable.

use vstd::prelude::*;

use crate::param::BSIZE;

verus! {

/// One recorded write: the identity it was addressed to and the bytes.
struct DiskEntry {
    dev: u32,
    blockno: u32,
    bytes: Vec<u8>,
}

/// The store a device models: for each identity, the bytes of the latest
/// write addressed to it.
spec fn entries_map(s: Seq<DiskEntry>) -> Map<(u32, u32), Seq<u8>>
    decreases s.len(),
{
    if s.len() == 0 {
        Map::empty()
    } else {
        entries_map(s.drop_last()).insert(
            (s.last().dev, s.last().blockno),
            s.last().bytes@,
        )
    }
}

/// A block never written reads back as zeroes.
pub open spec fn zero_block() -> Seq<u8> {
    Seq::new(BSIZE as nat, |i: int| 0u8)
}

/// The block device: a journal of writes plus counters of the operations
/// performed.
pub struct Disk {
    log: Vec<DiskEntry>,
    reads: u64,
    writes: u64,
}

impl Disk {
    /// The device's current contents, as a map from identity to bytes.
    pub closed spec fn stored(self) -> Map<(u32, u32), Seq<u8>> {
        entries_map(self.log@)
    }

    /// What a read of `(dev, blockno)` returns.
    pub open spec fn contents(self, dev: u32, blockno: u32) -> Seq<u8> {
        if self.stored().contains_key((dev, blockno)) {
            self.stored()[(dev, blockno)]
        } else {
            zero_block()
        }
    }

    /// How many block reads the device has performed.
    pub closed spec fn reads(self) -> u64 {
        self.reads
    }

    /// How many block writes the device has performed.
    pub closed spec fn writes(self) -> u64 {
        self.writes
    }

    pub closed spec fn wf(self) -> bool {
        forall|i: int|
            0 <= i < self.log@.len() ==> (#[trigger] self.log@[i].bytes@).len() == BSIZE
    }

    pub fn new() -> (d: Disk)
        ensures
            d.wf(),
            d.stored() == Map::<(u32, u32), Seq<u8>>::empty(),
            d.reads() == 0,
            d.writes() == 0,
    {
        Disk { log: Vec::new(), reads: 0, writes: 0 }
    }

    /// Report the read counter.
    pub fn read_count(&self) -> (n: u64)
        ensures
            n == self.reads(),
    {
        self.reads
    }

    /// Report the write counter.
    pub fn write_count(&self) -> (n: u64)
        ensures
            n == self.writes(),
    {
        self.writes
    }

    /// Perform one synchronous block operation: write `data` to the block
    /// `(dev, blockno)`, or read that block into `data`.
    pub fn rw(&mut self, dev: u32, blockno: u32, data: &mut Vec<u8>, write: bool)
        requires
            old(self).wf(),
            old(data)@.len() == BSIZE,
            write ==> old(self).writes() < u64::MAX,
            !write ==> old(self).reads() < u64::MAX,
        ensures
            final(self).wf(),
            final(data)@.len() == BSIZE,
            write ==> final(self).stored()
                == old(self).stored().insert((dev, blockno), old(data)@),
            write ==> *final(data) == *old(data),
            write ==> final(self).writes() == old(self).writes() + 1,
            write ==> final(self).reads() == old(self).reads(),
            !write ==> final(data)@ == old(self).contents(dev, blockno),
            !write ==> final(self).stored() == old(self).stored(),
            !write ==> final(self).reads() == old(self).reads() + 1,
            !write ==> final(self).writes() == old(self).writes(),
    {
        if write {
            let bytes = copy_block(data);
            self.log.push(DiskEntry { dev, blockno, bytes });
            self.writes = self.writes + 1;
            proof {
                assert(self.log@.drop_last() =~= old(self).log@);
                assert(self.stored() == old(self).stored().insert(
                    (dev, blockno),
                    old(data)@,
                ));
            }
        } else {
            self.reads = self.reads + 1;
            let n = self.log.len();
            let mut i: usize = n;
            while i > 0
                invariant
                    i <= n,
                    n == self.log@.len(),
                    self.log == old(self).log,
                    self.reads == old(self).reads + 1,
                    self.writes == old(self).writes,
                    old(self).wf(),
                    old(self).reads < u64::MAX,
                    !write,
                    old(data)@.len() == BSIZE,
                    forall|k: int|
                        i <= k < n ==> !(#[trigger] self.log@[k].dev == dev
                            && self.log@[k].blockno == blockno),
                decreases i,
            {
                let e_dev = self.log[i - 1].dev;
                let e_blockno = self.log[i - 1].blockno;
                if e_dev == dev && e_blockno == blockno {
                    let found = copy_block(&self.log[i - 1].bytes);
                    proof {
                        lemma_entries_map_skip(self.log@, i as int, dev, blockno);
                        assert(self.log@.take(i as int).drop_last()
                            =~= self.log@.take(i as int - 1));
                        assert(self.log@.take(i as int).last() == self.log@[i as int - 1]);
                    }
                    *data = found;
                    return;
                }
                i = i - 1;
            }
            proof {
                lemma_entries_map_skip(self.log@, 0, dev, blockno);
                assert(self.log@.take(0) =~= Seq::<DiskEntry>::empty());
            }
            *data = zero_block_vec();
        }
    }
}

/// A fresh zeroed block buffer.
pub(crate) fn zero_block_vec() -> (v: Vec<u8>)
    ensures
        v@ == zero_block(),
{
    let mut v: Vec<u8> = Vec::new();
    let mut i: usize = 0;
    while i < BSIZE
        invariant
            i <= BSIZE,
            v@.len() == i,
            forall|k: int| 0 <= k < i ==> v@[k] == 0u8,
        decreases BSIZE - i,
    {
        v.push(0u8);
        i = i + 1;
    }
    proof {
        assert(v@ =~= zero_block());
    }
    v
}

/// A byte-for-byte copy of a block buffer.
fn copy_block(src: &Vec<u8>) -> (v: Vec<u8>)
    ensures
        v@ == src@,
{
    let mut v: Vec<u8> = Vec::new();
    let mut i: usize = 0;
    while i < src.len()
        invariant
            i <= src@.len(),
            v@ == src@.take(i as int),
        decreases src@.len() - i,
    {
        let b = src[i];
        v.push(b);
        proof {
            assert(v@ =~= src@.take(i as int + 1));
        }
        i = i + 1;
    }
    proof {
        assert(src@.take(src@.len() as int) =~= src@);
    }
    v
}

/// Entries that do not mention an identity do not change what a read of it
/// returns: the store of a journal agrees, on that identity, with the store
/// of the journal cut before those entries.
proof fn lemma_entries_map_skip(s: Seq<DiskEntry>, j: int, dev: u32, blockno: u32)
    requires
        0 <= j <= s.len(),
        forall|k: int|
            j <= k < s.len() ==> !(#[trigger] s[k].dev == dev && s[k].blockno == blockno),
    ensures
        entries_map(s).contains_key((dev, blockno))
            == entries_map(s.take(j)).contains_key((dev, blockno)),
        entries_map(s).contains_key((dev, blockno))
            ==> entries_map(s)[(dev, blockno)] == entries_map(s.take(j))[(dev, blockno)],
    decreases s.len() - j,
{
    if j == s.len() {
        assert(s.take(j) =~= s);
    } else {
        let s1 = s.drop_last();
        assert(s.last() == s[s.len() - 1]);
        lemma_entries_map_skip(s1, j, dev, blockno);
        assert(s1.take(j) =~= s.take(j));
    }
}

/// The device round trip: after a write of `bytes` to an identity, a store
/// whose latest write for that identity it is returns exactly `bytes` for
/// it, whatever else was written before or beside it.
pub proof fn lemma_disk_round_trip(d1: Disk, d2: Disk, dev: u32, blockno: u32, bytes: Seq<u8>)
    requires
        d2.stored() == d1.stored().insert((dev, blockno), bytes),
    ensures
        d2.contents(dev, blockno) == bytes,
{
}

} // verus!
