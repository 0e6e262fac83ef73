//! Behavioural tests of the buffer cache against an in-memory device.

use bufcache::bio::Bcache;
use bufcache::disk::Disk;
use bufcache::param::BSIZE;
use bufcache::spinlock::Cpu;

fn setup(nbuf: usize) -> (Bcache, Cpu, Disk) {
    let mut cache = Bcache::new(nbuf);
    let mut cpu = Cpu::new(0, true);
    cache.binit(&mut cpu);
    (cache, cpu, Disk::new())
}

#[test]
fn fresh_block_reads_as_zeroes() {
    let (mut cache, mut cpu, mut disk) = setup(3);
    let buf = cache.bread(&mut cpu, &mut disk, 1, 10).expect("pool has free slots");
    assert_eq!(buf.read_blockno(), 10);
    let mut buf = buf;
    let data = buf.raw_data();
    for off in [0usize, 1, 513, BSIZE - 1] {
        assert_eq!(data.read_byte(off), 0);
    }
    assert_eq!(disk.read_count(), 1);
    cache.brelse(&mut cpu, buf);
}

#[test]
fn repeated_read_does_not_touch_device() {
    let (mut cache, mut cpu, mut disk) = setup(3);
    let buf = cache.bread(&mut cpu, &mut disk, 1, 5).expect("first fetch");
    cache.brelse(&mut cpu, buf);
    assert_eq!(disk.read_count(), 1);
    let buf = cache.bread(&mut cpu, &mut disk, 1, 5).expect("second fetch");
    // the block is cached and valid: the device must not be re-read
    assert_eq!(disk.read_count(), 1);
    cache.brelse(&mut cpu, buf);
    let buf = cache.bread(&mut cpu, &mut disk, 1, 5).expect("third fetch");
    assert_eq!(disk.read_count(), 1);
    cache.brelse(&mut cpu, buf);
}

#[test]
fn eviction_selects_released_slot() {
    // pool of three; fetch three distinct blocks, all misses
    let (mut cache, mut cpu, mut disk) = setup(3);
    let a = cache.bread(&mut cpu, &mut disk, 1, 1).expect("fetch a");
    let b = cache.bread(&mut cpu, &mut disk, 1, 2).expect("fetch b");
    let c = cache.bread(&mut cpu, &mut disk, 1, 3).expect("fetch c");
    let slot_a = a.read_index();
    let slot_b = b.read_index();
    let slot_c = c.read_index();
    assert_ne!(slot_a, slot_b);
    assert_ne!(slot_a, slot_c);
    assert_ne!(slot_b, slot_c);
    // release only the first; the next miss must evict exactly its slot,
    // the only unreferenced one
    cache.brelse(&mut cpu, a);
    let d = cache.bread(&mut cpu, &mut disk, 1, 4).expect("fetch d");
    assert_eq!(d.read_index(), slot_a);
    cache.brelse(&mut cpu, b);
    cache.brelse(&mut cpu, c);
    cache.brelse(&mut cpu, d);
}

#[test]
fn eviction_prefers_least_recently_used() {
    let (mut cache, mut cpu, mut disk) = setup(3);
    let a = cache.bread(&mut cpu, &mut disk, 1, 1).expect("fetch a");
    let b = cache.bread(&mut cpu, &mut disk, 1, 2).expect("fetch b");
    let c = cache.bread(&mut cpu, &mut disk, 1, 3).expect("fetch c");
    let slot_a = a.read_index();
    let slot_b = b.read_index();
    // release in the order a, b, c: c is most recently used
    cache.brelse(&mut cpu, a);
    cache.brelse(&mut cpu, b);
    cache.brelse(&mut cpu, c);
    // the next two misses must take the least-recently-used slots: a's,
    // then b's
    let d = cache.bread(&mut cpu, &mut disk, 1, 4).expect("fetch d");
    assert_eq!(d.read_index(), slot_a);
    let e = cache.bread(&mut cpu, &mut disk, 1, 5).expect("fetch e");
    assert_eq!(e.read_index(), slot_b);
    cache.brelse(&mut cpu, d);
    cache.brelse(&mut cpu, e);
}

#[test]
fn exhausted_pool_fails_cleanly() {
    let (mut cache, mut cpu, mut disk) = setup(3);
    let a = cache.bread(&mut cpu, &mut disk, 1, 1).expect("fetch a");
    let b = cache.bread(&mut cpu, &mut disk, 1, 2).expect("fetch b");
    let c = cache.bread(&mut cpu, &mut disk, 1, 3).expect("fetch c");
    // all three slots are referenced: a fourth fetch must report
    // exhaustion, not deadlock or corrupt anything
    assert!(cache.bread(&mut cpu, &mut disk, 1, 4).is_none());
    // the held handles are untouched
    assert_eq!(a.read_blockno(), 1);
    assert_eq!(b.read_blockno(), 2);
    assert_eq!(c.read_blockno(), 3);
    // releasing one slot makes the fetch succeed again
    cache.brelse(&mut cpu, a);
    let d = cache.bread(&mut cpu, &mut disk, 1, 4).expect("fetch d after release");
    assert_eq!(d.read_blockno(), 4);
    cache.brelse(&mut cpu, b);
    cache.brelse(&mut cpu, c);
    cache.brelse(&mut cpu, d);
}

#[test]
fn write_back_survives_eviction() {
    let (mut cache, mut cpu, mut disk) = setup(3);
    let mut x = cache.bread(&mut cpu, &mut disk, 1, 7).expect("fetch x");
    {
        let data = x.raw_data();
        data.write_byte(0, 0xAB);
        data.write_byte(511, 0x12);
        data.write_byte(BSIZE - 1, 0xEF);
    }
    x.bwrite(&mut disk);
    assert_eq!(disk.write_count(), 1);
    cache.brelse(&mut cpu, x);
    // churn through three other blocks so the slot holding block 7 is
    // recycled
    let d = cache.bread(&mut cpu, &mut disk, 1, 8).expect("fetch d");
    let e = cache.bread(&mut cpu, &mut disk, 1, 9).expect("fetch e");
    let f = cache.bread(&mut cpu, &mut disk, 1, 10).expect("fetch f");
    cache.brelse(&mut cpu, d);
    cache.brelse(&mut cpu, e);
    cache.brelse(&mut cpu, f);
    let reads_before = disk.read_count();
    let mut x2 = cache.bread(&mut cpu, &mut disk, 1, 7).expect("re-fetch x");
    // the block was evicted, so this fetch had to go to the device...
    assert_eq!(disk.read_count(), reads_before + 1);
    // ...and the device reproduced the bytes written back earlier
    let data = x2.raw_data();
    assert_eq!(data.read_byte(0), 0xAB);
    assert_eq!(data.read_byte(511), 0x12);
    assert_eq!(data.read_byte(BSIZE - 1), 0xEF);
    assert_eq!(data.read_byte(1), 0);
    cache.brelse(&mut cpu, x2);
}

#[test]
fn written_bytes_visible_to_second_cache() {
    let (mut cache, mut cpu, mut disk) = setup(3);
    let mut x = cache.bread(&mut cpu, &mut disk, 2, 42).expect("fetch");
    x.raw_data().write_byte(100, 0x5A);
    x.bwrite(&mut disk);
    cache.brelse(&mut cpu, x);
    // a second, cold cache over the same device sees the written bytes
    let mut other = Bcache::new(2);
    other.binit(&mut cpu);
    let mut y = other.bread(&mut cpu, &mut disk, 2, 42).expect("fetch from cold cache");
    assert_eq!(y.raw_data().read_byte(100), 0x5A);
    assert_eq!(y.raw_data().read_byte(99), 0);
    other.brelse(&mut cpu, y);
}

#[test]
fn dirty_bytes_without_write_back_are_lost_on_eviction() {
    let (mut cache, mut cpu, mut disk) = setup(2);
    let mut x = cache.bread(&mut cpu, &mut disk, 1, 20).expect("fetch");
    x.raw_data().write_byte(0, 0x77);
    // no write back
    cache.brelse(&mut cpu, x);
    let d = cache.bread(&mut cpu, &mut disk, 1, 21).expect("fetch d");
    let e = cache.bread(&mut cpu, &mut disk, 1, 22).expect("fetch e");
    cache.brelse(&mut cpu, d);
    cache.brelse(&mut cpu, e);
    let mut x2 = cache.bread(&mut cpu, &mut disk, 1, 20).expect("re-fetch");
    assert_eq!(x2.raw_data().read_byte(0), 0, "eviction discards unwritten bytes");
    cache.brelse(&mut cpu, x2);
}

#[test]
fn cache_hit_serves_modified_bytes() {
    // an unreleased modification stays visible through the cache while the
    // slot is not evicted, even without a device write
    let (mut cache, mut cpu, mut disk) = setup(3);
    let mut x = cache.bread(&mut cpu, &mut disk, 1, 30).expect("fetch");
    x.raw_data().write_byte(5, 0x99);
    cache.brelse(&mut cpu, x);
    let mut y = cache.bread(&mut cpu, &mut disk, 1, 30).expect("hit");
    assert_eq!(y.raw_data().read_byte(5), 0x99);
    cache.brelse(&mut cpu, y);
}

#[test]
fn metadata_lock_discipline_is_balanced() {
    // every cache operation leaves the core's interrupt state as it found
    // it
    let (mut cache, mut cpu, mut disk) = setup(3);
    assert_eq!(cpu.noff, 0);
    assert!(cpu.intr_on);
    let x = cache.bread(&mut cpu, &mut disk, 1, 1).expect("fetch");
    assert_eq!(cpu.noff, 0);
    assert!(cpu.intr_on);
    cache.brelse(&mut cpu, x);
    assert_eq!(cpu.noff, 0);
    assert!(cpu.intr_on);
}
