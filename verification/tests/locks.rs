//! Tests of the mutual-exclusion primitive, its interrupt-disable
//! discipline, and the device model.

use bufcache::disk::Disk;
use bufcache::param::BSIZE;
use bufcache::sleeplock::SleepLock;
use bufcache::spinlock::pop_off;
use bufcache::spinlock::push_off;
use bufcache::spinlock::Cpu;
use bufcache::spinlock::SpinLock;

#[test]
fn push_pop_restores_enabled_interrupts() {
    let mut cpu = Cpu::new(0, true);
    push_off(&mut cpu);
    assert!(!cpu.intr_on);
    assert_eq!(cpu.noff, 1);
    push_off(&mut cpu);
    assert!(!cpu.intr_on);
    assert_eq!(cpu.noff, 2);
    // it takes two pops to undo two pushes
    pop_off(&mut cpu);
    assert!(!cpu.intr_on);
    assert_eq!(cpu.noff, 1);
    pop_off(&mut cpu);
    assert!(cpu.intr_on);
    assert_eq!(cpu.noff, 0);
}

#[test]
fn push_pop_keeps_disabled_interrupts_off() {
    let mut cpu = Cpu::new(1, false);
    push_off(&mut cpu);
    pop_off(&mut cpu);
    assert!(!cpu.intr_on, "interrupts stay off if they were off on entry");
    assert_eq!(cpu.noff, 0);
}

#[test]
fn spinlock_hands_payload_back_and_forth() {
    let mut cpu = Cpu::new(0, true);
    let mut lock: SpinLock<u64> = SpinLock::new(41, "counter");
    assert!(!lock.holding(&mut cpu));
    let mut value = lock.acquire_lock(&mut cpu);
    assert_eq!(value, 41);
    assert!(lock.holding(&mut cpu));
    assert!(!cpu.intr_on, "interrupts are off while the lock is held");
    assert_eq!(cpu.noff, 1);
    value += 1;
    lock.release_lock(&mut cpu, value);
    assert!(!lock.holding(&mut cpu));
    assert!(cpu.intr_on);
    assert_eq!(cpu.noff, 0);
    let value = lock.acquire_lock(&mut cpu);
    assert_eq!(value, 42);
    lock.release_lock(&mut cpu, value);
}

#[test]
fn spinlock_held_elsewhere_is_not_held_here() {
    let mut cpu0 = Cpu::new(0, true);
    let mut cpu1 = Cpu::new(1, true);
    let mut lock: SpinLock<u8> = SpinLock::new(0, "shared");
    let v = lock.acquire_lock(&mut cpu0);
    assert!(lock.holding(&mut cpu0));
    assert!(!lock.holding(&mut cpu1), "another core does not hold this lock");
    lock.release_lock(&mut cpu0, v);
}

#[test]
fn sleeplock_moves_payload() {
    let mut lock: SleepLock<u32> = SleepLock::new(7, "block");
    let v = lock.acquire();
    assert_eq!(v, 7);
    lock.release(v + 1);
    let v = lock.acquire();
    assert_eq!(v, 8);
    lock.release(v);
}

#[test]
fn disk_round_trips_one_block() {
    let mut disk = Disk::new();
    let mut block = vec![0u8; BSIZE];
    block[0] = 1;
    block[BSIZE - 1] = 255;
    disk.rw(3, 9, &mut block, true);
    assert_eq!(disk.write_count(), 1);
    let mut back = vec![0u8; BSIZE];
    disk.rw(3, 9, &mut back, false);
    assert_eq!(disk.read_count(), 1);
    assert_eq!(back, block);
}

#[test]
fn disk_serves_latest_write() {
    let mut disk = Disk::new();
    let mut first = vec![1u8; BSIZE];
    let mut second = vec![2u8; BSIZE];
    disk.rw(0, 4, &mut first, true);
    disk.rw(0, 4, &mut second, true);
    let mut back = vec![0u8; BSIZE];
    disk.rw(0, 4, &mut back, false);
    assert_eq!(back, second);
}

#[test]
fn disk_unwritten_block_is_zeroed() {
    let mut disk = Disk::new();
    let mut back = vec![9u8; BSIZE];
    disk.rw(5, 5, &mut back, false);
    assert!(back.iter().all(|b| *b == 0));
}
