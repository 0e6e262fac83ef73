//! A verified model of the core of a small multi-core kernel: a fixed-size
//! block buffer cache (an LRU list of slots under a spinlock, each slot's
//! bytes guarded by a blocking per-slot lock), together with the
//! mutual-exclusion primitive and its nested interrupt-disable discipline
//! that the cache's bookkeeping relies on.
//!
//! The model is sequential: one thread of control drives the state machine,
//! and the points where the real kernel would busy-wait or suspend are
//! expressed as preconditions ("this lock is free here").  Ownership stands
//! in for lock possession: taking a lock moves its payload to the caller,
//! releasing it moves the payload back, so the type system makes it
//! impossible to touch protected state without holding the lock.

pub mod bio;
pub mod disk;
pub mod lru;
pub mod param;
pub mod sleeplock;
pub mod spinlock;
