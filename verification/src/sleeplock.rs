//! The blocking per-block lock, an external collaborator of the cache,
//! modeled at its contract.
//!
//! In the running kernel, acquiring a held sleep lock suspends the calling
//! thread of control (a cooperative yield, not a busy-wait) until the
//! holder releases it, so it is safe to hold across a long device
//! operation.  In this sequential model a suspension can never be resumed,
//! so acquisition requires the lock to be free: that is the state in which
//! the real acquire returns.  As with the spinlock, possession of the
//! payload value stands for possession of the lock.

use vstd::prelude::*;

verus! {

/// A blocking lock around a payload of type `T`.  The payload is present
/// exactly while the lock is free; the holder owns it while the lock is
/// held.
pub struct SleepLock<T> {
    name: &'static str,
    locked: bool,
    data: Option<T>,
}

impl<T> SleepLock<T> {
    pub closed spec fn locked(self) -> bool {
        self.locked
    }

    /// The guarded value.  Meaningful only while the lock is free.
    pub closed spec fn payload(self) -> T
        recommends
            !self.locked(),
    {
        self.data->Some_0
    }

    pub closed spec fn wf(self) -> bool {
        self.locked <==> self.data is None
    }

    pub fn new(user_data: T, name: &'static str) -> (lk: SleepLock<T>)
        ensures
            lk.wf(),
            !lk.locked(),
            lk.payload() == user_data,
    {
        SleepLock { name, locked: false, data: Some(user_data) }
    }

    /// Acquire the lock and take its payload.  The precondition that the
    /// lock is free is where this model stands in for the suspension of the
    /// calling thread.
    pub fn acquire(&mut self) -> (t: T)
        requires
            old(self).wf(),
            !old(self).locked(),
        ensures
            final(self).wf(),
            final(self).locked(),
            t == old(self).payload(),
    {
        self.locked = true;
        let taken = self.data.take();
        match taken {
            Some(t) => t,
            None => vstd::pervasive::unreached(),
        }
    }

    /// Release the lock, handing its payload back.  Waiters, if any, are
    /// resumed in unspecified order; the model has none.
    pub fn release(&mut self, user_data: T)
        requires
            old(self).wf(),
            old(self).locked(),
        ensures
            final(self).wf(),
            !final(self).locked(),
            final(self).payload() == user_data,
    {
        self.locked = false;
        self.data = Some(user_data);
    }
}

} // verus!
