//! The mutual-exclusion primitive and the per-core interrupt-disable
//! discipline it depends on.
//!
//! A [`SpinLock`] guards an arbitrary payload.  In the running kernel a core
//! busy-waits on an atomic flag; in this sequential model acquisition
//! requires the lock to be free, which is exactly the state in which the
//! busy-wait terminates at once.  Possession of the payload value stands for
//! possession of the lock: acquiring moves the payload out, releasing moves
//! it back.
//!
//! While a spinlock is held, device interrupts on the holding core are
//! disabled.  Disabling nests: `push_off`/`pop_off` are matched, it takes
//! two `pop_off`s to undo two `push_off`s, and if interrupts were off before
//! the outermost `push_off` they stay off after the matching `pop_off`.
//!
//! Misuse of the lock (acquiring a lock this core already holds, releasing
//! one it does not hold) aborts the real kernel; here every such input is
//! excluded by a precondition, so verified callers can never reach it.

use vstd::prelude::*;

verus! {

/// The per-core state that the interrupt-disable discipline reads and
/// writes: the core's identity, whether device interrupts are currently
/// enabled, and the nesting bookkeeping of `push_off`/`pop_off`.
pub struct Cpu {
    /// This core's identity.
    pub id: usize,
    /// Depth of `push_off` nesting: how many `pop_off`s are owed.
    pub noff: usize,
    /// Whether interrupts were enabled just before the outermost `push_off`.
    /// Meaningful only while `noff > 0`.
    pub intena: bool,
    /// Whether device interrupts are currently enabled on this core.
    pub intr_on: bool,
}

impl Cpu {
    /// The discipline's invariant: inside a `push_off` section interrupts
    /// are off.
    pub open spec fn wf(self) -> bool {
        self.noff > 0 ==> !self.intr_on
    }

    pub fn new(id: usize, intr_on: bool) -> (c: Cpu)
        ensures
            c == (Cpu { id, noff: 0, intena: false, intr_on }),
            c.wf(),
    {
        Cpu { id, noff: 0, intena: false, intr_on }
    }
}

/// What one `push_off` does to a core's state.
pub open spec fn push_off_spec(c: Cpu) -> Cpu {
    Cpu {
        noff: (c.noff + 1) as usize,
        intena: if c.noff == 0 { c.intr_on } else { c.intena },
        intr_on: false,
        ..c
    }
}

/// What one `pop_off` does to a core's state: interrupts come back on only
/// when the outermost section exits, and only if they were on before it.
pub open spec fn pop_off_spec(c: Cpu) -> Cpu {
    Cpu { noff: (c.noff - 1) as usize, intr_on: c.noff == 1 && c.intena, ..c }
}

/// Disable interrupts on this core, recording the previous state if this is
/// the outermost disable.
pub fn push_off(cpu: &mut Cpu)
    requires
        old(cpu).noff < usize::MAX,
    ensures
        *final(cpu) == push_off_spec(*old(cpu)),
        final(cpu).wf(),
{
    let old_intr = cpu.intr_on;
    cpu.intr_on = false;
    if cpu.noff == 0 {
        cpu.intena = old_intr;
    }
    cpu.noff = cpu.noff + 1;
}

/// Undo one `push_off`.  Calling it with interrupts enabled, or without a
/// matching `push_off`, is a fatal discipline violation and is excluded.
pub fn pop_off(cpu: &mut Cpu)
    requires
        !old(cpu).intr_on,
        old(cpu).noff > 0,
    ensures
        *final(cpu) == pop_off_spec(*old(cpu)),
        final(cpu).wf(),
{
    cpu.noff = cpu.noff - 1;
    if cpu.noff == 0 && cpu.intena {
        cpu.intr_on = true;
    }
}

/// The disable/enable counting is symmetric: a `pop_off` undoes a
/// `push_off` exactly.  The identity, the nesting depth and the interrupt
/// flag are restored; the saved flag `intena` is restored whenever it is
/// meaningful (inside an enclosing section), and if interrupts were off
/// before the pair they are off after it.
pub proof fn lemma_push_pop_symmetric(c: Cpu)
    requires
        c.wf(),
        c.noff < usize::MAX,
    ensures
        pop_off_spec(push_off_spec(c)).id == c.id,
        pop_off_spec(push_off_spec(c)).noff == c.noff,
        pop_off_spec(push_off_spec(c)).intr_on == c.intr_on,
        c.noff > 0 ==> pop_off_spec(push_off_spec(c)) == c,
        !c.intr_on ==> !pop_off_spec(push_off_spec(c)).intr_on,
{
}

/// A lock acquisition bracketed by the matching release leaves the core's
/// interrupt state as it found it: the identity, the nesting depth and the
/// interrupt flag are unchanged, and the saved flag is unchanged whenever
/// an enclosing section makes it meaningful.
pub open spec fn cpu_restored(pre: Cpu, post: Cpu) -> bool {
    &&& post.id == pre.id
    &&& post.noff == pre.noff
    &&& post.intr_on == pre.intr_on
    &&& pre.noff > 0 ==> post.intena == pre.intena
}

/// A busy-wait mutual-exclusion lock around a payload of type `T`.
///
/// `cpu_id` records the holding core for misuse detection; `payload` is the
/// guarded value, present exactly while the lock is free.
pub struct SpinLock<T> {
    name: &'static str,
    cpu_id: Option<usize>,
    locked: bool,
    data: Option<T>,
}

impl<T> SpinLock<T> {
    pub closed spec fn locked(self) -> bool {
        self.locked
    }

    /// The core currently holding the lock, if any.
    pub closed spec fn holder(self) -> Option<usize> {
        self.cpu_id
    }

    /// The guarded value.  Meaningful only while the lock is free.
    pub closed spec fn payload(self) -> T
        recommends
            !self.locked(),
    {
        self.data->Some_0
    }

    pub closed spec fn wf(self) -> bool {
        &&& self.locked <==> self.data is None
        &&& !self.locked ==> self.cpu_id is None
    }

    pub fn new(user_data: T, name: &'static str) -> (lk: SpinLock<T>)
        ensures
            lk.wf(),
            !lk.locked(),
            lk.payload() == user_data,
    {
        SpinLock { name, cpu_id: None, locked: false, data: Some(user_data) }
    }

    /// Whether the calling core holds this lock.  Interrupts are kept off
    /// around the two reads so the answer cannot be torn by a trap.
    pub fn holding(&self, cpu: &mut Cpu) -> (r: bool)
        requires
            old(cpu).wf(),
            old(cpu).noff < usize::MAX,
        ensures
            r == (self.locked() && self.holder() == Some(old(cpu).id)),
            final(cpu).id == old(cpu).id,
            final(cpu).noff == old(cpu).noff,
            final(cpu).intr_on == old(cpu).intr_on,
            old(cpu).noff > 0 ==> *final(cpu) == *old(cpu),
            final(cpu).wf(),
    {
        push_off(cpu);
        let r = match self.cpu_id {
            Some(holder) => self.locked && holder == cpu.id,
            None => false,
        };
        pop_off(cpu);
        r
    }

    /// Acquire the lock and take its payload.  The precondition that the
    /// lock is free is where the model stands in for the busy-wait; the
    /// precondition also rules out the fatal re-acquire-on-same-core bug,
    /// which the body re-checks.
    pub fn acquire_lock(&mut self, cpu: &mut Cpu) -> (t: T)
        requires
            old(self).wf(),
            !old(self).locked(),
            old(cpu).wf(),
            old(cpu).noff + 1 < usize::MAX,
        ensures
            final(self).wf(),
            final(self).locked(),
            final(self).holder() == Some(old(cpu).id),
            t == old(self).payload(),
            *final(cpu) == push_off_spec(*old(cpu)),
    {
        push_off(cpu);
        let already = self.holding(cpu);
        assert(!already);
        // The busy-wait on the atomic flag terminates at once: the lock is
        // free here.
        self.locked = true;
        self.cpu_id = Some(cpu.id);
        let taken = self.data.take();
        match taken {
            Some(t) => t,
            None => vstd::pervasive::unreached(),
        }
    }

    /// Release the lock, handing its payload back.  Releasing a lock this
    /// core does not hold is a fatal discipline violation and is excluded;
    /// the body re-checks it.
    pub fn release_lock(&mut self, cpu: &mut Cpu, user_data: T)
        requires
            old(self).wf(),
            old(self).locked(),
            old(self).holder() == Some(old(cpu).id),
            old(cpu).wf(),
            0 < old(cpu).noff < usize::MAX,
        ensures
            final(self).wf(),
            !final(self).locked(),
            final(self).payload() == user_data,
            *final(cpu) == pop_off_spec(*old(cpu)),
    {
        let held = self.holding(cpu);
        assert(held);
        self.cpu_id = None;
        self.locked = false;
        self.data = Some(user_data);
        pop_off(cpu);
    }
}

} // verus!
