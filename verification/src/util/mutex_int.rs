//! A lock that knows about interrupts.

use crate::kernel::interrupt::{is_interrupt_context, InterruptState};
use vstd::prelude::*;

verus! {

#[verifier::external_type_specification]
#[verifier::external_body]
#[verifier::reject_recursive_types(T)]
pub struct ExSpinMutex<T: ?Sized>(spin::Mutex<T>);

#[verifier::external_type_specification]
#[verifier::external_body]
#[verifier::reject_recursive_types(T)]
pub struct ExSpinMutexGuard<'a, T: ?Sized + 'a>(spin::MutexGuard<'a, T>);

/// `spin::Mutex::new`, which makes a spin lock around `data`. Nothing is
/// claimed of the result.
#[verifier::external_body]
fn spin_new<T>(data: T) -> (m: spin::Mutex<T>) {
    spin::Mutex::new(data)
}

/// `spin::Mutex::lock`, which takes the spin lock and returns the guard
/// that gives access to the data. It returns once the lock is free: while a
/// guard taken earlier is still held, it keeps spinning. Nothing is claimed
/// of the result.
#[verifier::external_body]
fn spin_lock<T>(m: &spin::Mutex<T>) -> (g: spin::MutexGuard<'_, T>) {
    m.lock()
}

/// `Deref::deref` of `spin::MutexGuard`, which lends the data behind the
/// guard to read. Nothing is claimed of the result.
#[verifier::external_body]
fn spin_get<'b, 'a, T>(g: &'b spin::MutexGuard<'a, T>) -> (r: &'b T) {
    &**g
}

/// `DerefMut::deref_mut` of `spin::MutexGuard`, which lends the data
/// behind the guard to change. Nothing is claimed of the result.
#[verifier::external_body]
fn spin_get_mut<'b, 'a, T>(g: &'b mut spin::MutexGuard<'a, T>) -> (r: &'b mut T) {
    &mut **g
}

/// A held `MutexInt`. Giving it back releases the lock, and turns
/// interrupts back on if taking the lock turned them off.
#[verifier::reject_recursive_types(T)]
pub struct MutexGuardInt<'a, T> {
    enable_interrupt_later: bool,
    guard: spin::MutexGuard<'a, T>,
}

/// A spin lock with a rule about interrupts, chosen when it is made.
///
/// A lock that does not allow interrupt context protects data that no
/// handler may touch: it must not be taken while a handler runs. A lock
/// that allows interrupt context protects data that handlers use too: it
/// turns interrupts off while it is held, so that no handler can run on top
/// of the holder and wait for the lock forever.
#[verifier::reject_recursive_types(T)]
pub struct MutexInt<T> {
    allow_interrupt_context: bool,
    inner: spin::Mutex<T>,
}

impl<'a, T> MutexGuardInt<'a, T> {
    /// Whether giving the guard back turns interrupts on.
    pub closed spec fn enables_later(&self) -> bool {
        self.enable_interrupt_later
    }

    /// The data that the lock protects, to read. The data lives inside the
    /// spin lock, whose contents have no model here, so nothing is stated of
    /// the value.
    pub fn deref(&self) -> &T {
        spin_get(&self.guard)
    }

    /// The data that the lock protects, to change. The data lives inside
    /// the spin lock, whose contents have no model here, so nothing is
    /// stated of the value. The guard still remembers whether to turn
    /// interrupts on.
    pub fn deref_mut(&mut self) -> (r: &mut T)
        ensures
            final(self).enables_later() == old(self).enables_later(),
    {
        spin_get_mut(&mut self.guard)
    }

    /// Gives the guard back: releases the lock, and turns interrupts on if
    /// taking the lock turned them off. Nothing else changes.
    pub fn release(self, state: &mut InterruptState)
        ensures
            *final(state) == unlock_state(*old(state), self.enables_later()),
    {
        if self.enable_interrupt_later {
            state.enable();
        }
    }
}

/// Whether a lock with the given rule may be taken in the given state: a
/// lock that does not allow interrupt context may not be taken while a
/// handler runs.
pub open spec fn lock_permitted(allow_interrupt_context: bool, state: InterruptState) -> bool {
    allow_interrupt_context || !state.interrupt_context
}

/// The interrupt state after taking a lock: a lock that allows interrupt
/// context turns interrupts off, the other kind changes nothing.
pub open spec fn lock_state(allow_interrupt_context: bool, state: InterruptState) -> InterruptState {
    if allow_interrupt_context {
        InterruptState { interrupts_enabled: false, ..state }
    } else {
        state
    }
}

/// Whether the guard of a lock taken in the given state turns interrupts
/// on when it is given back: only if the lock turned them off.
pub open spec fn lock_enables_later(allow_interrupt_context: bool, state: InterruptState) -> bool {
    allow_interrupt_context && state.interrupts_enabled
}

/// The interrupt state after giving a guard back.
pub open spec fn unlock_state(state: InterruptState, enable_interrupt_later: bool) -> InterruptState {
    if enable_interrupt_later {
        InterruptState { interrupts_enabled: true, ..state }
    } else {
        state
    }
}

impl<T> MutexInt<T> {
    /// Whether the lock may be taken while a handler runs.
    pub closed spec fn allows_interrupt_context(&self) -> bool {
        self.allow_interrupt_context
    }

    /// A lock around `data` with the given rule.
    pub fn new(allow_interrupt_context: bool, data: T) -> (r: Self)
        ensures
            r.allows_interrupt_context() == allow_interrupt_context,
    {
        Self { allow_interrupt_context, inner: spin_new(data) }
    }

    /// Whether the lock may be taken in the given state.
    pub fn may_lock(&self, state: &InterruptState) -> (r: bool)
        ensures
            r == lock_permitted(self.allows_interrupt_context(), *state),
    {
        self.allow_interrupt_context || !is_interrupt_context(state)
    }

    /// Whether taking the lock in the given state turns interrupts off. The
    /// processor must have stopped taking interrupts before `lock` is
    /// called on such a state, so that no handler can run between the switch
    /// and the taking of the spin lock.
    pub fn turns_interrupts_off(&self, state: &InterruptState) -> (r: bool)
        ensures
            r == lock_enables_later(self.allows_interrupt_context(), *state),
    {
        self.allow_interrupt_context && state.are_enabled()
    }

    /// Takes the spin lock. A lock that allows interrupt context is only
    /// taken with interrupts off.
    fn take_spin(&self, state: &InterruptState) -> (g: spin::MutexGuard<'_, T>)
        requires
            self.allow_interrupt_context ==> !state.interrupts_enabled,
    {
        spin_lock(&self.inner)
    }

    /// Takes the lock, runs `step` on the data that the lock protects, and
    /// gives the lock back. The interrupt state is afterwards what it was
    /// before, whatever `step` returns.
    pub fn with_lock<R, F: FnOnce(&mut T) -> R>(&self, state: &mut InterruptState, step: F) -> (r: R)
        requires
            lock_permitted(self.allows_interrupt_context(), *old(state)),
            forall|data: &mut T| step.requires((data,)),
        ensures
            *final(state) == *old(state),
            exists|data: &mut T| step.ensures((data,), r),
    {
        let mut guard = self.lock(state);
        let r = step(guard.deref_mut());
        guard.release(state);
        r
    }

    /// Takes the lock if it may be taken in the given state, and otherwise
    /// returns `None` and changes nothing.
    pub fn checked_lock(&self, state: &mut InterruptState) -> (r: Option<MutexGuardInt<'_, T>>)
        ensures
            r.is_some() == lock_permitted(self.allows_interrupt_context(), *old(state)),
            r matches Some(guard) ==> *final(state) == lock_state(
                self.allows_interrupt_context(),
                *old(state),
            ) && guard.enables_later() == lock_enables_later(
                self.allows_interrupt_context(),
                *old(state),
            ),
            r.is_none() ==> *final(state) == *old(state),
    {
        if self.may_lock(state) {
            Some(self.lock(state))
        } else {
            None
        }
    }

    /// Takes the lock. A lock that does not allow interrupt context must
    /// not be taken while a handler runs. A lock that allows it turns
    /// interrupts off first, and its guard remembers whether they were on.
    pub fn lock(&self, state: &mut InterruptState) -> (r: MutexGuardInt<'_, T>)
        requires
            lock_permitted(self.allows_interrupt_context(), *old(state)),
        ensures
            *final(state) == lock_state(self.allows_interrupt_context(), *old(state)),
            r.enables_later() == lock_enables_later(self.allows_interrupt_context(), *old(state)),
    {
        if !self.allow_interrupt_context {
            MutexGuardInt { guard: self.take_spin(state), enable_interrupt_later: false }
        } else {
            let int_en: bool = state.are_enabled();
            if int_en {
                state.disable();
            }
            MutexGuardInt { guard: self.take_spin(state), enable_interrupt_later: int_en }
        }
    }
}

/// While a handler runs, a lock that does not allow interrupt context
/// cannot be taken: `lock` may not be called, and `checked_lock` returns
/// `None` and leaves the interrupt state as it is. A lock that allows
/// interrupt context can be taken in every state.
pub proof fn lemma_context_violation_refused(state: InterruptState)
    requires
        state.interrupt_context,
    ensures
        !lock_permitted(false, state),
        lock_permitted(true, state),
{
}

/// Taking a lock and giving its guard back leaves interrupts as they were:
/// if they were on before the lock was taken, they are on again once the
/// guard is back, and if they were off they stay off. The handler flag is
/// not touched. Interrupts that were on before come back on whatever was
/// done to the interrupt state while the lock was held.
pub proof fn lemma_interrupts_restored(
    allow_interrupt_context: bool,
    before: InterruptState,
    during: InterruptState,
)
    ensures
        unlock_state(
            lock_state(allow_interrupt_context, before),
            lock_enables_later(allow_interrupt_context, before),
        ) == before,
        allow_interrupt_context ==> !lock_state(allow_interrupt_context, before).interrupts_enabled,
        allow_interrupt_context && before.interrupts_enabled ==> unlock_state(
            during,
            lock_enables_later(allow_interrupt_context, before),
        ).interrupts_enabled,
{
}

} // verus!
