//! Whether the processor is inside an interrupt handler, and whether it
//! accepts interrupts.

use vstd::prelude::*;

verus! {

/// What the kernel knows about interrupts on its processor: whether a
/// handler is running, and whether the processor accepts interrupts.
#[derive(Clone, Copy, Debug, PartialEq, Eq, Structural)]
pub struct InterruptState {
    /// True from the entry of an interrupt or exception handler to its exit.
    pub interrupt_context: bool,
    /// Whether the processor accepts interrupts.
    pub interrupts_enabled: bool,
}

impl InterruptState {
    /// The state at boot: no handler is running and interrupts are off.
    pub fn new() -> (r: InterruptState)
        ensures
            r == (InterruptState { interrupt_context: false, interrupts_enabled: false }),
    {
        InterruptState { interrupt_context: false, interrupts_enabled: false }
    }

    /// Whether the processor accepts interrupts.
    pub fn are_enabled(&self) -> (r: bool)
        ensures
            r == self.interrupts_enabled,
    {
        self.interrupts_enabled
    }

    /// Makes the processor accept interrupts.
    pub fn enable(&mut self)
        ensures
            *final(self) == (InterruptState { interrupts_enabled: true, ..*old(self) }),
    {
        self.interrupts_enabled = true;
    }

    /// Makes the processor hold interrupts back.
    pub fn disable(&mut self)
        ensures
            *final(self) == (InterruptState { interrupts_enabled: false, ..*old(self) }),
    {
        self.interrupts_enabled = false;
    }
}

/// Whether an interrupt or exception handler is running.
pub fn is_interrupt_context(state: &InterruptState) -> (r: bool)
    ensures
        r == state.interrupt_context,
{
    state.interrupt_context
}

/// The mark of a running handler. A handler takes one on entry, which
/// raises the flag, and gives it back on every way out, which lowers it.
pub struct InterruptContextHandle {
    _private: (),
}

impl InterruptContextHandle {
    /// Enters a handler: raises the flag.
    pub fn new(state: &mut InterruptState) -> (r: InterruptContextHandle)
        ensures
            *final(state) == (InterruptState { interrupt_context: true, ..*old(state) }),
    {
        state.interrupt_context = true;
        InterruptContextHandle { _private: () }
    }

    /// Runs `handler` as an interrupt or exception handler: raises the flag,
    /// runs it, and lowers the flag again, whatever `handler` returns.
    pub fn run<R, F: FnOnce(&mut InterruptState) -> R>(state: &mut InterruptState, handler: F) -> (r: R)
        requires
            forall|inside: &mut InterruptState| inside.interrupt_context ==> handler.requires((inside,)),
        ensures
            exists|inside: &mut InterruptState|
                *inside == (InterruptState { interrupt_context: true, ..*old(state) })
                    && handler.ensures((inside,), r) && *final(state) == (InterruptState {
                    interrupt_context: false,
                    ..*final(inside)
                }),
    {
        let handle = InterruptContextHandle::new(state);
        let r = handler(state);
        handle.release(state);
        r
    }

    /// Leaves the handler: lowers the flag.
    pub fn release(self, state: &mut InterruptState)
        ensures
            *final(state) == (InterruptState { interrupt_context: false, ..*old(state) }),
    {
        state.interrupt_context = false;
    }
}

} // verus!
