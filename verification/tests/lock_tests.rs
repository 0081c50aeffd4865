use ngos::kernel::interrupt::{is_interrupt_context, InterruptContextHandle, InterruptState};
use ngos::util::constant::Constant;
use ngos::util::init_cell::InitCell;
use ngos::util::mutex_int::MutexInt;
use ngos::util::sync_wrapper::SyncWrapper;

#[test]
fn handle_raises_and_lowers_the_flag() {
    let mut state = InterruptState::new();
    assert!(!is_interrupt_context(&state));
    let handle = InterruptContextHandle::new(&mut state);
    assert!(is_interrupt_context(&state));
    handle.release(&mut state);
    assert!(!is_interrupt_context(&state));
}

#[test]
fn forbidden_lock_is_refused_inside_a_handler() {
    let lock = MutexInt::new(false, 5u32);
    let mut state = InterruptState { interrupt_context: true, interrupts_enabled: false };
    assert!(!lock.may_lock(&state));
    assert!(lock.checked_lock(&mut state).is_none());
    assert_eq!(state, InterruptState { interrupt_context: true, interrupts_enabled: false });
}

#[test]
fn forbidden_lock_outside_a_handler_leaves_interrupts_alone() {
    let lock = MutexInt::new(false, 5u32);
    let mut state = InterruptState { interrupt_context: false, interrupts_enabled: true };
    assert!(lock.may_lock(&state));
    let guard = lock.lock(&mut state);
    assert!(state.interrupts_enabled);
    assert_eq!(*guard.deref(), 5);
    guard.release(&mut state);
    assert!(state.interrupts_enabled);
    assert!(!state.interrupt_context);
}

#[test]
fn safe_lock_turns_interrupts_off_and_back_on() {
    let lock = MutexInt::new(true, 5u32);
    let mut state = InterruptState { interrupt_context: false, interrupts_enabled: true };
    let guard = lock.lock(&mut state);
    assert!(!state.interrupts_enabled);
    guard.release(&mut state);
    assert!(state.interrupts_enabled);
}

#[test]
fn safe_lock_leaves_interrupts_off_if_they_were_off() {
    let lock = MutexInt::new(true, 5u32);
    let mut state = InterruptState { interrupt_context: true, interrupts_enabled: false };
    assert!(lock.may_lock(&state));
    let guard = lock.checked_lock(&mut state).unwrap();
    assert!(!state.interrupts_enabled);
    guard.release(&mut state);
    assert!(!state.interrupts_enabled);
    assert!(state.interrupt_context);
}

fn early_exit(lock: &MutexInt<u32>, state: &mut InterruptState, stop: bool) -> u32 {
    let mut guard = lock.lock(state);
    if stop {
        guard.release(state);
        return 0;
    }
    *guard.deref_mut() += 1;
    let seen = *guard.deref();
    guard.release(state);
    seen
}

#[test]
fn interrupts_are_back_on_after_an_early_exit() {
    let lock = MutexInt::new(true, 5u32);
    let mut state = InterruptState { interrupt_context: false, interrupts_enabled: true };
    assert_eq!(early_exit(&lock, &mut state, true), 0);
    assert!(state.interrupts_enabled);
    assert_eq!(early_exit(&lock, &mut state, false), 6);
    assert!(state.interrupts_enabled);
}

#[test]
fn lock_keeps_the_data_between_holders() {
    let lock = MutexInt::new(true, vec![1u8, 2]);
    let mut state = InterruptState::new();
    let mut guard = lock.lock(&mut state);
    guard.deref_mut().push(3);
    guard.release(&mut state);
    let guard = lock.lock(&mut state);
    assert_eq!(*guard.deref(), vec![1, 2, 3]);
    guard.release(&mut state);
}

#[test]
fn interrupt_state_switches() {
    let mut state = InterruptState::new();
    assert!(!state.are_enabled());
    state.enable();
    assert!(state.are_enabled());
    assert!(!state.interrupt_context);
    state.disable();
    assert!(!state.are_enabled());
}

#[test]
fn constant_and_sync_wrapper_hold_their_value() {
    let constant = Constant::new(41u64);
    assert_eq!(*constant.inner(), 41);
    let wrapper = SyncWrapper::new("kernel");
    assert_eq!(*wrapper.inner(), "kernel");
}

#[test]
fn init_cell_is_filled_once() {
    let mut cell: InitCell<u32> = InitCell::new();
    assert!(!cell.is_init());
    cell.init(9);
    assert!(cell.is_init());
    assert_eq!(*cell.get(), 9);
}

#[test]
fn lock_says_when_it_turns_interrupts_off() {
    let safe = MutexInt::new(true, 0u8);
    let forbidden = MutexInt::new(false, 0u8);
    let on = InterruptState { interrupt_context: false, interrupts_enabled: true };
    let off = InterruptState { interrupt_context: false, interrupts_enabled: false };
    assert!(safe.turns_interrupts_off(&on));
    assert!(!safe.turns_interrupts_off(&off));
    assert!(!forbidden.turns_interrupts_off(&on));
    assert!(!forbidden.turns_interrupts_off(&off));
}

#[test]
fn with_lock_runs_the_step_and_restores_interrupts() {
    let lock = MutexInt::new(true, 5u32);
    let mut state = InterruptState { interrupt_context: false, interrupts_enabled: true };
    let seen = lock.with_lock(&mut state, |data| {
        *data += 2;
        *data
    });
    assert_eq!(seen, 7);
    assert!(state.interrupts_enabled);
    let early: Result<u32, &str> = lock.with_lock(&mut state, |data| {
        if *data > 6 {
            return Err("too large");
        }
        *data += 1;
        Ok(*data)
    });
    assert_eq!(early, Err("too large"));
    assert_eq!(state, InterruptState { interrupt_context: false, interrupts_enabled: true });
    assert_eq!(lock.with_lock(&mut state, |data| *data), 7);
}

#[test]
fn run_raises_the_flag_for_the_handler_only() {
    let lock = MutexInt::new(false, 1u8);
    let mut state = InterruptState { interrupt_context: false, interrupts_enabled: true };
    let refused = InterruptContextHandle::run(&mut state, |inside| {
        assert!(is_interrupt_context(inside));
        lock.checked_lock(inside).is_none()
    });
    assert!(refused);
    assert!(!is_interrupt_context(&state));
    assert!(state.interrupts_enabled);
}
