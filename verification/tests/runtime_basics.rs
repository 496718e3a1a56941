use green_threads::context::CONTEXT_BYTES;
use green_threads::context::CONTEXT_WORDS;
use green_threads::context::ThreadContext;
use green_threads::context::initial_context;
use green_threads::context::initial_stack_pointer;
use green_threads::context::word_offset;
use green_threads::runtime::CapacityError;
use green_threads::runtime::DEFAULT_STACK_SIZE;
use green_threads::runtime::Runtime;
use green_threads::runtime::STACK_BYTES;
use green_threads::state::State;
use green_threads::state::transition_allowed;

#[test]
fn new_pool_layout() {
    let rt = Runtime::new(4);
    assert_eq!(rt.threads.len(), 5);
    assert_eq!(rt.current, 0);
    assert!(rt.threads[0].state == State::Running);
    for i in 1..5 {
        assert!(rt.threads[i].state == State::Available);
    }
    for i in 0..5 {
        assert_eq!(rt.threads[i].id, i);
        assert_eq!(rt.threads[i].stack.len(), DEFAULT_STACK_SIZE);
        assert_eq!(rt.threads[i].stack_base, 0);
        for w in 0..CONTEXT_WORDS {
            assert_eq!(rt.threads[i].ctx.word(w), 0);
        }
        // the freshly allocated stack buffer is zero-filled
        let stack = &rt.threads[i].stack;
        assert_eq!(stack[0], 0);
        assert_eq!(stack[DEFAULT_STACK_SIZE - 1], 0);
        assert!(stack.iter().step_by(4096).all(|&b| b == 0));
    }
}

#[test]
fn context_record_wire_format() {
    assert_eq!(CONTEXT_WORDS, 15);
    assert_eq!(CONTEXT_BYTES, 120);
    for i in 0..CONTEXT_WORDS {
        assert_eq!(word_offset(i), 8 * i);
    }
    let ctx = initial_context(0x4000_0000, 0x5000_0000, 0x7fff_fff8);
    // word order: return address, stack pointer, s0..s11, entry
    assert_eq!(ctx.word(0), 0x5000_0000);
    assert_eq!(ctx.word(1), 0x7fff_fff8);
    for w in 2..14 {
        assert_eq!(ctx.word(w), 0);
    }
    assert_eq!(ctx.word(14), 0x4000_0000);
    assert_eq!(ctx.ra, 0x5000_0000);
    assert_eq!(ctx.sp, 0x7fff_fff8);
    assert_eq!(ctx.entry, 0x4000_0000);
    let zero = ThreadContext::zeroed();
    for w in 0..CONTEXT_WORDS {
        assert_eq!(zero.word(w), 0);
    }
}

#[test]
fn initial_stack_pointer_alignment_and_reservation() {
    // an aligned top: only the reservation is subtracted
    assert_eq!(initial_stack_pointer(0, STACK_BYTES), STACK_BYTES - 120);
    // an unaligned top is rounded down to the 8-byte boundary first
    assert_eq!(initial_stack_pointer(5, 1022), 1024 - 120);
    assert_eq!(initial_stack_pointer(3, 1021), 1024 - 120);
    assert_eq!(initial_stack_pointer(4096, STACK_BYTES), 4096 + STACK_BYTES - 120);
    assert_eq!(initial_stack_pointer(0, STACK_BYTES) % 8, 0);
}

#[test]
fn lifecycle_transition_table() {
    assert!(transition_allowed(State::Available, State::Ready));
    assert!(transition_allowed(State::Ready, State::Running));
    assert!(transition_allowed(State::Running, State::Ready));
    assert!(transition_allowed(State::Running, State::Available));
    assert!(!transition_allowed(State::Available, State::Running));
    assert!(!transition_allowed(State::Available, State::Available));
    assert!(!transition_allowed(State::Ready, State::Available));
    assert!(!transition_allowed(State::Ready, State::Ready));
    assert!(!transition_allowed(State::Running, State::Running));
}

#[test]
fn spawn_takes_first_available_slot() {
    let mut rt = Runtime::new(2);
    let r = rt.spawn(0xdead_0000, 0xbeef_0000);
    assert_eq!(r, Ok(1));
    assert!(rt.threads[1].state == State::Ready);
    assert!(rt.threads[2].state == State::Available);
    assert_eq!(rt.threads[1].ctx.ra, 0xbeef_0000);
    assert_eq!(rt.threads[1].ctx.entry, 0xdead_0000);
    assert_eq!(rt.threads[1].ctx.sp, STACK_BYTES - 120);
    for w in 2..14 {
        assert_eq!(rt.threads[1].ctx.word(w), 0);
    }
    let r2 = rt.spawn(7, 9);
    assert_eq!(r2, Ok(2));
}

#[test]
fn spawn_aims_stack_pointer_at_registered_base() {
    let mut rt = Runtime::new(1);
    rt.set_stack_base(1, 0x1_0000);
    let r = rt.spawn(10, 20);
    assert_eq!(r, Ok(1));
    assert_eq!(rt.threads[1].ctx.sp, 0x1_0000 + STACK_BYTES - 120);
}

#[test]
fn spawn_beyond_capacity_is_fatal_and_harmless() {
    let mut rt = Runtime::new(2);
    assert_eq!(rt.spawn(1, 100), Ok(1));
    assert_eq!(rt.spawn(2, 100), Ok(2));
    let r = rt.spawn(3, 100);
    assert_eq!(r, Err(CapacityError));
    // nothing was corrupted: the pool is exactly as the two spawns left it
    assert_eq!(rt.current, 0);
    assert!(rt.threads[0].state == State::Running);
    assert!(rt.threads[1].state == State::Ready);
    assert!(rt.threads[2].state == State::Ready);
    assert_eq!(rt.threads[1].ctx.entry, 1);
    assert_eq!(rt.threads[2].ctx.entry, 2);
}
