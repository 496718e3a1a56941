use green_threads::runtime::Runtime;
use green_threads::state::State;

#[test]
fn schedule_picks_first_ready_after_current() {
    let mut rt = Runtime::new(3);
    rt.threads[2].state = State::Ready;
    rt.threads[3].state = State::Ready;
    // scan starts just after slot 0: slot 1 is available, slot 2 is the hit
    let d = rt.t_schedule();
    assert_eq!(d, Some((0, 2)));
    assert_eq!(rt.current, 2);
    assert!(rt.threads[2].state == State::Running);
    assert!(rt.threads[3].state == State::Ready);
}

#[test]
fn schedule_wraps_around_the_pool() {
    let mut rt = Runtime::new(3);
    rt.threads[0].state = State::Ready;
    rt.threads[1].state = State::Ready;
    rt.threads[3].state = State::Running;
    rt.current = 3;
    // from slot 3 the scan wraps to slot 0 before reaching slot 1
    let d = rt.t_schedule();
    assert_eq!(d, Some((3, 0)));
    assert_eq!(rt.current, 0);
    assert!(rt.threads[0].state == State::Running);
    assert!(rt.threads[1].state == State::Ready);
}

#[test]
fn schedule_without_ready_slot_changes_nothing() {
    let mut rt = Runtime::new(2);
    let d = rt.t_schedule();
    assert_eq!(d, None);
    assert_eq!(rt.current, 0);
    assert!(rt.threads[0].state == State::Running);
    assert!(rt.threads[1].state == State::Available);
    assert!(rt.threads[2].state == State::Available);
}

#[test]
fn lone_yield_reports_no_switch_and_continues_in_place() {
    // a lone running task whose yield finds no ready sibling is not
    // re-entered by its own call: the step is a no-op
    let mut rt = Runtime::new(2);
    rt.threads[0].state = State::Available;
    rt.threads[1].state = State::Running;
    rt.current = 1;
    let d = rt.t_yield();
    assert_eq!(d, None);
    assert_eq!(rt.current, 1);
    assert!(rt.threads[1].state == State::Running);
}

#[test]
fn control_yield_with_no_work_is_a_no_op() {
    let mut rt = Runtime::new(4);
    let d = rt.t_yield();
    assert_eq!(d, None);
    assert_eq!(rt.current, 0);
    assert!(rt.threads[0].state == State::Running);
}

#[test]
fn yield_switches_to_next_ready_sibling() {
    let mut rt = Runtime::new(3);
    rt.threads[0].state = State::Ready;
    rt.threads[1].state = State::Running;
    rt.threads[2].state = State::Ready;
    rt.current = 1;
    let d = rt.t_yield();
    assert_eq!(d, Some((1, 2)));
    assert_eq!(rt.current, 2);
    assert!(rt.threads[1].state == State::Ready);
    assert!(rt.threads[2].state == State::Running);
    assert!(rt.threads[0].state == State::Ready);
}

#[test]
fn task_return_retires_the_slot() {
    let mut rt = Runtime::new(2);
    rt.threads[0].state = State::Ready;
    rt.threads[1].state = State::Running;
    rt.current = 1;
    let d = rt.t_return();
    assert_eq!(d, Some((1, 0)));
    assert_eq!(rt.current, 0);
    assert!(rt.threads[0].state == State::Running);
    assert!(rt.threads[1].state == State::Available);
}

#[test]
fn task_return_with_no_ready_slot_only_retires() {
    let mut rt = Runtime::new(2);
    rt.threads[0].state = State::Available;
    rt.threads[1].state = State::Running;
    rt.current = 1;
    let d = rt.t_return();
    assert_eq!(d, None);
    assert_eq!(rt.current, 1);
    assert!(rt.threads[1].state == State::Available);
}
