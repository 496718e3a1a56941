use green_threads::runtime::CapacityError;
use green_threads::state::State;
use green_threads::workload::Workload;

#[test]
fn four_counting_tasks_run_to_completion() {
    // four tasks, task i yielding 4*i times, as one whole cooperative run
    let mut w = Workload::new(4);
    for i in 1..5u64 {
        let slot = w.spawn_task(4 * i).expect("a slot must be available");
        assert_eq!(slot, i as usize);
    }
    w.run();
    // the run ended, every task's body completed exactly once
    for u in 1..5 {
        assert_eq!(w.finished[u], 1);
    }
    // each task yielded its whole budget and was switched into budget + 1 times
    for u in 1..5u64 {
        assert_eq!(w.done[u as usize], 4 * u);
        assert_eq!(w.entered[u as usize], 4 * u + 1);
    }
    // only the control slot is running; every user slot is available again
    assert_eq!(w.rt.current, 0);
    assert!(w.rt.threads[0].state == State::Running);
    for u in 1..5 {
        assert!(w.rt.threads[u].state == State::Available);
    }
    // total switches into user slots: all yields plus one per task
    let user_entries = w.trace.iter().filter(|&&s| s != 0).count();
    assert_eq!(user_entries, (4 + 8 + 12 + 16) + 4);
}

#[test]
fn round_robin_visits_ready_slots_in_ascending_wraparound_order() {
    let mut w = Workload::new(4);
    for i in 1..5u64 {
        w.spawn_task(4 * i).expect("a slot must be available");
    }
    w.run();
    // each pass over the pool enters the still-live slots in ascending
    // order, then comes back to the control slot; slots drop out of the
    // passes as their budgets run dry
    let mut expected: Vec<usize> = Vec::new();
    for _ in 0..5 {
        expected.extend_from_slice(&[1, 2, 3, 4, 0]);
    }
    for _ in 0..4 {
        expected.extend_from_slice(&[2, 3, 4, 0]);
    }
    for _ in 0..4 {
        expected.extend_from_slice(&[3, 4, 0]);
    }
    for _ in 0..4 {
        expected.extend_from_slice(&[4, 0]);
    }
    assert_eq!(w.trace, expected);
    // within every pass the user slots are strictly ascending
    let mut last: usize = 0;
    for &s in &w.trace {
        if s != 0 {
            assert!(s > last, "pass visited slot {} after slot {}", s, last);
        }
        last = s;
    }
}

#[test]
fn task_that_never_yields_completes_in_its_first_turn() {
    let mut w = Workload::new(2);
    let slot = w.spawn_task(0).expect("a slot must be available");
    assert_eq!(slot, 1);
    w.run();
    assert_eq!(w.entered[1], 1);
    assert_eq!(w.finished[1], 1);
    assert_eq!(w.done[1], 0);
    // one switch into the task, one back into the control slot
    assert_eq!(w.trace, vec![1, 0]);
}

#[test]
fn yield_count_fixes_entry_count() {
    let mut w = Workload::new(1);
    w.spawn_task(5).expect("a slot must be available");
    w.run();
    assert_eq!(w.done[1], 5);
    assert_eq!(w.entered[1], 6);
    assert_eq!(w.finished[1], 1);
}

#[test]
fn mixed_batch_under_capacity_terminates() {
    let mut w = Workload::new(4);
    assert_eq!(w.spawn_task(3), Ok(1));
    assert_eq!(w.spawn_task(0), Ok(2));
    assert_eq!(w.spawn_task(2), Ok(3));
    w.run();
    assert_eq!(w.finished[1], 1);
    assert_eq!(w.finished[2], 1);
    assert_eq!(w.finished[3], 1);
    assert_eq!(w.entered[1], 4);
    assert_eq!(w.entered[2], 1);
    assert_eq!(w.entered[3], 3);
    // the slot nothing was spawned into was never touched
    assert_eq!(w.entered[4], 0);
    assert_eq!(w.finished[4], 0);
    assert!(w.rt.threads[4].state == State::Available);
}

#[test]
fn spawning_beyond_capacity_fails_without_corruption() {
    let mut w = Workload::new(2);
    assert_eq!(w.spawn_task(1), Ok(1));
    assert_eq!(w.spawn_task(2), Ok(2));
    assert_eq!(w.spawn_task(3), Err(CapacityError));
    // the failed spawn corrupted nothing: the two tasks still run in full
    w.run();
    assert_eq!(w.finished[1], 1);
    assert_eq!(w.finished[2], 1);
    assert_eq!(w.done[1], 1);
    assert_eq!(w.done[2], 2);
}

#[test]
fn retired_slot_can_be_spawned_into_again() {
    let mut w = Workload::new(1);
    assert_eq!(w.spawn_task(1), Ok(1));
    w.run();
    assert_eq!(w.finished[1], 1);
    // the slot went back to Available; a new task reuses it afresh
    assert_eq!(w.spawn_task(2), Ok(1));
    assert_eq!(w.finished[1], 0);
    w.run();
    assert_eq!(w.finished[1], 1);
    assert_eq!(w.done[1], 2);
    assert_eq!(w.entered[1], 3);
}

#[test]
fn run_with_nothing_spawned_returns_at_once() {
    let mut w = Workload::new(3);
    w.run();
    assert_eq!(w.trace.len(), 0);
    assert_eq!(w.rt.current, 0);
    assert!(w.rt.threads[0].state == State::Running);
}
