use task_core::kernel::{add_initproc, suspend_current_and_run_next, Kernel, SchedulePolicy};
use task_core::manager::{add_task, fetch_task, fetch_task_with_min_stride};

#[test]
fn fifo_dispatch_matches_insertion_order() {
    let mut k = Kernel::new();
    add_initproc(&mut k);
    let a = k.spawn_task(0, 8);
    let b = k.spawn_task(0, 8);
    let c = k.spawn_task(0, 8);
    assert_eq!(fetch_task(&mut k), Some(0));
    assert_eq!(fetch_task(&mut k), Some(a));
    assert_eq!(fetch_task(&mut k), Some(b));
    assert_eq!(fetch_task(&mut k), Some(c));
    assert_eq!(fetch_task(&mut k), None);
}

#[test]
fn fifo_reenqueue_goes_to_the_back() {
    let mut k = Kernel::new();
    add_initproc(&mut k);
    let a = k.spawn_task(0, 8);
    let first = fetch_task(&mut k).unwrap();
    assert_eq!(first, 0);
    add_task(&mut k, first);
    assert_eq!(fetch_task(&mut k), Some(a));
    assert_eq!(fetch_task(&mut k), Some(0));
}

#[test]
fn stride_dispatch_returns_global_minimum() {
    let mut k = Kernel::new();
    // init is left unqueued so only the two workers cycle
    let a = k.spawn_task(0, 10);
    let b = k.spawn_task(0, 5);
    // both start at stride 0; the earliest-queued one wins the tie
    let first = k.run_next_task(SchedulePolicy::Stride).unwrap();
    assert_eq!(first, a);
    assert_eq!(k.tasks[a].stride, 10);
    suspend_current_and_run_next(&mut k);
    // now a carries stride 10, b still 0: b is the unique minimum
    let second = k.run_next_task(SchedulePolicy::Stride).unwrap();
    assert_eq!(second, b);
    assert_eq!(k.tasks[b].stride, 5);
    suspend_current_and_run_next(&mut k);
    // b (5) is still below a (10)
    assert_eq!(k.run_next_task(SchedulePolicy::Stride), Some(b));
    suspend_current_and_run_next(&mut k);
    // tie at 10: a sits earlier in the queue than b
    assert_eq!(k.run_next_task(SchedulePolicy::Stride), Some(a));
    suspend_current_and_run_next(&mut k);
}

#[test]
fn stride_never_decreases_over_many_rounds() {
    let mut k = Kernel::new();
    let a = k.spawn_task(0, 10);
    let b = k.spawn_task(0, 5);
    let mut last_a = 0u64;
    let mut last_b = 0u64;
    for _ in 0..50 {
        let t = k.run_next_task(SchedulePolicy::Stride).unwrap();
        assert!(k.tasks[a].stride >= last_a);
        assert!(k.tasks[b].stride >= last_b);
        last_a = k.tasks[a].stride;
        last_b = k.tasks[b].stride;
        let _ = t;
        suspend_current_and_run_next(&mut k);
    }
}

#[test]
fn stride_shares_cpu_inversely_to_pass() {
    let mut k = Kernel::new();
    let a = k.spawn_task(0, 10);
    let b = k.spawn_task(0, 5);
    let mut count_a = 0usize;
    let mut count_b = 0usize;
    for _ in 0..60 {
        let t = k.run_next_task(SchedulePolicy::Stride).unwrap();
        if t == a {
            count_a += 1;
        } else if t == b {
            count_b += 1;
        }
        suspend_current_and_run_next(&mut k);
    }
    // b's pass is half of a's, so b runs roughly twice as often
    assert!(count_a + count_b == 60);
    assert!(count_b >= 2 * count_a - 2);
    assert!(count_b <= 2 * count_a + 2);
}

#[test]
fn stride_min_fetch_removes_only_the_chosen_task() {
    let mut k = Kernel::new();
    add_initproc(&mut k);
    let a = k.spawn_task(0, 8);
    let b = k.spawn_task(0, 8);
    // all strides equal: earliest position (init) wins
    assert_eq!(fetch_task_with_min_stride(&mut k), Some(0));
    assert_eq!(k.manager.ready_queue, vec![a, b]);
}

#[test]
fn dispatch_on_empty_queue_returns_nothing() {
    let mut k = Kernel::new();
    assert_eq!(k.run_next_task(SchedulePolicy::Fifo), None);
    assert_eq!(k.run_next_task(SchedulePolicy::Stride), None);
}

#[test]
fn dispatched_task_is_running_and_current() {
    let mut k = Kernel::new();
    add_initproc(&mut k);
    let t = k.run_next_task(SchedulePolicy::Fifo).unwrap();
    assert_eq!(t, 0);
    assert_eq!(k.current_task(), Some(0));
    assert_eq!(k.tasks[0].status, task_core::task::TaskStatus::Running);
    let taken = k.take_current_task();
    assert_eq!(taken, Some(0));
    assert_eq!(k.current_task(), None);
}
