use kangaroos::kernel::tcb::TaskState;
use kangaroos::{Kernel, Tcb};

/// A kernel whose list of all tasks is `tasks`, front first. The task at list
/// position `p` is `tasks.len() - 1 - p` in the table.
fn kernel(tasks: &[Tcb], current: usize) -> Kernel {
    let n = tasks.len();
    let mut k = Kernel::new();
    for i in 0..n {
        let mut t = tasks[n - 1 - i];
        t.all_next = if i == 0 { None } else { Some(i - 1) };
        k.tasks.push(t);
    }
    k.all_tasks = Some(n - 1);
    k.current = Some(n - 1 - current);
    k
}

fn task(state: TaskState, priority: u8, time_slice: u8) -> Tcb {
    let mut t = Tcb::zeroed();
    t.state = state;
    t.priority = priority;
    t.base_priority = priority;
    t.time_slice = time_slice;
    t
}

fn ready(priority: u8) -> Tcb {
    task(TaskState::Ready { slice_remaining: 0 }, priority, 0)
}

fn position(k: &Kernel, id: usize) -> usize {
    k.tasks.len() - 1 - id
}

#[test]
fn find_next_picks_highest_priority_ready() {
    let k = kernel(
        &[
            task(TaskState::Running { slice_remaining: 0 }, 5, 0),
            ready(3),
            task(TaskState::Blocked, 1, 0),
        ],
        0,
    );
    assert_eq!(position(&k, k.find_next()), 1);
}

#[test]
fn find_next_round_robin_equal_priority() {
    let k = kernel(
        &[task(TaskState::Running { slice_remaining: 0 }, 5, 0), ready(5), ready(5)],
        0,
    );
    assert_eq!(position(&k, k.find_next()), 1);
}

#[test]
fn find_next_skips_non_ready() {
    let k = kernel(
        &[
            task(TaskState::Running { slice_remaining: 0 }, 5, 0),
            task(TaskState::Blocked, 0, 0),
            ready(5),
        ],
        0,
    );
    assert_eq!(position(&k, k.find_next()), 2);
}

#[test]
fn find_next_wraps_around_behind_the_last_task() {
    let k = kernel(
        &[ready(5), ready(5), task(TaskState::Running { slice_remaining: 0 }, 5, 0)],
        2,
    );
    assert_eq!(position(&k, k.find_next()), 0);
}

#[test]
fn find_next_keeps_the_only_runnable_task() {
    let k = kernel(
        &[
            task(TaskState::Sleeping(9), 0, 0),
            task(TaskState::Running { slice_remaining: 2 }, 200, 0),
            task(TaskState::Dead, 0, 0),
            task(TaskState::Uninit, 0, 0),
        ],
        1,
    );
    assert_eq!(position(&k, k.find_next()), 1);
}

#[test]
fn find_next_runs_the_idle_task_when_nothing_else_can() {
    let k = kernel(&[ready(255), task(TaskState::Blocked, 1, 0)], 1);
    assert_eq!(position(&k, k.find_next()), 0);
}

#[test]
fn tick_wakes_sleeping_task_and_requests_preempt() {
    let mut k = kernel(
        &[
            task(TaskState::Running { slice_remaining: 10 }, 5, 10),
            task(TaskState::Sleeping(5), 3, 0),
        ],
        0,
    );
    k.tick = 4;
    assert!(k.tick(), "expected preemption when a higher-prio task is woken");
    assert!(matches!(k.tasks[0].state, TaskState::Ready { .. }));
    assert_eq!(k.tasks[1].state, TaskState::Running { slice_remaining: 10 });
}

#[test]
fn tick_does_not_preempt_when_lower_prio_sleeper_wakes() {
    let mut k = kernel(
        &[
            task(TaskState::Running { slice_remaining: 10 }, 2, 10),
            task(TaskState::Sleeping(5), 5, 0),
        ],
        0,
    );
    k.tick = 4;
    assert!(!k.tick(), "lower-prio wakeup must not trigger preemption");
    assert!(matches!(k.tasks[0].state, TaskState::Ready { .. }));
    assert_eq!(k.tasks[1].state, TaskState::Running { slice_remaining: 9 });
}

#[test]
fn tick_slice_expiry_rotates_equal_prio() {
    let mut k = kernel(
        &[task(TaskState::Running { slice_remaining: 1 }, 5, 1), ready(5)],
        0,
    );
    k.tick = 0;
    assert!(k.tick());
}

#[test]
fn tick_increments_global_counter() {
    let mut k = kernel(&[task(TaskState::Running { slice_remaining: 100 }, 5, 100)], 0);
    k.tick = 999;
    k.tick();
    assert_eq!(k.tick, 1000);
}

#[test]
fn tick_leaves_a_sleeper_alone_before_its_deadline() {
    let mut k = kernel(
        &[
            task(TaskState::Running { slice_remaining: 3 }, 5, 3),
            task(TaskState::Sleeping(6), 1, 4),
        ],
        0,
    );
    k.tick = 4;
    assert!(!k.tick());
    assert_eq!(k.tasks[0].state, TaskState::Sleeping(6));
    assert!(k.tick());
    assert_eq!(k.tasks[0].state, TaskState::Ready { slice_remaining: 4 });
}

#[test]
fn tick_reloads_an_expired_slice_without_a_peer() {
    let mut k = kernel(
        &[task(TaskState::Running { slice_remaining: 1 }, 5, 7), ready(6)],
        0,
    );
    assert!(!k.tick());
    assert_eq!(k.tasks[1].state, TaskState::Running { slice_remaining: 7 });
}

#[test]
fn tick_only_counts_while_no_task_runs() {
    let mut k = Kernel::new();
    assert!(!k.tick());
    assert_eq!(k.tick, 1);
    let mut k = kernel(&[task(TaskState::Blocked, 5, 7), task(TaskState::Sleeping(1), 1, 1)], 0);
    assert!(!k.tick());
    assert_eq!(k.tick, 1);
    assert_eq!(k.tasks[0].state, TaskState::Sleeping(1));
}

#[test]
fn tick_counter_wraps() {
    let mut k = Kernel::new();
    k.tick = u64::MAX;
    k.tick();
    assert_eq!(k.tick, 0);
}

#[test]
fn first_launch_takes_the_highest_priority() {
    let mut k = kernel(&[ready(255), ready(4), ready(2), ready(2)], 0);
    k.current = None;
    for i in 0..4 {
        k.tasks[i].sp = 100 + i;
        k.tasks[i].state = TaskState::Ready { slice_remaining: 6 };
    }
    // The two tasks of priority 2 stand at list positions 2 and 3.
    assert_eq!(k.svc_first_task_sp(), 101);
    assert_eq!(k.current, Some(1));
    assert_eq!(k.tasks[1].state, TaskState::Running { slice_remaining: 6 });
}

#[test]
fn first_launch_takes_a_lone_idle_task() {
    let mut k = kernel(&[ready(255)], 0);
    k.current = None;
    k.tasks[0].sp = 7;
    assert_eq!(k.svc_first_task_sp(), 7);
    assert_eq!(k.current, Some(0));
}

#[test]
fn switch_saves_the_old_and_starts_the_new_task() {
    let mut k = kernel(
        &[task(TaskState::Running { slice_remaining: 4 }, 5, 9), ready(3)],
        0,
    );
    k.tasks[0].sp = 77;
    k.pendsv = true;
    assert_eq!(k.pendsv_save_and_switch(55), 77);
    assert_eq!(k.current, Some(0));
    assert!(!k.pendsv);
    assert_eq!(k.tasks[1].sp, 55);
    // The rest of the slice is kept for the next turn.
    assert_eq!(k.tasks[1].state, TaskState::Ready { slice_remaining: 4 });
    assert!(matches!(k.tasks[0].state, TaskState::Running { .. }));
}

#[test]
fn switch_leaves_a_blocked_task_blocked() {
    let mut k = kernel(&[task(TaskState::Blocked, 1, 9), ready(255)], 0);
    k.pendsv_save_and_switch(12);
    assert_eq!(k.current, Some(0));
    assert_eq!(k.tasks[1].state, TaskState::Blocked);
    assert_eq!(k.tasks[1].sp, 12);
}

#[test]
fn switches_rotate_among_peers() {
    let mut k = kernel(
        &[task(TaskState::Running { slice_remaining: 1 }, 5, 1), ready(5), ready(5)],
        0,
    );
    let mut seen = vec![];
    for _ in 0..4 {
        k.pendsv_save_and_switch(0);
        seen.push(position(&k, k.current.unwrap()));
    }
    assert_eq!(seen, vec![1, 2, 0, 1]);
}

#[test]
fn a_slice_lasts_its_number_of_ticks() {
    let mut k = kernel(
        &[task(TaskState::Running { slice_remaining: 4 }, 5, 4), ready(5)],
        0,
    );
    for left in [3, 2, 1] {
        assert!(!k.tick());
        assert_eq!(k.tasks[1].state, TaskState::Running { slice_remaining: left });
    }
    assert!(k.tick());
}

#[test]
fn a_tick_notices_a_ready_task_of_higher_priority() {
    let mut k = kernel(
        &[task(TaskState::Running { slice_remaining: 4 }, 5, 4), ready(4)],
        0,
    );
    assert!(k.tick());
    k.pendsv_save_and_switch(0);
    assert_eq!(position(&k, k.current.unwrap()), 1);
    assert!(!k.tick());
}
