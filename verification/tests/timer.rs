use kangaroos::arch::host::HostContext;
use kangaroos::kernel::tcb::TaskState;
use kangaroos::task;
use kangaroos::timer::{Duration, Instant, Timer, TICKS_PER_SEC};
use kangaroos::{Kernel, SpawnToken, Spawner, Tcb};

/// A kernel at tick `tick`.
fn at(tick: u64) -> Kernel {
    let mut k = Kernel::new();
    k.tick = tick;
    k
}

/// A kernel with one running task.
fn running() -> Kernel {
    let mut k = Kernel::new();
    let mut stack = [0u32; 32];
    let token = SpawnToken::new(Tcb::zeroed(), 0x1000, 32, 4, 5, 0x200, "task");
    Spawner.spawn::<HostContext>(&mut k, token, &mut stack, 0);
    k.svc_first_task_sp();
    k
}

#[test]
fn duration_zero() {
    assert_eq!(Duration::zero().as_ticks(), 0);
}

#[test]
fn duration_from_ticks_round_trip() {
    assert_eq!(Duration::from_ticks(42).as_ticks(), 42);
}

#[test]
fn duration_from_millis() {
    assert_eq!(Duration::from_millis(1).as_ticks(), 1);
    assert_eq!(Duration::from_millis(1000).as_ticks(), TICKS_PER_SEC);
}

#[test]
fn duration_from_secs() {
    assert_eq!(Duration::from_secs(1).as_ticks(), TICKS_PER_SEC);
    assert_eq!(Duration::from_secs(5).as_ticks(), 5 * TICKS_PER_SEC);
}

#[test]
fn duration_as_millis() {
    assert_eq!(Duration::from_ticks(500).as_millis(), 500);
    assert_eq!(Duration::from_ticks(TICKS_PER_SEC).as_millis(), 1000);
}

#[test]
fn duration_as_secs() {
    assert_eq!(Duration::from_secs(3).as_secs(), 3);
    assert_eq!(Duration::from_ticks(TICKS_PER_SEC - 1).as_secs(), 0);
}

#[test]
fn duration_add() {
    let a = Duration::from_ticks(10);
    let b = Duration::from_ticks(5);
    assert_eq!((a + b).as_ticks(), 15);
}

#[test]
fn duration_sub_normal() {
    assert_eq!((Duration::from_ticks(10) - Duration::from_ticks(3)).as_ticks(), 7);
}

#[test]
fn duration_sub_saturates_at_zero() {
    assert_eq!((Duration::from_ticks(3) - Duration::from_ticks(10)).as_ticks(), 0);
}

#[test]
fn duration_add_assign() {
    let mut d = Duration::from_ticks(10);
    d += Duration::from_ticks(5);
    assert_eq!(d.as_ticks(), 15);
}

#[test]
fn duration_ordering() {
    assert!(Duration::from_ticks(5) < Duration::from_ticks(10));
    assert!(Duration::from_ticks(10) > Duration::from_ticks(5));
    assert_eq!(Duration::from_ticks(7), Duration::from_ticks(7));
}

#[test]
fn instant_checked_duration_since() {
    let t1 = Instant::now(&at(200));
    let t2 = Instant::now(&at(350));
    assert_eq!(t2.checked_duration_since(t1).unwrap().as_ticks(), 150);
    assert!(t1.checked_duration_since(t2).is_none());
}

#[test]
fn instant_saturating_duration_since() {
    let t1 = Instant::now(&at(500));
    let t2 = Instant::now(&at(600));
    assert_eq!(t2.saturating_duration_since(t1).as_ticks(), 100);
    assert_eq!(t1.saturating_duration_since(t2).as_ticks(), 0);
}

#[test]
fn instant_same_tick_elapsed_zero() {
    let k = at(999);
    let t = Instant::now(&k);
    assert_eq!(Instant::now(&k).saturating_duration_since(t).as_ticks(), 0);
    assert_eq!(t.elapsed(&k), Duration::zero());
}

#[test]
fn instant_ordering() {
    let early = Instant::now(&at(10));
    let late = Instant::now(&at(20));
    assert!(early < late);
}

#[test]
fn instant_difference() {
    let start = Instant::now(&at(40));
    assert_eq!(Instant::now(&at(52)) - start, Duration::from_ticks(12));
    assert_eq!(start - Instant::now(&at(52)), Duration::zero());
    assert_eq!(start.elapsed(&at(100)), Duration::from_ticks(60));
    assert_eq!(start.elapsed(&at(3)), Duration::zero());
}

#[test]
fn sleep_sets_the_deadline() {
    let mut k = running();
    k.tick = 100;
    task::sleep(&mut k, Duration::from_millis(25));
    assert_eq!(k.tasks[0].state, TaskState::Sleeping(125));
    assert!(k.pendsv);
}

#[test]
fn sleep_wraps_with_the_counter() {
    let mut k = running();
    k.tick = u64::MAX;
    task::sleep(&mut k, Duration::from_ticks(3));
    assert_eq!(k.tasks[0].state, TaskState::Sleeping(2));
}

#[test]
fn periodic_timer_does_not_drift() {
    let mut k = running();
    k.tick = 7;
    let mut t = Timer::every(&k, Duration::from_ticks(10));
    for n in 1..5 {
        assert!(!t.wait(&mut k));
        assert_eq!(k.tasks[0].state, TaskState::Sleeping(7 + 10 * n));
        // The task resumes late.
        k.tick = 7 + 10 * n + 3;
        k.tasks[0].state = TaskState::Running { slice_remaining: 1 };
    }
    assert_eq!(t.next, 57);
}

#[test]
fn one_shot_timer_fires_once() {
    let mut k = running();
    k.tick = 5;
    let mut t = Timer::after(&k, Duration::from_ticks(10));
    assert!(!t.wait(&mut k));
    assert_eq!(k.tasks[0].state, TaskState::Sleeping(15));
    k.tick = 15;
    k.pendsv = false;
    k.tasks[0].state = TaskState::Running { slice_remaining: 1 };
    assert!(t.wait(&mut k));
    assert_eq!(k.tasks[0].state, TaskState::Running { slice_remaining: 1 });
    assert!(!k.pendsv);
    assert_eq!(t.next, 15);
}

#[test]
fn conversions_round_trip() {
    for n in [0, 1, 7, 999, 1000, 123_456] {
        assert_eq!(Duration::from_millis(n).as_millis(), n);
        assert_eq!(Duration::from_secs(n).as_secs(), n);
    }
    let largest = u64::MAX / 1000;
    assert_eq!(Duration::from_secs(largest).as_ticks(), largest * 1000);
}

#[test]
fn subtraction_undoes_addition() {
    let (a, b) = (Duration::from_ticks(12), Duration::from_ticks(30));
    assert_eq!((a + b) - b, a);
}

#[test]
fn sleeper_wakes_at_its_deadline() {
    let mut k = running();
    let mut stack = [0u32; 32];
    let token = SpawnToken::new(Tcb::zeroed(), 0x2000, 32, 9, 5, 0x200, "other");
    Spawner.spawn::<HostContext>(&mut k, token, &mut stack, 0);
    task::sleep(&mut k, Duration::from_ticks(3));
    k.pendsv_save_and_switch(0);
    assert_eq!(k.current, Some(1));
    assert!(!k.tick());
    assert!(!k.tick());
    assert_eq!(k.tasks[0].state, TaskState::Sleeping(3));
    assert!(k.tick());
    assert_eq!(k.tasks[0].state, TaskState::Ready { slice_remaining: 5 });
}

#[test]
fn first_wait_sleeps_even_at_the_deadline() {
    let mut k = running();
    k.tick = 5;
    let mut t = Timer::after(&k, Duration::zero());
    assert!(!t.wait(&mut k));
    assert_eq!(k.tasks[0].state, TaskState::Sleeping(5));
    assert!(k.pendsv);
    k.tick = 6;
    k.pendsv = false;
    k.tasks[0].state = TaskState::Running { slice_remaining: 1 };
    assert!(t.wait(&mut k));
    assert!(!k.pendsv);
}

#[test]
fn periodic_timer_wraps_with_the_counter() {
    let mut k = running();
    k.tick = u64::MAX - 4;
    let mut t = Timer::every(&k, Duration::from_ticks(10));
    assert_eq!(t.next, 5);
    assert!(!t.wait(&mut k));
    assert_eq!(t.next, 15);
}
