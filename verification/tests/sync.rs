use kangaroos::arch::host::HostContext;
use kangaroos::kernel::tcb::TaskState;
use kangaroos::sync::{Condvar, EventGroup, Mutex, Once, Semaphore};
use kangaroos::{Kernel, SpawnToken, Spawner, Tcb};

/// A kernel with one task for each priority, the first of which runs.
fn kernel(priorities: &[u8]) -> Kernel {
    let mut k = Kernel::new();
    for p in priorities {
        let mut stack = [0u32; 32];
        let token = SpawnToken::new(Tcb::zeroed(), 0x1000, 32, *p, 5, 0x200, "task");
        Spawner.spawn::<HostContext>(&mut k, token, &mut stack, 0);
    }
    run(&mut k, 0);
    k
}

/// Put the task `id` on the CPU.
fn run(k: &mut Kernel, id: usize) {
    if let Some(c) = k.current {
        if let TaskState::Running { slice_remaining } = k.tasks[c].state {
            k.tasks[c].state = TaskState::Ready { slice_remaining };
        }
    }
    k.current = Some(id);
    k.tasks[id].state = TaskState::Running { slice_remaining: 5 };
    k.pendsv = false;
}

fn is_ready(k: &Kernel, id: usize) -> bool {
    matches!(k.tasks[id].state, TaskState::Ready { .. })
}

#[test]
fn event_group_initial_zero() {
    let eg = EventGroup::new();
    assert_eq!(eg.get(), 0);
}

#[test]
fn event_group_set_accumulates_bits() {
    let mut k = Kernel::new();
    let mut eg = EventGroup::new();
    let bits = eg.set(&mut k, 0b0001);
    assert_eq!(bits, 0b0001);
    let bits = eg.set(&mut k, 0b0010);
    assert_eq!(bits, 0b0011);
    assert_eq!(eg.get(), 0b0011);
}

#[test]
fn event_group_clear_masks_bits() {
    let mut k = Kernel::new();
    let mut eg = EventGroup::new();
    eg.set(&mut k, 0b1111);
    eg.clear(0b0101);
    assert_eq!(eg.get(), 0b1010);
}

#[test]
fn event_group_set_returns_post_clear_state() {
    let mut k = Kernel::new();
    let mut eg = EventGroup::new();
    eg.set(&mut k, 0xFF);
    let after = eg.set(&mut k, 0x00);
    assert_eq!(after, 0xFF);
}

#[test]
fn event_group_clear_all() {
    let mut k = Kernel::new();
    let mut eg = EventGroup::new();
    eg.set(&mut k, 0xFFFF_FFFF);
    eg.clear(0xFFFF_FFFF);
    assert_eq!(eg.get(), 0);
}

#[test]
fn event_group_independent_bits() {
    let mut k = Kernel::new();
    let mut eg = EventGroup::new();
    eg.set(&mut k, 1 << 0);
    eg.set(&mut k, 1 << 15);
    eg.set(&mut k, 1 << 31);
    assert_eq!(eg.get(), (1 << 0) | (1 << 15) | (1 << 31));
    eg.clear(1 << 15);
    assert_eq!(eg.get(), (1 << 0) | (1 << 31));
}

#[test]
fn event_group_names() {
    assert_eq!(EventGroup::default().name, None);
    assert_eq!(EventGroup::new_named("FLAGS").name, Some("FLAGS"));
}

#[test]
fn event_group_wait_any_takes_what_is_set() {
    let mut k = kernel(&[5]);
    let mut eg = EventGroup::new();
    eg.set(&mut k, 0b1101);
    assert_eq!(eg.wait_any(&mut k, 0b0111), Some(0b0101));
    assert_eq!(eg.get(), 0b1000);
    assert_eq!(EventGroup::woken_bits(&k), 0b0101);
    assert!(!k.pendsv);
}

#[test]
fn event_group_wait_all_takes_the_whole_mask() {
    let mut k = kernel(&[5]);
    let mut eg = EventGroup::new();
    eg.set(&mut k, 0b1101);
    assert!(eg.wait_all(&mut k, 0b0101));
    assert_eq!(eg.get(), 0b1000);
    assert!(!eg.wait_all(&mut k, 0b1001));
    assert_eq!(k.tasks[0].state, TaskState::Blocked);
    assert!(k.pendsv);
}

#[test]
fn event_group_set_wakes_and_consumes() {
    let mut k = kernel(&[5, 4, 3, 2]);
    let mut eg = EventGroup::new();
    run(&mut k, 1);
    assert_eq!(eg.wait_any(&mut k, 0b0011), None);
    run(&mut k, 2);
    assert_eq!(eg.wait_any(&mut k, 0b0110), None);
    run(&mut k, 3);
    assert!(!eg.wait_all(&mut k, 0b1001));
    run(&mut k, 0);
    // Task 2 blocked last and is looked at first: it takes bit 1. Task 1 takes
    // bit 0, so the task that waits for bits 0 and 3 goes on waiting.
    assert_eq!(eg.set(&mut k, 0b1011), 0b1000);
    assert!(is_ready(&k, 1) && is_ready(&k, 2));
    assert_eq!(k.tasks[3].state, TaskState::Blocked);
    assert!(k.pendsv);
    run(&mut k, 2);
    assert_eq!(EventGroup::woken_bits(&k), 0b0010);
    run(&mut k, 1);
    assert_eq!(EventGroup::woken_bits(&k), 0b0001);
    run(&mut k, 0);
    assert_eq!(eg.set(&mut k, 0b0001), 0);
    assert!(is_ready(&k, 3));
}

#[test]
fn event_group_set_from_isr_leaves_the_switch_to_the_caller() {
    let mut k = kernel(&[5, 4, 9]);
    let mut eg = EventGroup::new();
    run(&mut k, 1);
    eg.wait_any(&mut k, 0b01);
    run(&mut k, 2);
    eg.wait_any(&mut k, 0b10);
    run(&mut k, 0);
    assert!(!eg.set_from_isr(&mut k, 0b10));
    assert!(is_ready(&k, 2));
    assert!(eg.set_from_isr(&mut k, 0b01));
    assert!(is_ready(&k, 1));
    assert!(!k.pendsv);
}

#[test]
fn semaphore_initial_count() {
    let sem = Semaphore::new(3, 5);
    assert_eq!(sem.count(), 3);
}

#[test]
fn semaphore_try_take_decrements() {
    let mut sem = Semaphore::new(3, 5);
    assert!(sem.try_take());
    assert_eq!(sem.count(), 2);
    assert!(sem.try_take());
    assert!(sem.try_take());
    assert_eq!(sem.count(), 0);
    assert!(!sem.try_take());
    assert_eq!(sem.count(), 0);
}

#[test]
fn semaphore_give_increments() {
    let mut k = Kernel::new();
    let mut sem = Semaphore::new(0, 3);
    sem.give(&mut k);
    assert_eq!(sem.count(), 1);
    sem.give(&mut k);
    assert_eq!(sem.count(), 2);
    sem.give(&mut k);
    assert_eq!(sem.count(), 3);
    sem.give(&mut k);
    assert_eq!(sem.count(), 3);
}

#[test]
fn semaphore_binary() {
    let mut k = Kernel::new();
    let mut sem = Semaphore::new(0, 1);
    assert!(!sem.try_take());
    sem.give(&mut k);
    assert_eq!(sem.count(), 1);
    assert!(sem.try_take());
    assert_eq!(sem.count(), 0);
    assert!(!sem.try_take());
}

#[test]
fn semaphore_give_then_take_roundtrip() {
    let mut k = Kernel::new();
    let mut sem = Semaphore::new(2, 4);
    assert!(sem.try_take());
    assert!(sem.try_take());
    sem.give(&mut k);
    assert_eq!(sem.count(), 1);
    assert!(sem.try_take());
    assert!(!sem.try_take());
}

#[test]
fn semaphore_hands_tokens_to_the_highest_priority() {
    let mut k = kernel(&[5, 7, 3, 3]);
    let mut sem = Semaphore::new_named(1, 2, "SEM");
    assert_eq!(sem.name, Some("SEM"));
    assert!(sem.take(&mut k));
    for id in [1, 2, 3] {
        run(&mut k, id);
        assert!(!sem.take(&mut k));
        assert_eq!(k.tasks[id].state, TaskState::Blocked);
        assert!(k.pendsv);
    }
    run(&mut k, 0);
    // Among equals the latest to block is served first.
    sem.give(&mut k);
    assert!(is_ready(&k, 3));
    assert!(k.pendsv);
    run(&mut k, 0);
    sem.give_from_isr(&mut k);
    assert!(is_ready(&k, 2));
    assert!(k.pendsv);
    run(&mut k, 0);
    sem.give(&mut k);
    assert!(is_ready(&k, 1));
    assert!(!k.pendsv);
    assert_eq!(sem.count(), 0);
    assert_eq!(k.tasks[1].state, TaskState::Ready { slice_remaining: 5 });
}

#[test]
fn mutex_lock_and_release() {
    let mut k = kernel(&[5]);
    let mut m = Mutex::new_named(10u32, "COUNTER");
    assert_eq!(m.name, Some("COUNTER"));
    let mut g = m.lock(&mut k).unwrap();
    *g.deref_mut(&mut m) += 1;
    assert_eq!(*g.deref(&m), 11);
    assert!(m.try_lock(&k).is_none());
    g.drop(&mut m, &mut k);
    let g = m.try_lock(&k).unwrap();
    assert_eq!(*g.deref(&m), 11);
}

#[test]
fn mutex_inherits_and_restores_priority() {
    let mut k = kernel(&[9, 4, 6]);
    let mut m = Mutex::new(());
    let g = m.lock(&mut k).unwrap();
    run(&mut k, 2);
    assert!(m.lock(&mut k).is_none());
    assert_eq!(k.tasks[0].priority, 6);
    run(&mut k, 1);
    assert!(m.lock(&mut k).is_none());
    assert_eq!(k.tasks[0].priority, 4);
    assert_eq!(k.tasks[0].base_priority, 9);
    run(&mut k, 0);
    g.drop(&mut m, &mut k);
    assert_eq!(k.tasks[0].priority, 9);
    // The lock has passed to the highest-priority waiter.
    assert_eq!(m.owner, Some(1));
    assert!(is_ready(&k, 1));
    assert!(k.pendsv);
    run(&mut k, 1);
    let g = m.resume(&k);
    g.drop(&mut m, &mut k);
    assert_eq!(m.owner, Some(2));
    assert!(!k.pendsv);
    run(&mut k, 2);
    let g = m.resume(&k);
    g.drop(&mut m, &mut k);
    assert_eq!(m.owner, None);
}

#[test]
fn mutex_waiter_of_lower_priority_boosts_nobody() {
    let mut k = kernel(&[3, 8]);
    let mut m = Mutex::new(0u8);
    let _g = m.lock(&mut k).unwrap();
    run(&mut k, 1);
    assert!(m.lock(&mut k).is_none());
    assert_eq!(k.tasks[0].priority, 3);
}

#[test]
fn condvar_releases_the_lock_while_waiting() {
    let mut k = kernel(&[5, 2]);
    let mut m = Mutex::new(0u32);
    let mut cv = Condvar::new_named("CV");
    assert_eq!(cv.name, Some("CV"));
    let g = m.lock(&mut k).unwrap();
    cv.wait(&mut k, &mut m, g);
    assert_eq!(m.owner, None);
    assert_eq!(k.tasks[0].state, TaskState::Blocked);
    assert!(k.pendsv);
    run(&mut k, 1);
    let mut g = m.lock(&mut k).unwrap();
    *g.deref_mut(&mut m) = 42;
    g.drop(&mut m, &mut k);
    cv.notify_one(&mut k);
    assert!(is_ready(&k, 0));
    assert!(!k.pendsv);
    run(&mut k, 0);
    let g = m.lock(&mut k).unwrap();
    assert_eq!(*g.deref(&m), 42);
}

#[test]
fn condvar_wait_hands_the_lock_on() {
    let mut k = kernel(&[9, 4]);
    let mut m = Mutex::new(0u32);
    let mut cv = Condvar::new();
    let g = m.lock(&mut k).unwrap();
    run(&mut k, 1);
    assert!(m.lock(&mut k).is_none());
    assert_eq!(k.tasks[0].priority, 4);
    run(&mut k, 0);
    cv.wait(&mut k, &mut m, g);
    assert_eq!(k.tasks[0].priority, 9);
    assert_eq!(m.owner, Some(1));
    assert!(is_ready(&k, 1));
}

#[test]
fn condvar_wait_until_checks_the_value() {
    let mut k = kernel(&[5]);
    let mut m = Mutex::new(false);
    let mut cv = Condvar::new();
    let mut g = m.lock(&mut k).unwrap();
    *g.deref_mut(&mut m) = true;
    let g = cv.wait_until(&mut k, &mut m, g, |v| *v).unwrap();
    assert!(!k.pendsv);
    assert!(cv.wait_until(&mut k, &mut m, g, |v| !*v).is_none());
    assert_eq!(k.tasks[0].state, TaskState::Blocked);
    assert_eq!(m.owner, None);
}

#[test]
fn condvar_notify_all_wakes_everybody() {
    let mut k = kernel(&[5, 7, 8, 3]);
    let mut m = Mutex::new(0u32);
    let mut cv = Condvar::new();
    for id in [1, 2] {
        run(&mut k, id);
        let g = m.lock(&mut k).unwrap();
        cv.wait(&mut k, &mut m, g);
    }
    run(&mut k, 0);
    cv.notify_all(&mut k);
    assert!(is_ready(&k, 1) && is_ready(&k, 2));
    assert!(!k.pendsv);
    run(&mut k, 3);
    let g = m.lock(&mut k).unwrap();
    cv.wait(&mut k, &mut m, g);
    run(&mut k, 0);
    cv.notify_all(&mut k);
    assert!(is_ready(&k, 3));
    assert!(k.pendsv);
    cv.notify_one(&mut k);
    cv.notify_all(&mut k);
}

#[test]
fn once_runs_the_first_closure_only() {
    let mut k = kernel(&[5]);
    let mut once = Once::new_named("INIT");
    assert_eq!(once.name, Some("INIT"));
    assert!(!once.is_completed());
    let mut calls = 0;
    assert!(once.call_once(&mut k, || calls += 1));
    assert!(once.is_completed());
    assert!(once.call_once(&mut k, || calls += 1));
    assert_eq!(calls, 1);
}

#[test]
fn once_blocks_callers_until_the_initialiser_is_done() {
    let mut k = kernel(&[5, 4, 6]);
    let mut once = Once::new();
    assert_eq!(once.enter(&mut k), kangaroos::sync::once::OnceEntry::Initialise);
    for id in [1, 2] {
        run(&mut k, id);
        let mut called = false;
        assert!(!once.call_once(&mut k, || called = true));
        assert!(!called);
        assert_eq!(k.tasks[id].state, TaskState::Blocked);
        assert!(k.pendsv);
    }
    run(&mut k, 0);
    assert!(!once.is_completed());
    once.complete(&mut k);
    assert!(once.is_completed());
    assert!(is_ready(&k, 1) && is_ready(&k, 2));
    assert!(k.pendsv);
    assert_eq!(once.enter(&mut k), kangaroos::sync::once::OnceEntry::Completed);
}

#[test]
fn primitives_do_not_disturb_each_other() {
    let mut k = kernel(&[5, 7, 3, 4, 6]);
    let mut a = Semaphore::new(0, 1);
    let mut b = Semaphore::new(0, 1);
    let mut eg = EventGroup::new();
    for (id, first) in [(1, true), (2, false), (3, true)] {
        run(&mut k, id);
        if first {
            a.take(&mut k);
        } else {
            b.take(&mut k);
        }
    }
    run(&mut k, 4);
    eg.wait_all(&mut k, 0b11);
    run(&mut k, 0);
    eg.set(&mut k, 0b01);
    a.give(&mut k);
    assert!(is_ready(&k, 3));
    assert_eq!(k.tasks[1].state, TaskState::Blocked);
    assert_eq!(k.tasks[2].state, TaskState::Blocked);
    b.give(&mut k);
    assert!(is_ready(&k, 2));
    eg.set(&mut k, 0b10);
    assert!(is_ready(&k, 4));
    a.give(&mut k);
    assert!(is_ready(&k, 1));
}

#[test]
fn mutex_release_leaves_other_priorities_alone() {
    let mut k = kernel(&[9, 4, 6]);
    let mut m = Mutex::new(0u8);
    let g = m.lock(&mut k).unwrap();
    k.tasks[2].priority = 1;
    run(&mut k, 1);
    assert!(m.lock(&mut k).is_none());
    run(&mut k, 0);
    g.drop(&mut m, &mut k);
    assert_eq!((k.tasks[0].priority, k.tasks[1].priority, k.tasks[2].priority), (9, 4, 1));
}

#[test]
fn mutex_holder_by_try_lock_is_not_boosted() {
    let mut k = kernel(&[9, 6, 4]);
    let mut m = Mutex::new(0u8);
    let g = m.try_lock(&k).unwrap();
    run(&mut k, 1);
    assert!(m.lock(&mut k).is_none());
    assert_eq!(k.tasks[0].priority, 9);
    run(&mut k, 0);
    g.drop(&mut m, &mut k);
    // The new owner has come in through `lock`, and inherits.
    assert_eq!(m.owner, Some(1));
    run(&mut k, 2);
    assert!(m.lock(&mut k).is_none());
    assert_eq!(k.tasks[1].priority, 4);
}

#[test]
fn mutex_owner_stays_until_it_releases() {
    let mut k = kernel(&[5, 7, 3]);
    let mut m = Mutex::new(0u8);
    let g = m.lock(&mut k).unwrap();
    run(&mut k, 1);
    assert!(m.try_lock(&k).is_none());
    assert!(m.lock(&mut k).is_none());
    run(&mut k, 2);
    assert!(m.try_lock(&k).is_none());
    assert!(m.lock(&mut k).is_none());
    assert_eq!(m.owner, Some(0));
    run(&mut k, 0);
    g.drop(&mut m, &mut k);
    assert_eq!(m.owner, Some(2));
}

#[test]
fn event_group_delivers_each_flag_once() {
    let mut k = kernel(&[5, 6, 7, 8]);
    let mut eg = EventGroup::new();
    run(&mut k, 1);
    assert_eq!(eg.wait_any(&mut k, 0b0011), None);
    run(&mut k, 2);
    assert!(!eg.wait_all(&mut k, 0b1100));
    run(&mut k, 3);
    assert!(!eg.wait_all(&mut k, 0b0010));
    run(&mut k, 0);
    let left = eg.set(&mut k, 0b1_1111);
    assert_eq!((k.tasks[1].wait_ptr, k.tasks[2].wait_ptr), (0b0011, 0b1100));
    assert_eq!(left, 0b1_0000);
    assert!(is_ready(&k, 1) && is_ready(&k, 2));
    // Its only flag has gone to the first task.
    assert_eq!(k.tasks[3].state, TaskState::Blocked);
}

#[test]
fn wait_lists_are_told_apart() {
    let mut k = kernel(&[5, 6]);
    let mut a = Semaphore::new(0, 1);
    let mut b = Semaphore::new(0, 1);
    run(&mut k, 1);
    a.take(&mut k);
    run(&mut k, 0);
    assert!(k.lists_disjoint(&a.waiters, &b.waiters));
    b.take(&mut k);
    assert!(k.lists_disjoint(&a.waiters, &b.waiters));
    assert!(!k.lists_disjoint(&a.waiters, &a.waiters));
    assert!(k.wait_list_contains(&a.waiters, 1));
    assert!(!k.wait_list_contains(&a.waiters, 0));
}

#[test]
fn mutex_contention_keeps_other_lists() {
    let mut k = kernel(&[9, 4]);
    let mut m = Mutex::new(0u8);
    let mut s = Semaphore::new(0, 1);
    let _g = m.lock(&mut k).unwrap();
    // The owner waits elsewhere while it is boosted.
    s.take(&mut k);
    run(&mut k, 1);
    assert!(m.lock(&mut k).is_none());
    assert_eq!(k.tasks[0].priority, 4);
    assert!(k.wait_list_contains(&s.waiters, 0));
    assert!(!k.wait_list_contains(&s.waiters, 1));
    assert_eq!(k.tasks[0].state, TaskState::Blocked);
}
