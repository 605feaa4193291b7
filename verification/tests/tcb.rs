use kangaroos::kernel::tcb::TaskState;
use kangaroos::{TaskStorage, Tcb};

#[test]
fn tcb_zeroed_state_is_uninit() {
    let t = Tcb::zeroed();
    assert!(matches!(t.state, TaskState::Uninit));
}

#[test]
fn tcb_zeroed_sentinel_fields() {
    let t = Tcb::zeroed();
    assert_eq!(t.sp, 0);
    assert_eq!(t.priority, 0);
    assert_eq!(t.base_priority, 0);
    assert_eq!(t.time_slice, 0);
    assert_eq!(t.stack_base, 0);
    assert_eq!(t.name, "");
    assert!(t.wait_next.is_none());
    assert!(t.all_next.is_none());
    assert_eq!(t.wait_ptr, 0);
}

#[test]
fn task_state_equality() {
    assert_eq!(TaskState::Ready { slice_remaining: 5 }, TaskState::Ready { slice_remaining: 5 });
    assert_ne!(TaskState::Ready { slice_remaining: 5 }, TaskState::Ready { slice_remaining: 0 });
    assert_eq!(TaskState::Running { slice_remaining: 3 }, TaskState::Running { slice_remaining: 3 });
    assert_ne!(TaskState::Ready { slice_remaining: 0 }, TaskState::Blocked);
    assert_eq!(TaskState::Sleeping(100), TaskState::Sleeping(100));
    assert_ne!(TaskState::Sleeping(100), TaskState::Sleeping(200));
    assert_ne!(TaskState::Dead, TaskState::Uninit);
}

#[test]
fn tcb_size_regression() {
    let max = if core::mem::size_of::<usize>() == 4 { 64 } else { 96 };
    assert!(
        core::mem::size_of::<Tcb>() <= max,
        "Tcb is {} bytes — check for unintended field additions (limit {max})",
        core::mem::size_of::<Tcb>(),
    );
}

#[test]
fn storage_starts_zeroed() {
    let mut s: TaskStorage<32> = TaskStorage::new();
    assert_eq!(s.stack_slice().len(), 32);
    assert!(s.stack_slice().iter().all(|w| *w == 0));
    assert_eq!(s.tcb_ptr().state, TaskState::Uninit);
    s.stack_slice()[3] = 9;
    s.tcb_ptr().priority = 4;
    assert_eq!(s.stack[3], 9);
    assert_eq!(s.tcb.priority, 4);
    let d: TaskStorage<8> = Default::default();
    assert_eq!(d.stack, [0; 8]);
}
