use kangaroos::arch::host::HostContext;
use kangaroos::channel::Channel;
use kangaroos::kernel::tcb::TaskState;
use kangaroos::{Kernel, SpawnToken, Spawner, Tcb};
use std::cell::Cell;
use std::rc::Rc;

/// A kernel with one task for each priority, the first of which runs.
fn kernel(priorities: &[u8]) -> Kernel {
    let mut k = Kernel::new();
    for p in priorities {
        let mut stack = [0u32; 32];
        let token = SpawnToken::new(Tcb::zeroed(), 0x1000, 32, *p, 5, 0x200, "task");
        Spawner.spawn::<HostContext>(&mut k, token, &mut stack, 0);
    }
    run(&mut k, 0);
    k
}

/// Put the task `id` on the CPU.
fn run(k: &mut Kernel, id: usize) {
    if let Some(c) = k.current {
        if let TaskState::Running { slice_remaining } = k.tasks[c].state {
            k.tasks[c].state = TaskState::Ready { slice_remaining };
        }
    }
    k.current = Some(id);
    k.tasks[id].state = TaskState::Running { slice_remaining: 5 };
    k.pendsv = false;
}

fn is_ready(k: &Kernel, id: usize) -> bool {
    matches!(k.tasks[id].state, TaskState::Ready { .. })
}

/// Counts how often values are dropped.
struct Counted(Rc<Cell<usize>>);

impl Drop for Counted {
    fn drop(&mut self) {
        self.0.set(self.0.get() + 1);
    }
}

#[test]
fn channel_try_recv_empty_returns_none() {
    let mut k = Kernel::new();
    let mut ch: Channel<u32, 4> = Channel::new();
    assert_eq!(ch.receiver().try_recv(&mut ch, &mut k), None);
}

#[test]
fn channel_try_send_full_returns_false() {
    let mut k = Kernel::new();
    let mut ch: Channel<u32, 2> = Channel::new();
    let tx = ch.sender();
    assert!(tx.try_send(&mut ch, &mut k, 1));
    assert!(tx.try_send(&mut ch, &mut k, 2));
    assert!(!tx.try_send(&mut ch, &mut k, 3));
}

#[test]
fn channel_fifo_order() {
    let mut k = Kernel::new();
    let mut ch: Channel<u32, 4> = Channel::new();
    let tx = ch.sender();
    let rx = ch.receiver();

    assert!(tx.try_send(&mut ch, &mut k, 10));
    assert!(tx.try_send(&mut ch, &mut k, 20));
    assert!(tx.try_send(&mut ch, &mut k, 30));

    assert_eq!(rx.try_recv(&mut ch, &mut k), Some(10));
    assert_eq!(rx.try_recv(&mut ch, &mut k), Some(20));
    assert_eq!(rx.try_recv(&mut ch, &mut k), Some(30));
    assert_eq!(rx.try_recv(&mut ch, &mut k), None);
}

#[test]
fn channel_ring_wrap_around() {
    let mut k = Kernel::new();
    let mut ch: Channel<u32, 2> = Channel::new();
    let tx = ch.sender();
    let rx = ch.receiver();

    assert!(tx.try_send(&mut ch, &mut k, 1));
    assert!(tx.try_send(&mut ch, &mut k, 2));
    assert_eq!(rx.try_recv(&mut ch, &mut k), Some(1));
    assert!(tx.try_send(&mut ch, &mut k, 3));
    assert_eq!(rx.try_recv(&mut ch, &mut k), Some(2));
    assert_eq!(rx.try_recv(&mut ch, &mut k), Some(3));
    assert_eq!(rx.try_recv(&mut ch, &mut k), None);
}

#[test]
fn channel_rejected_send_drops_value() {
    let drops = Rc::new(Cell::new(0));
    let mut k = Kernel::new();
    let mut ch: Channel<Counted, 1> = Channel::new();
    let tx = ch.sender();
    let rx = ch.receiver();

    assert!(tx.try_send(&mut ch, &mut k, Counted(drops.clone())));
    assert!(!tx.try_send(&mut ch, &mut k, Counted(drops.clone())));
    assert_eq!(drops.get(), 1, "rejected value not dropped");

    drop(rx.try_recv(&mut ch, &mut k));
    assert_eq!(drops.get(), 2, "buffered value not dropped on recv+drop");
}

#[test]
fn channel_sender_receiver_are_copy() {
    let mut k = Kernel::new();
    let mut ch: Channel<u32, 4> = Channel::new();
    let tx = ch.sender();
    let tx2 = tx;
    let rx = ch.receiver();
    let rx2 = rx;

    assert!(tx2.try_send(&mut ch, &mut k, 42));
    assert_eq!(rx2.try_recv(&mut ch, &mut k), Some(42));
    assert!(tx.clone().try_send(&mut ch, &mut k, 43));
    assert_eq!(rx.clone().try_recv(&mut ch, &mut k), Some(43));
}

#[test]
fn channel_hands_over_to_a_waiting_receiver() {
    let mut k = kernel(&[5, 7, 3]);
    let mut ch: Channel<u32, 2> = Channel::new();
    let tx = ch.sender();
    let rx = ch.receiver();
    for id in [1, 2] {
        run(&mut k, id);
        assert_eq!(rx.recv(&mut ch, &mut k), None);
        assert_eq!(k.tasks[id].state, TaskState::Blocked);
        assert!(k.pendsv);
    }
    run(&mut k, 0);
    assert!(tx.send(&mut ch, &mut k, 11));
    assert!(is_ready(&k, 2));
    assert!(k.pendsv);
    run(&mut k, 0);
    assert!(tx.try_send(&mut ch, &mut k, 22));
    assert!(is_ready(&k, 1));
    assert!(!k.pendsv);
    run(&mut k, 2);
    assert_eq!(ch.collect(&k), 11);
    run(&mut k, 1);
    assert_eq!(ch.collect(&k), 22);
    assert_eq!(rx.try_recv(&mut ch, &mut k), None);
}

#[test]
fn channel_admits_the_highest_priority_sender() {
    let mut k = kernel(&[5, 7, 3]);
    let mut ch: Channel<u32, 1> = Channel::new();
    let tx = ch.sender();
    let rx = ch.receiver();
    assert!(tx.send(&mut ch, &mut k, 10));
    run(&mut k, 1);
    assert!(!tx.send(&mut ch, &mut k, 20));
    assert_eq!(k.tasks[1].state, TaskState::Blocked);
    run(&mut k, 2);
    assert!(!tx.send(&mut ch, &mut k, 30));
    run(&mut k, 0);
    assert_eq!(rx.recv(&mut ch, &mut k), Some(10));
    assert!(is_ready(&k, 2));
    assert!(k.pendsv);
    run(&mut k, 0);
    assert_eq!(rx.recv(&mut ch, &mut k), Some(30));
    assert!(is_ready(&k, 1));
    assert!(!k.pendsv);
    assert_eq!(rx.try_recv(&mut ch, &mut k), Some(20));
    assert_eq!(rx.try_recv(&mut ch, &mut k), None);
}

#[test]
fn channel_without_room_passes_values_directly() {
    let mut k = kernel(&[5, 7]);
    let mut ch: Channel<u32, 0> = Channel::new();
    let tx = ch.sender();
    let rx = ch.receiver();
    assert!(!tx.try_send(&mut ch, &mut k, 1));
    run(&mut k, 1);
    assert_eq!(rx.recv(&mut ch, &mut k), None);
    run(&mut k, 0);
    assert!(tx.try_send(&mut ch, &mut k, 2));
    run(&mut k, 1);
    assert_eq!(ch.collect(&k), 2);
}

#[test]
fn channel_keeps_order_over_many_laps() {
    let mut k = Kernel::new();
    let mut ch: Channel<u32, 3> = Channel::new();
    let tx = ch.sender();
    let rx = ch.receiver();
    for i in 0..50 {
        assert!(tx.try_send(&mut ch, &mut k, 2 * i));
        assert!(tx.try_send(&mut ch, &mut k, 2 * i + 1));
        assert_eq!(rx.try_recv(&mut ch, &mut k), Some(2 * i));
        assert_eq!(rx.try_recv(&mut ch, &mut k), Some(2 * i + 1));
    }
}
