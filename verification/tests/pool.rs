use kangaroos::arch::host::HostContext;
use kangaroos::kernel::tcb::TaskState;
use kangaroos::{Kernel, Pool, SpawnToken, Spawner, Tcb};
use std::cell::Cell;
use std::rc::Rc;

/// A kernel with one task for each priority, the first of which runs.
fn kernel(priorities: &[u8]) -> Kernel {
    let mut k = Kernel::new();
    for p in priorities {
        let mut stack = [0u32; 32];
        let token = SpawnToken::new(Tcb::zeroed(), 0x1000, 32, *p, 5, 0x200, "task");
        Spawner.spawn::<HostContext>(&mut k, token, &mut stack, 0);
    }
    run(&mut k, 0);
    k
}

/// Put the task `id` on the CPU.
fn run(k: &mut Kernel, id: usize) {
    if let Some(c) = k.current {
        if let TaskState::Running { slice_remaining } = k.tasks[c].state {
            k.tasks[c].state = TaskState::Ready { slice_remaining };
        }
    }
    k.current = Some(id);
    k.tasks[id].state = TaskState::Running { slice_remaining: 5 };
    k.pendsv = false;
}

/// Counts how often values are dropped.
struct Counted(Rc<Cell<usize>>);

impl Drop for Counted {
    fn drop(&mut self) {
        self.0.set(self.0.get() + 1);
    }
}

#[test]
fn pool_new_all_available() {
    let pool: Pool<u32, 4> = Pool::new();
    assert_eq!(pool.available(), 4);
}

#[test]
fn pool_zero_capacity() {
    let mut pool: Pool<u32, 0> = Pool::new();
    assert_eq!(pool.available(), 0);
    assert!(pool.try_alloc(1).is_none());
}

#[test]
fn pool_alloc_decrements_and_drop_restores() {
    let mut k = Kernel::new();
    let mut pool: Pool<u32, 3> = Pool::new();
    let b1 = pool.try_alloc(10).unwrap();
    assert_eq!(pool.available(), 2);
    let b2 = pool.try_alloc(20).unwrap();
    assert_eq!(pool.available(), 1);
    let b3 = pool.try_alloc(30).unwrap();
    assert_eq!(pool.available(), 0);

    b1.drop(&mut pool, &mut k);
    assert_eq!(pool.available(), 1);
    b2.drop(&mut pool, &mut k);
    b3.drop(&mut pool, &mut k);
    assert_eq!(pool.available(), 3);
}

#[test]
fn pool_exhausted_returns_none() {
    let mut k = Kernel::new();
    let mut pool: Pool<u32, 2> = Pool::new();
    let _b1 = pool.try_alloc(1).unwrap();
    let b2 = pool.try_alloc(2).unwrap();
    assert!(pool.try_alloc(3).is_none());
    b2.drop(&mut pool, &mut k);
    assert!(pool.try_alloc(99).is_some());
}

#[test]
fn pool_box_deref() {
    let mut pool: Pool<u32, 1> = Pool::new();
    let b = pool.try_alloc(42).unwrap();
    assert_eq!(*b.deref(&pool), 42);
}

#[test]
fn pool_box_deref_mut() {
    let mut pool: Pool<u32, 1> = Pool::new();
    let mut b = pool.try_alloc(10).unwrap();
    *b.deref_mut(&mut pool) = 99;
    assert_eq!(*b.deref(&pool), 99);
}

#[test]
fn pool_drop_calls_t_drop() {
    let drops = Rc::new(Cell::new(0));
    let mut k = Kernel::new();
    let mut pool: Pool<Counted, 2> = Pool::new();
    let b1 = pool.try_alloc(Counted(drops.clone())).unwrap();
    let b2 = pool.try_alloc(Counted(drops.clone())).unwrap();
    assert_eq!(drops.get(), 0);

    b1.drop(&mut pool, &mut k);
    assert_eq!(drops.get(), 1);
    b2.drop(&mut pool, &mut k);
    assert_eq!(drops.get(), 2);
}

#[test]
fn pool_alloc_rejected_val_is_dropped() {
    let drops = Rc::new(Cell::new(0));
    let mut pool: Pool<Counted, 1> = Pool::new();
    let _b = pool.try_alloc(Counted(drops.clone())).unwrap();
    let rejected = pool.try_alloc(Counted(drops.clone()));
    assert!(rejected.is_none());
    assert_eq!(drops.get(), 1, "rejected value not dropped");
}

#[test]
fn pool_uses_the_latest_freed_slot_first() {
    let mut k = Kernel::new();
    let mut pool: Pool<u32, 3> = Pool::default();
    let b0 = pool.try_alloc(0).unwrap();
    let b1 = pool.try_alloc(1).unwrap();
    assert_eq!((b0.slot, b1.slot), (0, 1));
    b0.drop(&mut pool, &mut k);
    b1.drop(&mut pool, &mut k);
    assert_eq!(pool.try_alloc(2).unwrap().slot, 1);
    assert_eq!(pool.try_alloc(3).unwrap().slot, 0);
    assert_eq!(pool.try_alloc(4).unwrap().slot, 2);
}

#[test]
fn pool_largest_capacity() {
    let mut pool: Pool<u8, 255> = Pool::new();
    assert_eq!(pool.available(), 255);
    for i in 0..255u8 {
        assert_eq!(pool.try_alloc(i).unwrap().slot, i);
    }
    assert!(pool.try_alloc(0).is_none());
}

#[test]
fn pool_alloc_blocking_takes_a_free_slot() {
    let mut k = kernel(&[5]);
    let mut pool: Pool<u32, 2> = Pool::new();
    let _b0 = pool.try_alloc(1).unwrap();
    let b = pool.alloc_blocking(&mut k, 7).unwrap();
    assert_eq!(*b.deref(&pool), 7);
    assert_eq!(pool.resume(&k).slot, b.slot);
    assert!(!k.pendsv);
}

#[test]
fn pool_hands_a_freed_slot_to_the_highest_priority() {
    let mut k = kernel(&[5, 7, 3]);
    let mut pool: Pool<u32, 1> = Pool::new();
    let b = pool.try_alloc(1).unwrap();
    for (id, value) in [(1, 70), (2, 30)] {
        run(&mut k, id);
        assert!(pool.alloc_blocking(&mut k, value).is_none());
        assert_eq!(k.tasks[id].state, TaskState::Blocked);
        assert!(k.pendsv);
    }
    run(&mut k, 0);
    b.drop(&mut pool, &mut k);
    assert!(k.pendsv);
    assert_eq!(pool.available(), 0);
    run(&mut k, 2);
    let b = pool.resume(&k);
    assert_eq!(*b.deref(&pool), 30);
    b.drop(&mut pool, &mut k);
    assert!(!k.pendsv);
    run(&mut k, 1);
    let b = pool.resume(&k);
    assert_eq!(*b.deref(&pool), 70);
    b.drop(&mut pool, &mut k);
    assert_eq!(pool.available(), 1);
}

#[test]
fn pool_allocation_leaves_other_values_alone() {
    let mut k = Kernel::new();
    let mut pool: Pool<u32, 3> = Pool::new();
    let a = pool.try_alloc(1).unwrap();
    let b = pool.try_alloc(2).unwrap();
    b.drop(&mut pool, &mut k);
    let c = pool.try_alloc(3).unwrap();
    assert_eq!((*a.deref(&pool), *c.deref(&pool)), (1, 3));
    assert_eq!(pool.available(), 1);
}

#[test]
fn pool_destructor_can_use_the_pool() {
    let drops = Rc::new(Cell::new(0));
    let mut k = kernel(&[5, 7]);
    let mut pool: Pool<Counted, 1> = Pool::new();
    let b = pool.try_alloc(Counted(drops.clone())).unwrap();
    let value = b.vacate(&mut pool);
    // The slot is neither free nor in use until it is given back.
    assert_eq!(pool.available(), 0);
    assert!(pool.try_alloc(Counted(Rc::new(Cell::new(0)))).is_none());
    run(&mut k, 1);
    assert!(pool.alloc_blocking(&mut k, Counted(drops.clone())).is_none());
    run(&mut k, 0);
    drop(value);
    assert_eq!(drops.get(), 1);
    b.release(&mut pool, &mut k);
    run(&mut k, 1);
    let b = pool.resume(&k);
    assert_eq!(b.slot, 0);
    b.drop(&mut pool, &mut k);
    assert_eq!(drops.get(), 2);
    assert_eq!(pool.available(), 1);
}

#[test]
fn pool_handover_keeps_other_lists() {
    let mut k = kernel(&[5, 7, 8]);
    let mut pool: Pool<u32, 1> = Pool::new();
    let mut other: Pool<u32, 0> = Pool::new();
    let b = pool.try_alloc(1).unwrap();
    run(&mut k, 1);
    assert!(pool.alloc_blocking(&mut k, 2).is_none());
    run(&mut k, 2);
    assert!(other.alloc_blocking(&mut k, 3).is_none());
    run(&mut k, 0);
    b.drop(&mut pool, &mut k);
    assert!(k.wait_list_contains(&other.waiters, 2));
    assert_eq!(k.tasks[2].state, TaskState::Blocked);
}
