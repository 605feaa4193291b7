use kangaroos::arch::host::HostContext;
use kangaroos::arch::v7m::V7m;
use kangaroos::arch::{v6m, v7em_fpu, v7m, v8m, ArchContext, CANARY};
use kangaroos::kernel::idle;
use kangaroos::kernel::systick::systick_reload;
use kangaroos::kernel::tcb::TaskState;
use kangaroos::task;
use kangaroos::{Kernel, SpawnToken, Spawner, TaskStorage, Tcb};

fn spawn(k: &mut Kernel, priority: u8, time_slice: u8, name: &'static str) {
    let mut stack = [0u32; 32];
    let token = SpawnToken::new(Tcb::zeroed(), 0x2000, 32, priority, time_slice, 0x201, name);
    Spawner.spawn::<HostContext>(k, token, &mut stack, 0);
}

#[test]
fn frame_layout_is_the_same_on_every_variant() {
    let mut stack = [7u32; 24];
    assert_eq!(v7m::stack_init(&mut stack, 0x1000, 0x0801, 0x0900), 0x1000 + 4 * 7);
    assert_eq!(&stack[..7], &[7; 7]);
    assert_eq!(&stack[7..15], &[0; 8]);
    assert_eq!(stack[15], 0xFFFF_FFFD);
    assert_eq!(&stack[16..21], &[0; 5]);
    assert_eq!(stack[21], 0x0901);
    assert_eq!(stack[22], 0x0800);
    assert_eq!(stack[23], 0x0100_0000);
    for init in [v6m::stack_init, v7em_fpu::stack_init, v8m::stack_init] {
        let mut other = [7u32; 24];
        assert_eq!(init(&mut other, 0x1000, 0x0801, 0x0900), 0x1000 + 4 * 7);
        assert_eq!(other, stack);
    }
}

#[test]
fn host_frame_has_a_return_sentinel() {
    let mut stack = [0u32; 21];
    assert_eq!(HostContext::stack_init(&mut stack, 64, 0x10, 0x20), 64 + 16);
    assert_eq!(stack[18], 0xDEAD_0001);
    assert_eq!(stack[19], 0x10);
}

#[test]
fn canary_detects_an_overflow() {
    let mut stack = [0u32; 21];
    assert!(!V7m::canary_check(&stack));
    V7m::canary_init(&mut stack);
    assert_eq!(&stack[..5], &[CANARY, CANARY, CANARY, CANARY, 0]);
    assert!(V7m::canary_check(&stack));
    V7m::stack_init(&mut stack, 0, 0, 0);
    assert!(V7m::canary_check(&stack));
    for i in 0..4 {
        let mut broken = stack;
        broken[i] = 0xDEAD_BEEE;
        assert!(!V7m::canary_check(&broken));
    }
}

#[test]
fn spawn_registers_a_ready_task() {
    let mut k = Kernel::new();
    let mut stack = [0u32; 32];
    let token = SpawnToken::new(Tcb::zeroed(), 0x2000, 32, 3, 9, 0x201, "blink");
    Spawner.spawn::<HostContext>(&mut k, token, &mut stack, 0);
    assert_eq!(&stack[..4], &[CANARY; 4]);
    assert_eq!(stack[30], 0x200);
    let t = k.tasks[0];
    assert_eq!(t.sp, 0x2000 + 4 * 15);
    assert_eq!(t.state, TaskState::Ready { slice_remaining: 9 });
    assert_eq!((t.priority, t.base_priority, t.time_slice), (3, 3, 9));
    assert_eq!(t.stack_base, 0x2000);
    assert_eq!(t.name, "blink");
    assert_eq!(t.all_next, None);
    spawn(&mut k, 1, 1, "second");
    assert_eq!(k.all_tasks, Some(1));
    assert_eq!(k.tasks[1].all_next, Some(0));
}

#[test]
fn idle_task_comes_last() {
    let mut k = Kernel::new();
    spawn(&mut k, 200, 1, "user");
    let mut storage: TaskStorage<64> = TaskStorage::new();
    idle::register::<HostContext>(&mut k, &mut storage, 0x4000, 0x301, 0);
    assert_eq!(k.tasks[1].name, "idle");
    assert_eq!((k.tasks[1].priority, k.tasks[1].time_slice), (255, 1));
    assert_eq!(k.tasks[1].sp, 0x4000 + 4 * 47);
    assert_eq!(&storage.stack[..4], &[CANARY; 4]);
    k.svc_first_task_sp();
    assert_eq!(k.current, Some(0));
    task::exit(&mut k);
    assert_eq!(k.tasks[0].state, TaskState::Dead);
    assert!(k.pendsv);
    k.pendsv_save_and_switch(1);
    assert_eq!(k.current, Some(1));
}

#[test]
fn yield_gives_way_to_a_peer() {
    let mut k = Kernel::new();
    spawn(&mut k, 4, 5, "a");
    spawn(&mut k, 4, 5, "b");
    k.svc_first_task_sp();
    assert_eq!(k.current, Some(1));
    task::yield_now(&mut k);
    assert_eq!(k.tasks[1].state, TaskState::Running { slice_remaining: 0 });
    assert!(k.pendsv);
    k.pendsv_save_and_switch(0);
    assert_eq!(k.current, Some(0));
}

#[test]
fn current_priority_is_the_static_one() {
    let mut k = Kernel::new();
    spawn(&mut k, 4, 5, "a");
    k.svc_first_task_sp();
    assert_eq!(task::current_priority(&k), 4);
    k.tasks[0].priority = 1;
    assert_eq!(task::current_priority(&k), 4);
}

#[test]
fn systick_requests_a_switch_and_checks_the_stacks() {
    let mut k = Kernel::new();
    spawn(&mut k, 4, 1, "a");
    spawn(&mut k, 4, 1, "b");
    spawn(&mut k, 9, 1, "c");
    k.svc_first_task_sp();
    let good = [CANARY; 4];
    let bad = [CANARY, CANARY, 0, CANARY];
    assert_eq!(k.systick_handler::<HostContext>(&vec![good, good, good]), None);
    assert_eq!(k.tick, 1);
    assert!(k.pendsv);
    // The latest spawned task is looked at first.
    assert_eq!(k.systick_handler::<HostContext>(&vec![bad, bad, good]), Some(1));
    k.tasks[1].state = TaskState::Dead;
    assert_eq!(k.systick_handler::<HostContext>(&vec![bad, bad, good]), Some(0));
    k.tasks[0].state = TaskState::Uninit;
    assert_eq!(k.systick_handler::<HostContext>(&vec![bad, bad, good]), None);
}

#[test]
fn reload_value_gives_a_millisecond() {
    assert_eq!(systick_reload(8_000_000), 7_999);
    assert_eq!(systick_reload(1_000), 0);
    assert_eq!(systick_reload(1_999), 0);
}

#[test]
fn spawner_counts_user_tasks() {
    let mut k = Kernel::new();
    assert!(Spawner.has_room(&k, None));
    assert!(!Spawner.has_room(&k, Some(0)));
    let mut stack = [0u32; 32];
    let token = SpawnToken::new(Tcb::zeroed(), 0x1000, 32, 4, 5, 0x200, "task");
    Spawner.spawn::<HostContext>(&mut k, token, &mut stack, 0);
    assert!(!Spawner.has_room(&k, Some(1)));
    assert!(Spawner.has_room(&k, Some(2)));
    // The idle task does not count.
    let token = SpawnToken::new(Tcb::zeroed(), 0x2000, 32, 255, 1, 0x300, "idle");
    Spawner.spawn::<HostContext>(&mut k, token, &mut stack, 0);
    k.svc_first_task_sp();
    assert!(!Spawner.has_room(&k, Some(1)));
    assert!(Spawner.has_room(&k, Some(2)));
}
