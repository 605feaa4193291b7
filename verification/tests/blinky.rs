use kangaroos::arch::host::HostContext;
use kangaroos::kernel::idle;
use kangaroos::sync::Semaphore;
use kangaroos::task;
use kangaroos::timer::Duration;
use kangaroos::{Kernel, SpawnToken, Spawner, TaskStorage, Tcb};

fn spawn(k: &mut Kernel, priority: u8, name: &'static str) {
    let mut stack = [0u32; 512];
    let token = SpawnToken::new(Tcb::zeroed(), 0x1000, 512, priority, 10, 0x200, name);
    Spawner.spawn::<HostContext>(k, token, &mut stack, 0);
}

/// Two tasks of equal priority take turns: each waits for its semaphore, prints,
/// sleeps for a second and gives the other's semaphore.
#[test]
fn two_tasks_alternate() {
    let mut k = Kernel::new();
    spawn(&mut k, 0, "task_a");
    spawn(&mut k, 0, "task_b");
    let mut storage: TaskStorage<64> = TaskStorage::new();
    idle::register::<HostContext>(&mut k, &mut storage, 0x9000, 0x300, 0);
    let mut sems = [Semaphore::new_named(1, 1, "SEM_A"), Semaphore::new_named(0, 1, "SEM_B")];
    let words = ["tick", "tock"];
    let mut step = [0, 0];
    let mut printed: Vec<(&str, u64)> = Vec::new();

    k.svc_first_task_sp();
    while printed.len() < 5 {
        if k.pendsv {
            k.pendsv_save_and_switch(0);
            continue;
        }
        let c = k.current.unwrap();
        if c == 2 {
            // The idle task waits for the next tick.
            let intact = vec![[0xDEAD_BEEF; 4]; 3];
            assert_eq!(k.systick_handler::<HostContext>(&intact), None);
            continue;
        }
        match step[c] {
            0 => {
                sems[c].take(&mut k);
            }
            1 => {
                printed.push((words[c], k.tick));
                task::sleep(&mut k, Duration::from_secs(1));
            }
            _ => {
                sems[1 - c].give(&mut k);
            }
        }
        step[c] = (step[c] + 1) % 3;
    }
    assert_eq!(
        printed,
        vec![("tick", 0), ("tock", 1000), ("tick", 2000), ("tock", 3000), ("tick", 4000)]
    );
}
