use vstd::prelude::*;

verus! {

/// Current execution state of a task.
#[derive(Copy, Clone, PartialEq, Eq, Debug, Structural)]
pub enum TaskState {
    /// Control block not yet initialised.
    Uninit,
    /// In the run queue, eligible to be scheduled next.
    ///
    /// Carries the remaining time-slice ticks so the quantum is preserved when
    /// the task is preempted by priority before its slice expires.
    Ready { slice_remaining: u8 },
    /// Currently on the CPU; at most one task is in this state at any time.
    Running { slice_remaining: u8 },
    /// Blocked on a synchronisation primitive.
    Blocked,
    /// Sleeping until the global tick counter reaches the stored deadline.
    Sleeping(u64),
    /// The task has exited and is never scheduled again.
    Dead,
}

/// Task control block: one entry of the kernel's task table.
///
/// Tasks are named by their index in that table, so a link is an
/// `Option<usize>`, with `None` ending a list.
#[derive(Copy, Clone)]
pub struct Tcb {
    /// Saved stack pointer, updated on every context switch.
    pub sp: usize,
    /// Execution state.
    pub state: TaskState,
    /// Effective (possibly boosted) priority: 0 is the highest, 255 the lowest.
    pub priority: u8,
    /// Priority given at spawn, never changed afterwards.
    pub base_priority: u8,
    /// Round-robin quantum in ticks.
    pub time_slice: u8,
    /// Lowest address of the task's stack.
    pub stack_base: usize,
    /// Human-readable name.
    pub name: &'static str,
    /// Next task on the same wait list.
    pub wait_next: Option<usize>,
    /// Next task on the list of all tasks; set once at spawn.
    pub all_next: Option<usize>,
    /// One word handed between a blocked task and the task that wakes it.
    pub wait_ptr: usize,
}

impl Tcb {
    /// The control block is uninitialised, with every field zero or empty.
    pub open spec fn is_zeroed(self) -> bool {
        &&& self.sp == 0
        &&& self.state == TaskState::Uninit
        &&& self.priority == 0
        &&& self.base_priority == 0
        &&& self.time_slice == 0
        &&& self.stack_base == 0
        &&& self.name@ == ""@
        &&& self.wait_next is None
        &&& self.all_next is None
        &&& self.wait_ptr == 0
    }

    /// An uninitialised control block.
    pub fn zeroed() -> (r: Tcb)
        ensures
            r.is_zeroed(),
    {
        Tcb {
            sp: 0,
            state: TaskState::Uninit,
            priority: 0,
            base_priority: 0,
            time_slice: 0,
            stack_base: 0,
            name: "",
            wait_next: None,
            all_next: None,
            wait_ptr: 0,
        }
    }
}

} // verus!
