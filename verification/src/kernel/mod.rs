use vstd::prelude::*;

pub mod idle;
pub mod scheduler;
pub mod storage;
pub mod systick;
pub mod tcb;
pub mod wait_list;

pub use storage::TaskStorage;

use crate::kernel::tcb::Tcb;

verus! {

/// The whole scheduler state of one core.
///
/// A task is named by its index in `tasks`. The list of all tasks runs from
/// `all_tasks` through `Tcb::all_next`; a spawned task goes to its front.
pub struct Kernel {
    /// Control block of every spawned task, in spawn order.
    pub tasks: Vec<Tcb>,
    /// The task that owns the CPU, or `None` before the first launch.
    pub current: Option<usize>,
    /// Front of the list of all tasks.
    pub all_tasks: Option<usize>,
    /// Ticks since boot.
    pub tick: u64,
    /// Whether a context switch has been requested and not yet carried out.
    pub pendsv: bool,
}

impl Kernel {
    /// The list of all tasks holds every task once, the latest spawned first.
    pub open spec fn all_linked(self) -> bool {
        let n = self.tasks.len();
        &&& self.all_tasks == if n == 0 { None } else { Some((n - 1) as usize) }
        &&& forall|i: int|
            0 <= i < n ==> (#[trigger] self.tasks@[i]).all_next == if i == 0 {
                None
            } else {
                Some((i - 1) as usize)
            }
    }

    /// Well-formedness: the task list is linked, `current` names a task, and
    /// only the current task can be running.
    pub open spec fn wf(self) -> bool {
        &&& self.all_linked()
        &&& self.current matches Some(c) ==> c < self.tasks@.len()
        &&& forall|i: int|
            0 <= i < self.tasks@.len() && (#[trigger] self.tasks@[i]).state is Running
                ==> self.current == Some(i as usize)
    }

    /// A task is on the CPU and marked as running.
    pub open spec fn running(self) -> bool {
        self.current matches Some(c) && c < self.tasks@.len() && self.tasks@[c as int].state is Running
    }

    /// Everything but the task table and the switch request is unchanged.
    pub open spec fn same_but_tasks(self, other: Kernel) -> bool {
        &&& self.current == other.current
        &&& self.all_tasks == other.all_tasks
        &&& self.tick == other.tick
        &&& self.tasks@.len() == other.tasks@.len()
    }

    /// What stays the same when only the task table and the switch request change.
    pub proof fn law_only_tasks_and_requests_change(self, other: Kernel)
        requires
            self.same_but_tasks(other),
        ensures
            self.current == other.current,
            self.all_tasks == other.all_tasks,
            self.tick == other.tick,
            self.tasks@.len() == other.tasks@.len(),
    {
    }

    /// Every task is met once on the way along the list of all tasks, the latest
    /// spawned first; the current task is one of them, and nobody but the current task
    /// is running.
    pub proof fn law_task_list_holds_everyone(self, i: int)
        requires
            self.wf(),
            0 <= i < self.tasks@.len(),
        ensures
            self.all_tasks == Some((self.tasks@.len() - 1) as usize),
            self.tasks@[i].all_next == (if i > 0 {
                Some((i - 1) as usize)
            } else {
                None
            }),
            self.current matches Some(c) ==> c < self.tasks@.len(),
            self.tasks@[i].state is Running ==> self.current == Some(i as usize),
    {
    }

    /// A kernel with no tasks, at tick zero.
    pub fn new() -> (r: Kernel)
        ensures
            r.wf(),
            r.tasks@.len() == 0,
            r.current is None,
            r.tick == 0,
            !r.pendsv,
    {
        Kernel { tasks: Vec::new(), current: None, all_tasks: None, tick: 0, pendsv: false }
    }

    /// Request a context switch.
    pub fn trigger_pendsv(&mut self)
        ensures
            final(self).pendsv,
            final(self).tasks == old(self).tasks,
            final(self).same_but_tasks(*old(self)),
    {
        self.pendsv = true;
    }
}

} // verus!
