use crate::kernel::tcb::{TaskState, Tcb};
use crate::kernel::wait_list::WaitList;
use crate::kernel::Kernel;
use vstd::prelude::*;

verus! {

/// A task the scheduler may pick.
pub open spec fn runnable(t: Tcb) -> bool {
    t.state is Ready || t.state is Running
}

/// How many tasks are visited before `x` when the search for the next task
/// starts behind `current` on the list of all tasks and wraps around.
pub open spec fn turn(current: Option<usize>, n: nat, x: int) -> int {
    match current {
        None => n - 1 - x,
        Some(c) => if x < c {
            c - 1 - x
        } else {
            n - 1 - x + c
        },
    }
}

/// `b` is to be preferred to `x`: it has the higher priority, or the same one
/// and the earlier turn.
pub open spec fn preferred(tasks: Seq<Tcb>, current: Option<usize>, b: int, x: int) -> bool {
    ||| tasks[b].priority < tasks[x].priority
    ||| tasks[b].priority == tasks[x].priority && turn(current, tasks.len(), b) <= turn(
        current,
        tasks.len(),
        x,
    )
}

/// `b` is the task to run next.
pub open spec fn is_next(tasks: Seq<Tcb>, current: Option<usize>, b: int) -> bool {
    &&& 0 <= b < tasks.len()
    &&& runnable(tasks[b])
    &&& forall|x: int|
        0 <= x < tasks.len() && #[trigger] runnable(tasks[x]) ==> preferred(tasks, current, b, x)
}

/// `best` is the preferred choice among the tasks whose turn comes before `k`.
spec fn best_before(tasks: Seq<Tcb>, current: Option<usize>, k: int, best: Option<usize>) -> bool {
    match best {
        None => forall|x: int|
            0 <= x < tasks.len() && turn(current, tasks.len(), x) < k ==> !#[trigger] runnable(
                tasks[x],
            ),
        Some(b) => {
            &&& b < tasks.len()
            &&& runnable(tasks[b as int])
            &&& turn(current, tasks.len(), b as int) < k
            &&& forall|x: int|
                0 <= x < tasks.len() && turn(current, tasks.len(), x) < k && #[trigger] runnable(
                    tasks[x],
                ) ==> preferred(tasks, current, b as int, x)
        },
    }
}

/// `t` once the tick counter stands at `now`: a sleeper whose deadline has come
/// is ready with a full time slice.
pub open spec fn awoken(t: Tcb, now: u64) -> Tcb {
    match t.state {
        TaskState::Sleeping(deadline) if now >= deadline => Tcb {
            state: TaskState::Ready { slice_remaining: t.time_slice },
            ..t
        },
        _ => t,
    }
}

/// The task table once every sleeper but the current task `c` has been looked at.
pub open spec fn all_awoken(tasks: Seq<Tcb>, c: int, now: u64) -> Seq<Tcb> {
    Seq::new(
        tasks.len(),
        |i: int|
            if i == c {
                tasks[i]
            } else {
                awoken(tasks[i], now)
            },
    )
}

/// A task other than `c` is ready and has a higher priority.
pub open spec fn outranked(tasks: Seq<Tcb>, c: int) -> bool {
    exists|i: int|
        0 <= i < tasks.len() && i != c && (#[trigger] tasks[i]).state is Ready && tasks[i].priority
            < tasks[c].priority
}

/// A task other than `c` is ready and has the same priority.
pub open spec fn has_peer(tasks: Seq<Tcb>, c: int) -> bool {
    exists|i: int|
        0 <= i < tasks.len() && i != c && (#[trigger] tasks[i]).state is Ready && tasks[i].priority
            == tasks[c].priority
}

/// What is left of a slice after one more tick.
pub open spec fn slice_left(slice: u8) -> u8 {
    if slice > 0 {
        (slice - 1) as u8
    } else {
        0
    }
}

/// The running task after one more tick: its slice is counted down, and
/// reloaded when it has run out.
pub open spec fn charged(t: Tcb) -> Tcb {
    let left = slice_left(t.state->Running_slice_remaining);
    Tcb {
        state: TaskState::Running {
            slice_remaining: if left == 0 {
                t.time_slice
            } else {
                left
            },
        },
        ..t
    }
}

/// The slice of the running task `t` runs out with the next tick.
pub open spec fn expires(t: Tcb) -> bool {
    slice_left(t.state->Running_slice_remaining) == 0
}

/// The tick counter after one more tick.
pub open spec fn next_tick(tick: u64) -> u64 {
    if tick == u64::MAX {
        0
    } else {
        (tick + 1) as u64
    }
}

/// The table with the task that leaves the CPU: its stack pointer is saved, and
/// it is ready again unless it has blocked, gone to sleep or exited.
pub open spec fn switched_out(tasks: Seq<Tcb>, c: int, sp: usize) -> Seq<Tcb> {
    tasks.update(
        c,
        Tcb {
            sp,
            state: match tasks[c].state {
                TaskState::Running { slice_remaining } => TaskState::Ready { slice_remaining },
                other => other,
            },
            ..tasks[c]
        },
    )
}

/// The table with the ready task `b` put on the CPU.
pub open spec fn switched_in(tasks: Seq<Tcb>, b: int) -> Seq<Tcb> {
    tasks.update(
        b,
        Tcb {
            state: TaskState::Running {
                slice_remaining: tasks[b].state->Ready_slice_remaining,
            },
            ..tasks[b]
        },
    )
}

impl Kernel {
    /// Some task can be picked.
    pub open spec fn has_runnable(self) -> bool {
        exists|x: int| 0 <= x < self.tasks@.len() && #[trigger] runnable(self.tasks@[x])
    }

    /// The task table once the sleepers that are due at the next tick are awake.
    pub open spec fn woken_at_tick(self) -> Seq<Tcb> {
        all_awoken(self.tasks@, self.current->0 as int, next_tick(self.tick))
    }

    /// The next tick calls for a context switch: a ready task outranks the
    /// running one, or the running one uses up its slice and has a ready peer.
    pub open spec fn switch_due(self) -> bool {
        let c = self.current->0 as int;
        let woken = self.woken_at_tick();
        self.running() && (outranked(woken, c) || expires(woken[c]) && has_peer(woken, c))
    }

    /// The task table after the next tick: sleepers that are due are awake, and
    /// the running task is charged for the tick unless it is outranked. Nothing
    /// changes while no task is running.
    pub open spec fn ticked(self) -> Seq<Tcb> {
        let c = self.current->0 as int;
        let woken = self.woken_at_tick();
        if !self.running() {
            self.tasks@
        } else if outranked(woken, c) {
            woken
        } else {
            woken.update(c, charged(woken[c]))
        }
    }

    /// What the first launch does: the task to run next is on the CPU, and `sp` is
    /// its stack pointer.
    pub open spec fn launched(self, after: Kernel, sp: usize) -> bool {
        let b = after.current->0 as int;
        &&& after.current is Some
        &&& is_next(self.tasks@, None, b)
        &&& after.tasks@ == switched_in(self.tasks@, b)
        &&& sp == self.tasks@[b].sp
    }

    /// What a context switch does: the current task has left the CPU with the stack
    /// pointer `current_sp`, the task to run next is on it, and `sp` is its stack
    /// pointer.
    pub open spec fn switched(self, after: Kernel, current_sp: usize, sp: usize) -> bool {
        let out = switched_out(self.tasks@, self.current->0 as int, current_sp);
        let b = after.current->0 as int;
        &&& after.current is Some
        &&& is_next(out, self.current, b)
        &&& after.tasks@ == switched_in(out, b)
        &&& sp == out[b].sp
    }

    /// Take `t` as the new best choice when it beats `best`.
    fn better(&self, best: Option<usize>, t: usize, Ghost(k): Ghost<int>) -> (r: Option<usize>)
        requires
            self.wf(),
            t < self.tasks@.len(),
            turn(self.current, self.tasks@.len(), t as int) == k,
            best_before(self.tasks@, self.current, k, best),
        ensures
            best_before(self.tasks@, self.current, k + 1, r),
    {
        if matches!(self.tasks[t].state, TaskState::Ready { .. } | TaskState::Running { .. }) {
            match best {
                None => Some(t),
                Some(b) => if self.tasks[t].priority < self.tasks[b].priority {
                    Some(t)
                } else {
                    best
                },
            }
        } else {
            best
        }
    }

    /// The highest-priority runnable task.
    ///
    /// Among tasks of equal priority the search starts behind the current
    /// task, which gives round-robin order within a priority tier.
    pub fn find_next(&self) -> (r: usize)
        requires
            self.wf(),
            self.has_runnable(),
        ensures
            is_next(self.tasks@, self.current, r as int),
    {
        let start: Option<usize> = match self.current {
            None => self.all_tasks,
            Some(c) => match self.tasks[c].all_next {
                None => self.all_tasks,
                Some(n) => Some(n),
            },
        };
        let mut best: Option<usize> = None;
        let ghost mut k: int = 0;

        let mut t: Option<usize> = start;
        while t.is_some()
            invariant
                self.wf(),
                t matches Some(x) ==> x < self.tasks@.len() && turn(
                    self.current,
                    self.tasks@.len(),
                    x as int,
                ) == k && (self.current matches Some(c) ==> (c > 0 ==> x < c)),
                t is None ==> k == (match self.current {
                    Some(c) if c > 0 => c as int,
                    _ => self.tasks@.len() as int,
                }),
                best_before(self.tasks@, self.current, k, best),
            decreases upto(t),
        {
            let x: usize = t.unwrap();
            best = self.better(best, x, Ghost(k));
            t = self.tasks[x].all_next;
            proof {
                k = k + 1;
            }
        }

        if self.current.is_some() {
            let mut t: Option<usize> = self.all_tasks;
            while t.is_some() && t != start
                invariant
                    self.wf(),
                    self.current is Some,
                    start == (if self.current->0 == 0 {
                        self.all_tasks
                    } else {
                        Some((self.current->0 - 1) as usize)
                    }),
                    t is Some,
                    t->0 < self.tasks@.len(),
                    self.current->0 > 0 ==> t->0 >= self.current->0 - 1,
                    self.current->0 == 0 ==> t == start && k == self.tasks@.len(),
                    self.current->0 > 0 ==> k == self.tasks@.len() - 1 - t->0 + self.current->0,
                    best_before(self.tasks@, self.current, k, best),
                decreases upto(t),
            {
                let x: usize = t.unwrap();
                best = self.better(best, x, Ghost(k));
                t = self.tasks[x].all_next;
                proof {
                    k = k + 1;
                }
            }
        }
        best.unwrap()
    }

    /// Advance the tick counter and run the time-based scheduling rules.
    ///
    /// Returns `true` when a context switch is due: a ready task outranks the
    /// current one, or the current one has used up its slice and has a ready
    /// peer. Nothing but the counter moves while no task is running.
    pub fn tick(&mut self) -> (r: bool)
        requires
            old(self).wf(),
        ensures
            final(self).wf(),
            final(self).tick == next_tick(old(self).tick),
            final(self).current == old(self).current,
            final(self).all_tasks == old(self).all_tasks,
            final(self).pendsv == old(self).pendsv,
            forall|l: WaitList| old(self).holds(l) ==> #[trigger] final(self).holds(l),
            forall|i: int|
                0 <= i < old(self).tasks@.len() && runnable(old(self).tasks@[i]) ==> #[trigger] runnable(
                    final(self).tasks@[i],
                ),
            r == old(self).switch_due(),
            final(self).tasks@ == old(self).ticked(),
    {
        self.tick = self.tick.wrapping_add(1);
        let now: u64 = self.tick;

        let current: usize = match self.current {
            Some(c) => c,
            None => {
                return false;
            },
        };
        if !matches!(self.tasks[current].state, TaskState::Running { .. }) {
            return false;
        }
        let ghost before = self.tasks@;
        let ghost woken = all_awoken(before, current as int, now);
        let cur_prio: u8 = self.tasks[current].priority;
        let mut should_preempt: bool = false;

        // One pass wakes the sleepers that are due and looks for a ready task
        // of higher priority.
        let mut t: Option<usize> = self.all_tasks;
        while t.is_some()
            invariant
                self.wf(),
                self.tick == now,
                self.current == Some(current),
                self.all_tasks == old(self).all_tasks,
                self.pendsv == old(self).pendsv,
                current < before.len(),
                cur_prio == before[current as int].priority,
                woken == all_awoken(before, current as int, now),
                self.tasks@.len() == before.len(),
                t matches Some(x) ==> x < before.len(),
                forall|i: int|
                    0 <= i < before.len() ==> #[trigger] self.tasks@[i] == if upto(t) <= i {
                        woken[i]
                    } else {
                        before[i]
                    },
                should_preempt == exists|i: int|
                    upto(t) <= i < woken.len() && i != current && (#[trigger] woken[i]).state is Ready
                        && woken[i].priority < cur_prio,
            decreases upto(t),
        {
            let x: usize = t.unwrap();
            if x != current {
                if let TaskState::Sleeping(deadline) = self.tasks[x].state {
                    if now >= deadline {
                        let full: u8 = self.tasks[x].time_slice;
                        self.tasks[x].state = TaskState::Ready { slice_remaining: full };
                    }
                }
                assert(self.tasks@[x as int] == woken[x as int]);
                if matches!(self.tasks[x].state, TaskState::Ready { .. }) && self.tasks[x].priority
                    < cur_prio {
                    should_preempt = true;
                }
            }
            t = self.tasks[x].all_next;
        }
        assert(self.tasks@ =~= woken);

        if should_preempt {
            return true;
        }
        let mut expired: bool = false;
        if let TaskState::Running { slice_remaining } = self.tasks[current].state {
            let left: u8 = if slice_remaining > 0 {
                slice_remaining - 1
            } else {
                0
            };
            expired = left == 0;
            let slice: u8 = if expired {
                self.tasks[current].time_slice
            } else {
                left
            };
            self.tasks[current].state = TaskState::Running { slice_remaining: slice };
        }
        let ghost charged_tasks = woken.update(current as int, charged(woken[current as int]));
        assert(self.tasks@ =~= charged_tasks);
        assert(has_peer(charged_tasks, current as int) == has_peer(woken, current as int)) by {
            if has_peer(woken, current as int) {
                let i = choose|i: int|
                    0 <= i < woken.len() && i != current && (#[trigger] woken[i]).state is Ready
                        && woken[i].priority == woken[current as int].priority;
                assert(charged_tasks[i] == woken[i]);
            }
        }

        expired && self.ready_peer(current)
    }

    /// Whether a task other than `current` is ready and has the same priority.
    fn ready_peer(&self, current: usize) -> (r: bool)
        requires
            self.wf(),
            current < self.tasks@.len(),
        ensures
            r == has_peer(self.tasks@, current as int),
    {
        let cur_prio: u8 = self.tasks[current].priority;
        let mut t: Option<usize> = self.all_tasks;
        while t.is_some()
            invariant
                self.wf(),
                current < self.tasks@.len(),
                cur_prio == self.tasks@[current as int].priority,
                t matches Some(x) ==> x < self.tasks@.len(),
                forall|i: int|
                    upto(t) <= i < self.tasks@.len() && i != current && (#[trigger] self.tasks@[i]).state is Ready
                        ==> self.tasks@[i].priority != cur_prio,
            decreases upto(t),
        {
            let x: usize = t.unwrap();
            if x != current && matches!(self.tasks[x].state, TaskState::Ready { .. })
                && self.tasks[x].priority == cur_prio {
                return true;
            }
            t = self.tasks[x].all_next;
        }
        false
    }

    /// Mark the current task as blocked.
    pub fn block_current(&mut self)
        requires
            old(self).wf(),
            old(self).current is Some,
        ensures
            final(self).wf(),
            final(self).tasks@ == old(self).tasks@.update(
                old(self).current->0 as int,
                Tcb { state: TaskState::Blocked, ..old(self).tasks@[old(self).current->0 as int] },
            ),
            final(self).same_but_tasks(*old(self)),
            final(self).pendsv == old(self).pendsv,
    {
        let c: usize = self.current.unwrap();
        self.tasks[c].state = TaskState::Blocked;
    }

    /// Mark the task `id` as ready with a full time slice.
    ///
    /// Returns `true` when it outranks the current task, so that a context
    /// switch is due.
    pub fn unblock(&mut self, id: usize) -> (r: bool)
        requires
            old(self).wf(),
            old(self).current is Some,
            id < old(self).tasks@.len(),
        ensures
            final(self).wf(),
            final(self).tasks@ == WaitList::readied(old(self).tasks@, id),
            final(self).same_but_tasks(*old(self)),
            final(self).pendsv == old(self).pendsv,
            r == (old(self).tasks@[id as int].priority
                < old(self).tasks@[old(self).current->0 as int].priority),
    {
        let c: usize = self.current.unwrap();
        let full: u8 = self.tasks[id].time_slice;
        self.tasks[id].state = TaskState::Ready { slice_remaining: full };
        self.tasks[id].priority < self.tasks[c].priority
    }

    /// Select and activate the first task at launch, and return its stack
    /// pointer.
    pub fn svc_first_task_sp(&mut self) -> (sp: usize)
        requires
            old(self).wf(),
            old(self).current is None,
            old(self).has_runnable(),
        ensures
            final(self).wf(),
            final(self).running(),
            old(self).launched(*final(self), sp),
            forall|l: WaitList| old(self).holds(l) ==> #[trigger] final(self).holds(l),
            forall|i: int|
                0 <= i < old(self).tasks@.len() && runnable(old(self).tasks@[i]) ==> #[trigger] runnable(
                    final(self).tasks@[i],
                ),
            final(self).all_tasks == old(self).all_tasks,
            final(self).tick == old(self).tick,
            final(self).pendsv == old(self).pendsv,
    {
        let best: usize = self.find_next();
        self.activate(best)
    }

    /// Save the stack pointer of the task that leaves the CPU, select the next
    /// task, and return its stack pointer.
    pub fn pendsv_save_and_switch(&mut self, current_sp: usize) -> (sp: usize)
        requires
            old(self).wf(),
            old(self).current is Some,
            old(self).has_runnable(),
        ensures
            final(self).wf(),
            final(self).running(),
            !final(self).pendsv,
            forall|l: WaitList| old(self).holds(l) ==> #[trigger] final(self).holds(l),
            forall|i: int|
                0 <= i < old(self).tasks@.len() && runnable(old(self).tasks@[i]) ==> #[trigger] runnable(
                    final(self).tasks@[i],
                ),
            old(self).switched(*final(self), current_sp, sp),
            final(self).all_tasks == old(self).all_tasks,
            final(self).tick == old(self).tick,
    {
        let old_task: usize = self.current.unwrap();
        proof {
            let x = choose|x: int|
                0 <= x < self.tasks@.len() && #[trigger] runnable(self.tasks@[x]);
            assert(runnable(switched_out(self.tasks@, old_task as int, current_sp)[x]));
        }
        self.tasks[old_task].sp = current_sp;
        if let TaskState::Running { slice_remaining } = self.tasks[old_task].state {
            self.tasks[old_task].state = TaskState::Ready { slice_remaining };
        }
        assert(self.tasks@ =~= switched_out(old(self).tasks@, old_task as int, current_sp));
        let next: usize = self.find_next();
        self.pendsv = false;
        self.activate(next)
    }

    /// Put the ready task `b` on the CPU and return its stack pointer.
    fn activate(&mut self, b: usize) -> (sp: usize)
        requires
            old(self).all_linked(),
            b < old(self).tasks@.len(),
            old(self).tasks@[b as int].state is Ready,
            forall|i: int|
                0 <= i < old(self).tasks@.len() ==> !((#[trigger] old(
                    self,
                ).tasks@[i]).state is Running),
        ensures
            final(self).wf(),
            final(self).current == Some(b),
            final(self).tasks@ == switched_in(old(self).tasks@, b as int),
            sp == old(self).tasks@[b as int].sp,
            final(self).all_tasks == old(self).all_tasks,
            final(self).tick == old(self).tick,
            final(self).pendsv == old(self).pendsv,
    {
        self.current = Some(b);
        if let TaskState::Ready { slice_remaining } = self.tasks[b].state {
            self.tasks[b].state = TaskState::Running { slice_remaining };
        }
        self.tasks[b].sp
    }
}

/// How many tasks are still ahead of a walk down the list of all tasks.
spec fn upto(t: Option<usize>) -> int {
    match t {
        Some(x) => x + 1,
        None => 0,
    }
}

/// A sleeper wakes exactly when the tick counter has reached its deadline, with
/// a full time slice; a tick changes nothing else about it.
pub proof fn law_sleeper_wakes_when_due(t: Tcb, deadline: u64, now: u64)
    requires
        t.state == TaskState::Sleeping(deadline),
    ensures
        now < deadline ==> awoken(t, now) == t,
        now >= deadline ==> awoken(t, now) == (Tcb {
            state: TaskState::Ready { slice_remaining: t.time_slice },
            ..t
        }),
{
}

/// At most one task is running.
pub proof fn law_one_task_runs(k: Kernel, i: int, j: int)
    requires
        k.wf(),
        0 <= i < k.tasks@.len(),
        0 <= j < k.tasks@.len(),
        k.tasks@[i].state is Running,
        k.tasks@[j].state is Running,
    ensures
        i == j,
{
}

/// Fixed priorities: no runnable task outranks the one that is picked.
pub proof fn law_next_is_highest(tasks: Seq<Tcb>, current: Option<usize>, b: int, x: int)
    requires
        is_next(tasks, current, b),
        0 <= x < tasks.len(),
        runnable(tasks[x]),
    ensures
        tasks[b].priority <= tasks[x].priority,
{
}

/// Round robin: the current task is picked again only if no other task of its
/// priority or above is runnable.
pub proof fn law_round_robin(tasks: Seq<Tcb>, c: usize, b: int, x: int)
    requires
        c < tasks.len(),
        is_next(tasks, Some(c), b),
        0 <= x < tasks.len(),
        x != c,
        runnable(tasks[x]),
        tasks[x].priority <= tasks[c as int].priority,
    ensures
        b != c,
{
}

/// The choice is unambiguous.
pub proof fn law_next_is_unique(tasks: Seq<Tcb>, current: Option<usize>, a: int, b: int)
    requires
        current matches Some(c) ==> c < tasks.len(),
        is_next(tasks, current, a),
        is_next(tasks, current, b),
    ensures
        a == b,
{
    assert(runnable(tasks[a]) && runnable(tasks[b]));
}

/// While the idle task can run, the scheduler has a task to pick.
pub proof fn law_idle_keeps_the_scheduler_busy(k: Kernel, idle: int)
    requires
        0 <= idle < k.tasks@.len(),
        runnable(k.tasks@[idle]),
    ensures
        k.has_runnable(),
{
}

/// After a switch no ready task outranks the one that runs.
pub proof fn law_switch_restores_priority_order(tasks: Seq<Tcb>, current: Option<usize>, b: int)
    requires
        is_next(tasks, current, b),
        tasks[b].state is Ready,
    ensures
        !outranked(switched_in(tasks, b), b),
{
    let after = switched_in(tasks, b);
    assert forall|i: int|
        0 <= i < after.len() && i != b && (#[trigger] after[i]).state is Ready implies !(
    after[i].priority < after[b].priority) by {
        assert(runnable(tasks[i]));
    }
}

/// A tick that requests no switch leaves no ready task that outranks the running
/// one: an inversion of priorities never outlives a tick.
pub proof fn law_tick_notices_every_higher_priority(k: Kernel)
    requires
        k.wf(),
        k.running(),
        !k.switch_due(),
    ensures
        !outranked(k.ticked(), k.current->0 as int),
{
    let c = k.current->0 as int;
    let woken = k.woken_at_tick();
    let after = k.ticked();
    assert forall|i: int|
        0 <= i < after.len() && i != c && (#[trigger] after[i]).state is Ready implies !(
    after[i].priority < after[c].priority) by {
        assert(after[i] == woken[i]);
    }
}

/// The running task after `n` ticks in which nothing else happened to it.
pub open spec fn charged_times(t: Tcb, n: nat) -> Tcb
    decreases n,
{
    if n == 0 {
        t
    } else {
        charged(charged_times(t, (n - 1) as nat))
    }
}

/// A task that starts with a slice of `s` ticks uses it up with the `s`-th tick,
/// and not before.
pub proof fn law_quantum(t: Tcb, s: u8, n: nat)
    requires
        t.state == (TaskState::Running { slice_remaining: s }),
        n < s,
    ensures
        charged_times(t, n).state == (TaskState::Running { slice_remaining: (s - n) as u8 }),
        expires(charged_times(t, n)) <==> n == s - 1,
    decreases n,
{
    if n > 0 {
        law_quantum(t, s, (n - 1) as nat);
    }
}

/// The task behind `x` on the list of all tasks, which goes on at its front when
/// it has come to its end.
pub open spec fn behind(k: Kernel, x: usize) -> usize {
    match k.tasks@[x as int].all_next {
        Some(y) => y,
        None => k.all_tasks->0,
    }
}

/// `walk` goes once along the list of all tasks, starting behind the current task,
/// or at the front before the first launch.
pub open spec fn walks_all(k: Kernel, walk: Seq<usize>) -> bool {
    &&& walk.len() == k.tasks@.len()
    &&& walk.len() > 0 ==> walk[0] == (match k.current {
        Some(c) => behind(k, c),
        None => k.all_tasks->0,
    })
    &&& forall|i: int, j: int|
        0 <= i && j == i + 1 && j < walk.len() ==> #[trigger] walk[j] == behind(
            k,
            #[trigger] walk[i],
        )
}

/// The place of a task on the walk is its turn.
proof fn lemma_walk_is_in_turn(k: Kernel, walk: Seq<usize>, i: int)
    requires
        k.wf(),
        walks_all(k, walk),
        0 <= i < walk.len(),
    ensures
        walk[i] < k.tasks@.len(),
        turn(k.current, k.tasks@.len(), walk[i] as int) == i,
    decreases i,
{
    if i > 0 {
        lemma_walk_is_in_turn(k, walk, i - 1);
        assert(walk[i] == behind(k, walk[i - 1]));
    }
}

/// The task to run next is the first one that a walk along the list of all tasks,
/// from behind the current task and around, meets among the runnable tasks of the
/// highest priority; the current task comes last.
pub proof fn law_next_is_the_first_on_the_walk(k: Kernel, walk: Seq<usize>, b: int)
    requires
        k.wf(),
        walks_all(k, walk),
        is_next(k.tasks@, k.current, b),
    ensures
        k.tasks@[b].state is Ready || k.tasks@[b].state is Running,
        exists|i: int|
            0 <= i < walk.len() && walk[i] == b && forall|j: int|
                0 <= j < walk.len() && (k.tasks@[#[trigger] walk[j] as int].state is Ready
                    || k.tasks@[walk[j] as int].state is Running) ==> {
                    ||| k.tasks@[b].priority < k.tasks@[walk[j] as int].priority
                    ||| k.tasks@[b].priority == k.tasks@[walk[j] as int].priority && i <= j
                },
{
    let n = k.tasks@.len() as int;
    let i = turn(k.current, k.tasks@.len(), b);
    assert(0 <= i < n);
    lemma_walk_is_in_turn(k, walk, i);
    assert(walk[i] == b);
    assert forall|j: int|
        0 <= j < walk.len() && (k.tasks@[#[trigger] walk[j] as int].state is Ready
            || k.tasks@[walk[j] as int].state is Running) implies {
        ||| k.tasks@[b].priority < k.tasks@[walk[j] as int].priority
        ||| k.tasks@[b].priority == k.tasks@[walk[j] as int].priority && i <= j
    } by {
        lemma_walk_is_in_turn(k, walk, j);
        assert(runnable(k.tasks@[walk[j] as int]));
    }
}

/// The tasks of `tier`, given in spawn order, can all run and share a priority that
/// no other task that can run comes up to.
pub open spec fn leads(tasks: Seq<Tcb>, tier: Seq<usize>) -> bool {
    &&& tier.len() > 0
    &&& forall|i: int, j: int| 0 <= i < j < tier.len() ==> #[trigger] tier[i] < #[trigger] tier[j]
    &&& forall|i: int|
        0 <= i < tier.len() ==> (#[trigger] tier[i]) < tasks.len() && (
        tasks[tier[i] as int].state is Ready || tasks[tier[i] as int].state is Running)
    &&& forall|i: int, j: int|
        0 <= i < tier.len() && 0 <= j < tier.len() ==> tasks[#[trigger] tier[i] as int].priority
            == tasks[#[trigger] tier[j] as int].priority
    &&& forall|x: int, i: int|
        0 <= x < tasks.len() && 0 <= i < tier.len() && !tier.contains(x as usize) && (
        #[trigger] tasks[x].state is Ready || tasks[x].state is Running)
            ==> tasks[#[trigger] tier[i] as int].priority < tasks[x].priority
}

/// `picks` is what a series of switches picks: each from a task table of its own,
/// with the task before it as the current one, and always with the same tasks in
/// the lead.
pub open spec fn picked_in_turn(
    tables: Seq<Seq<Tcb>>,
    picks: Seq<usize>,
    tier: Seq<usize>,
) -> bool {
    &&& picks.len() == tables.len() + 1
    &&& forall|m: int|
        #![trigger tables[m]]
        0 <= m < tables.len() ==> {
            &&& leads(tables[m], tier)
            &&& picks[m] < tables[m].len()
            &&& is_next(tables[m], Some(picks[m]), picks[m + 1] as int)
        }
}

/// The pick that follows the current task `c`: of the tier, the one spawned last
/// before it, or the last of all where there is none before it.
proof fn lemma_pick(tasks: Seq<Tcb>, tier: Seq<usize>, c: usize, b: usize) -> (i: int)
    requires
        leads(tasks, tier),
        c < tasks.len(),
        is_next(tasks, Some(c), b as int),
    ensures
        0 <= i < tier.len(),
        tier[i] == b,
        forall|j: int| i < j < tier.len() ==> #[trigger] tier[j] >= c || b >= c,
        b >= c ==> i == tier.len() - 1 && forall|j: int|
            0 <= j < tier.len() ==> #[trigger] tier[j] >= c,
{
    assert(runnable(tasks[tier[0] as int]));
    assert(tasks[b as int].state is Ready || tasks[b as int].state is Running);
    assert(tier.contains(b as int as usize));
    let i = choose|i: int| 0 <= i < tier.len() && tier[i] == b;
    assert forall|j: int| 0 <= j < tier.len() implies turn(Some(c), tasks.len(), b as int)
        <= turn(Some(c), tasks.len(), #[trigger] tier[j] as int) by {
        assert(runnable(tasks[tier[j] as int]));
        assert(tasks[tier[i] as int].priority == tasks[tier[j] as int].priority);
    }
    let last = tier.len() - 1;
    if b >= c && i < last {
        assert(tier[i] < tier[last]);
    }
    i
}

/// Within fewer steps than the tier has tasks, the picks go down the tier and on
/// from its end.
proof fn lemma_picks_go_down(
    tables: Seq<Seq<Tcb>>,
    picks: Seq<usize>,
    tier: Seq<usize>,
    m: int,
    at: int,
    d: int,
)
    requires
        picked_in_turn(tables, picks, tier),
        0 <= d < tier.len(),
        0 <= m,
        m + d < picks.len(),
        0 <= at < tier.len(),
        picks[m] == tier[at],
    ensures
        picks[m + d] == tier[if d <= at {
            at - d
        } else {
            at - d + tier.len()
        }],
    decreases d,
{
    if d > 0 {
        lemma_picks_go_down(tables, picks, tier, m, at, d - 1);
        let was = if d - 1 <= at {
            at - (d - 1)
        } else {
            at - (d - 1) + tier.len()
        };
        assert(leads(tables[m + d - 1], tier));
        let now = lemma_pick(tables[m + d - 1], tier, picks[m + d - 1], picks[m + d]);
        if was > 0 {
            assert(tier[was - 1] < tier[was]);
            assert(now < was) by {
                if now > was {
                    assert(tier[was] < tier[now]);
                }
            }
            if now < was - 1 {
                assert(tier[was - 1] >= picks[m + d - 1] || picks[m + d] >= picks[m + d - 1]);
                assert(tier[now] < tier[was]);
            }
        } else {
            assert(now > 0 ==> tier[0] < tier[now]);
        }
    }
}

/// Round robin is fair: while the same `n` tasks share the highest priority and can
/// run, any `n` switches in a row pick each of them exactly once, and nobody else.
pub proof fn law_round_robin_is_fair(
    tables: Seq<Seq<Tcb>>,
    picks: Seq<usize>,
    tier: Seq<usize>,
    m: int,
)
    requires
        picked_in_turn(tables, picks, tier),
        tier.len() > 0,
        0 <= m,
        m + tier.len() < picks.len(),
    ensures
        forall|j: int| m < j <= m + tier.len() ==> tier.contains(#[trigger] picks[j]),
        forall|x: usize| #[trigger]
            tier.contains(x) ==> exists|j: int| m < j <= m + tier.len() && picks[j] == x,
        forall|i: int, j: int|
            m < i < j <= m + tier.len() ==> #[trigger] picks[i] != #[trigger] picks[j],
{
    let n = tier.len() as int;
    assert(leads(tables[m], tier));
    let at = lemma_pick(tables[m], tier, picks[m], picks[m + 1]);
    assert forall|j: int| m < j <= m + n implies #[trigger] picks[j] == tier[if j - m - 1 <= at {
        at - (j - m - 1)
    } else {
        at - (j - m - 1) + n
    }] by {
        lemma_picks_go_down(tables, picks, tier, m + 1, at, j - m - 1);
    }
    assert forall|x: usize| #[trigger] tier.contains(x) implies exists|j: int|
        m < j <= m + n && picks[j] == x by {
        let i = choose|i: int| 0 <= i < tier.len() && tier[i] == x;
        let j = m + 1 + if i <= at {
            at - i
        } else {
            at - i + n
        };
        assert(picks[j] == x);
    }
}

/// A tick adds one to a counter that starts over after 64 bits.
pub proof fn law_tick_counts(k: Kernel)
    ensures
        next_tick(k.tick) == (k.tick + 1) % (u64::MAX + 1),
{
    if k.tick < u64::MAX {
        vstd::arithmetic::div_mod::lemma_small_mod((k.tick + 1) as nat, (u64::MAX + 1) as nat);
    } else {
        vstd::arithmetic::div_mod::lemma_mod_self_0(u64::MAX + 1);
    }
}

/// While a task runs, a tick wakes every other task that sleeps and is due,
/// whatever its priority, with a full time slice; it leaves all others but the
/// running one alone, those that are not due yet among them.
pub proof fn law_tick_wakes_whoever_is_due(k: Kernel, i: int)
    requires
        k.wf(),
        k.running(),
        0 <= i < k.tasks@.len(),
        k.current != Some(i as usize),
    ensures
        k.ticked().len() == k.tasks@.len(),
        match k.tasks@[i].state {
            TaskState::Sleeping(d) => if d <= (k.tick + 1) % (u64::MAX + 1) {
                k.ticked()[i] == (Tcb {
                    state: TaskState::Ready { slice_remaining: k.tasks@[i].time_slice },
                    ..k.tasks@[i]
                })
            } else {
                k.ticked()[i] == k.tasks@[i]
            },
            _ => k.ticked()[i] == k.tasks@[i],
        },
{
    law_tick_counts(k);
}

/// A tick charges the running task, and that task alone: one tick is taken off its
/// slice, which starts anew once it is used up. A task that is about to be preempted
/// keeps what it has left.
pub proof fn law_tick_charges_the_running_task(k: Kernel, slice: u8)
    requires
        k.wf(),
        k.running(),
        k.tasks@[k.current->0 as int].state == (TaskState::Running { slice_remaining: slice }),
    ensures
        ({
            let c = k.current->0 as int;
            let t = k.tasks@[c];
            let after = k.ticked();
            let preempted = exists|i: int|
                0 <= i < after.len() && (#[trigger] after[i]).state is Ready && after[i].priority
                    < t.priority;
            after[c] == (Tcb {
                state: TaskState::Running {
                    slice_remaining: if preempted {
                        slice
                    } else if slice > 1 {
                        (slice - 1) as u8
                    } else {
                        t.time_slice
                    },
                },
                ..t
            })
        }),
{
    lemma_same_rivals(k);
}

/// After a tick the same tasks are ready as when the sleepers had just been woken.
proof fn lemma_same_rivals(k: Kernel)
    requires
        k.wf(),
        k.running(),
    ensures
        ({
            let c = k.current->0 as int;
            let woken = k.woken_at_tick();
            let after = k.ticked();
            &&& after.len() == k.tasks@.len()
            &&& after[c].priority == k.tasks@[c].priority
            &&& outranked(woken, c) == exists|i: int|
                0 <= i < after.len() && (#[trigger] after[i]).state is Ready && after[i].priority
                    < k.tasks@[c].priority
            &&& has_peer(woken, c) == exists|i: int|
                0 <= i < after.len() && (#[trigger] after[i]).state is Ready && after[i].priority
                    == k.tasks@[c].priority
        }),
{
    let c = k.current->0 as int;
    let woken = k.woken_at_tick();
    let after = k.ticked();
    let p = k.tasks@[c].priority;
    assert(woken[c] == k.tasks@[c]);
    assert(!(after[c].state is Ready));
    assert forall|i: int| 0 <= i < after.len() && i != c implies #[trigger] after[i] == woken[i] by {}
    if outranked(woken, c) {
        let i = choose|i: int|
            0 <= i < woken.len() && i != c && (#[trigger] woken[i]).state is Ready
                && woken[i].priority < woken[c].priority;
        assert(after[i].state is Ready && after[i].priority < p);
    }
    if has_peer(woken, c) {
        let i = choose|i: int|
            0 <= i < woken.len() && i != c && (#[trigger] woken[i]).state is Ready
                && woken[i].priority == woken[c].priority;
        assert(after[i].state is Ready && after[i].priority == p);
    }
    if exists|i: int|
        0 <= i < after.len() && (#[trigger] after[i]).state is Ready && after[i].priority < p {
        let i = choose|i: int|
            0 <= i < after.len() && (#[trigger] after[i]).state is Ready && after[i].priority < p;
        assert(woken[i] == after[i]);
    }
    if exists|i: int|
        0 <= i < after.len() && (#[trigger] after[i]).state is Ready && after[i].priority == p {
        let i = choose|i: int|
            0 <= i < after.len() && (#[trigger] after[i]).state is Ready && after[i].priority == p;
        assert(woken[i] == after[i]);
    }
}

/// A tick calls for a switch exactly when the table it leaves holds a ready task of
/// a higher priority than the running one, or when the running one has used up its
/// slice and the table holds a ready task of the same priority.
pub proof fn law_tick_requests_a_switch_when_due(k: Kernel, slice: u8)
    requires
        k.wf(),
        k.running(),
        k.tasks@[k.current->0 as int].state == (TaskState::Running { slice_remaining: slice }),
    ensures
        ({
            let p = k.tasks@[k.current->0 as int].priority;
            let after = k.ticked();
            k.switch_due() == ((exists|i: int|
                0 <= i < after.len() && (#[trigger] after[i]).state is Ready && after[i].priority
                    < p) || slice <= 1 && exists|i: int|
                0 <= i < after.len() && (#[trigger] after[i]).state is Ready && after[i].priority
                    == p)
        }),
{
    lemma_same_rivals(k);
}

/// While no task runs, a tick moves the counter and nothing else.
pub proof fn law_tick_without_a_running_task(k: Kernel)
    requires
        k.current matches Some(c) ==> c < k.tasks@.len() && !(k.tasks@[c as int].state is Running),
    ensures
        k.ticked() == k.tasks@,
        !k.switch_due(),
{
}

/// `ticks` is what a run of ticks makes of a kernel, with the same task running all
/// the time.
pub open spec fn ticks_by(ticks: Seq<Kernel>, c: usize) -> bool {
    &&& forall|m: int|
        0 <= m < ticks.len() ==> (#[trigger] ticks[m]).wf() && ticks[m].running()
            && ticks[m].current == Some(c)
    &&& forall|m: int, n: int|
        0 <= m && n == m + 1 && n < ticks.len() ==> {
            &&& (#[trigger] ticks[n]).tasks@ == (#[trigger] ticks[m]).ticked()
            &&& ticks[n].tick == next_tick(ticks[m].tick)
        }
}

/// A task that sleeps beside a running one is asleep for as many ticks as its
/// deadline lies ahead, and ready with the last of them.
pub proof fn law_sleep_ends_with_its_deadline(
    ticks: Seq<Kernel>,
    c: usize,
    t: int,
    deadline: u64,
    m: int,
)
    requires
        ticks_by(ticks, c),
        0 <= m < ticks.len(),
        0 <= t < ticks[0].tasks@.len(),
        t != c,
        ticks[0].tasks@[t].state == TaskState::Sleeping(deadline),
        ticks[0].tick < deadline,
        m <= deadline - ticks[0].tick,
    ensures
        ticks[m].tasks@.len() == ticks[0].tasks@.len(),
        ticks[m].tick == ticks[0].tick + m,
        ticks[m].tasks@[t].time_slice == ticks[0].tasks@[t].time_slice,
        ticks[m].tasks@[t].state == (if m < deadline - ticks[0].tick {
            TaskState::Sleeping(deadline)
        } else {
            TaskState::Ready { slice_remaining: ticks[0].tasks@[t].time_slice }
        }),
    decreases m,
{
    if m > 0 {
        law_sleep_ends_with_its_deadline(ticks, c, t, deadline, m - 1);
        assert(ticks[m].tasks@ == ticks[m - 1].ticked());
        law_tick_wakes_whoever_is_due(ticks[m - 1], t);
        law_tick_counts(ticks[m - 1]);
    }
}

/// A switch keeps every task as it was but for the two that change places: the one
/// that leaves the CPU keeps its stack pointer and what is left of its slice, and is
/// ready unless it has blocked, gone to sleep or exited; the one that comes runs on
/// with what it had left, from its own stack pointer.
pub proof fn law_switch_changes_places(k: Kernel, k_after: Kernel, saved: usize, sp: usize)
    requires
        k.wf(),
        k.current is Some,
        k.switched(k_after, saved, sp),
    ensures
        ({
            let c = k.current->0 as int;
            let b = k_after.current->0 as int;
            let before = k.tasks@;
            let after = k_after.tasks@;
            &&& k_after.current is Some
            &&& 0 <= b < before.len()
            &&& after.len() == before.len()
            &&& forall|i: int|
                0 <= i < before.len() && i != c && i != b ==> #[trigger] after[i] == before[i]
            &&& b == c ==> match before[c].state {
                TaskState::Running { slice_remaining } | TaskState::Ready {
                    slice_remaining,
                } => after[c] == (Tcb {
                    sp: saved,
                    state: TaskState::Running { slice_remaining },
                    ..before[c]
                }),
                _ => false,
            }
            &&& b != c ==> {
                &&& before[b].state matches TaskState::Ready { slice_remaining } && after[b] == (
                Tcb { state: TaskState::Running { slice_remaining }, ..before[b] })
                &&& after[c] == (Tcb {
                    sp: saved,
                    state: match before[c].state {
                        TaskState::Running { slice_remaining } => TaskState::Ready {
                            slice_remaining,
                        },
                        other => other,
                    },
                    ..before[c]
                })
            }
            &&& sp == after[b].sp
            &&& forall|i: int|
                0 <= i < after.len() ==> (#[trigger] after[i].state is Running <==> i == b)
        }),
{
}

/// A switch puts a task on the CPU that nobody who could run outranks; the task that
/// has left is among them only if it could go on.
pub proof fn law_switch_runs_the_highest(
    k: Kernel,
    k_after: Kernel,
    saved: usize,
    sp: usize,
    x: int,
)
    requires
        k.wf(),
        k.current is Some,
        k.switched(k_after, saved, sp),
        0 <= x < k.tasks@.len(),
        k.tasks@[x].state is Ready || k.tasks@[x].state is Running,
    ensures
        k.tasks@[k_after.current->0 as int].priority <= k.tasks@[x].priority,
{
    let out = switched_out(k.tasks@, k.current->0 as int, saved);
    assert(runnable(out[x]));
}

/// The first launch runs a ready task of the highest priority, the latest spawned of
/// those that share it, and touches no other.
pub proof fn law_launch_runs_the_highest(k: Kernel, k_after: Kernel, sp: usize, x: int)
    requires
        k.wf(),
        k.current is None,
        k.launched(k_after, sp),
        0 <= x < k.tasks@.len(),
    ensures
        ({
            let b = k_after.current->0 as int;
            &&& k_after.current is Some
            &&& 0 <= b < k.tasks@.len()
            &&& sp == k.tasks@[b].sp
            &&& k.tasks@[b].state matches TaskState::Ready { slice_remaining }
                && k_after.tasks@[b] == (Tcb {
                state: TaskState::Running { slice_remaining },
                ..k.tasks@[b]
            })
            &&& x != b ==> k_after.tasks@[x] == k.tasks@[x]
            &&& k.tasks@[x].state is Ready ==> k.tasks@[b].priority <= k.tasks@[x].priority
            &&& k.tasks@[x].state is Ready && x > b ==> k.tasks@[b].priority < k.tasks@[x].priority
        }),
{
    assert(runnable(k.tasks@[x]) ==> preferred(k.tasks@, None, k_after.current->0 as int, x));
}

} // verus!
