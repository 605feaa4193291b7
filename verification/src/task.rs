use crate::arch::ArchContext;
use crate::kernel::tcb::{TaskState, Tcb};
use crate::kernel::wait_list::WaitList;
use crate::kernel::Kernel;
use crate::timer::Duration;
use vstd::prelude::*;

verus! {

/// A task ready to be registered with the kernel.
pub struct SpawnToken {
    /// The control block to fill in.
    pub tcb: Tcb,
    /// Address of the lowest stack word.
    pub stack_base: usize,
    /// Stack size in words.
    pub stack_len: usize,
    /// Scheduling priority.
    pub priority: u8,
    /// Round-robin quantum in ticks.
    pub time_slice: u8,
    /// Address of the task function.
    pub entry: usize,
    /// Human-readable name.
    pub name: &'static str,
}

impl SpawnToken {
    /// Construct a token.
    pub fn new(
        tcb: Tcb,
        stack_base: usize,
        stack_len: usize,
        priority: u8,
        time_slice: u8,
        entry: usize,
        name: &'static str,
    ) -> (r: SpawnToken)
        ensures
            r == (SpawnToken {
                tcb,
                stack_base,
                stack_len,
                priority,
                time_slice,
                entry,
                name,
            }),
    {
        SpawnToken { tcb, stack_base, stack_len, priority, time_slice, entry, name }
    }
}

/// Spawn helper.
pub struct Spawner;

impl Spawner {
    /// The tasks of the user: all but the idle task, which is registered right
    /// before the first launch.
    pub open spec fn user_tasks(k: Kernel) -> int {
        k.tasks@.len() - (if k.current is Some {
            1int
        } else {
            0
        })
    }

    /// Whether one more task of the user stays within `max_tasks`, if there is
    /// such a limit.
    pub fn has_room(&self, k: &Kernel, max_tasks: Option<usize>) -> (r: bool)
        requires
            k.wf(),
        ensures
            r == (max_tasks matches Some(max) ==> Self::user_tasks(*k) < max),
    {
        match max_tasks {
            None => true,
            Some(max) => if k.current.is_some() {
                k.tasks.len() <= max
            } else {
                k.tasks.len() < max
            },
        }
    }

    /// Register one task, with its stack and the address of the code that
    /// catches tasks that return.
    pub fn spawn<A: ArchContext>(
        &self,
        k: &mut Kernel,
        token: SpawnToken,
        stack: &mut [u32],
        exit: usize,
    )
        requires
            old(k).wf(),
            old(stack)@.len() == token.stack_len,
            token.stack_len >= 21,
            token.stack_base + 4 * token.stack_len <= usize::MAX,
        ensures
            final(k).wf(),
            spawned(
                *old(k),
                *final(k),
                (token.stack_base + 4 * (token.stack_len - 17)) as usize,
                token.stack_base,
                token.priority,
                token.time_slice,
                token.name,
            ),
            forall|l: WaitList| old(k).holds(l) ==> #[trigger] final(k).holds(l),
            final(stack)@ == crate::arch::framed(
                crate::arch::guarded(old(stack)@),
                token.entry,
                A::return_address(exit),
            ),
    {
        spawn_into::<A>(
            k,
            token.tcb,
            stack,
            token.stack_base,
            token.priority,
            token.time_slice,
            token.entry,
            exit,
            token.name,
        )
    }
}

/// The kernel after one more task has been registered: it is ready, at the
/// front of the list of all tasks and on no wait list.
pub open spec fn spawned(
    k: Kernel,
    k_after: Kernel,
    sp: usize,
    stack_base: usize,
    priority: u8,
    time_slice: u8,
    name: &'static str,
) -> bool {
    &&& k_after.tasks@ == k.tasks@.push(
        Tcb {
            sp,
            state: TaskState::Ready { slice_remaining: time_slice },
            priority,
            base_priority: priority,
            time_slice,
            stack_base,
            name,
            wait_next: None,
            all_next: k.all_tasks,
            wait_ptr: 0,
        },
    )
    &&& k_after.all_tasks == Some(k.tasks@.len() as usize)
    &&& k_after.current == k.current
    &&& k_after.tick == k.tick
    &&& k_after.pendsv == k.pendsv
}

/// Initialise the control block and the stack of a task, and put it at the front
/// of the list of all tasks.
pub fn spawn_into<A: ArchContext>(
    k: &mut Kernel,
    tcb: Tcb,
    stack: &mut [u32],
    stack_base: usize,
    priority: u8,
    time_slice: u8,
    entry: usize,
    exit: usize,
    name: &'static str,
)
    requires
        old(k).wf(),
        old(stack)@.len() >= 21,
        stack_base + 4 * old(stack)@.len() <= usize::MAX,
    ensures
        final(k).wf(),
        spawned(
            *old(k),
            *final(k),
            (stack_base + 4 * (old(stack)@.len() - 17)) as usize,
            stack_base,
            priority,
            time_slice,
            name,
        ),
        forall|l: WaitList| old(k).holds(l) ==> #[trigger] final(k).holds(l),
        final(stack)@ == crate::arch::framed(
            crate::arch::guarded(old(stack)@),
            entry,
            A::return_address(exit),
        ),
{
    A::canary_init(stack);
    let sp: usize = A::stack_init(stack, stack_base, entry, exit);

    let mut tcb = tcb;
    tcb.sp = sp;
    tcb.state = TaskState::Ready { slice_remaining: time_slice };
    tcb.priority = priority;
    tcb.base_priority = priority;
    tcb.time_slice = time_slice;
    tcb.stack_base = stack_base;
    tcb.name = name;
    tcb.wait_next = None;
    tcb.wait_ptr = 0;
    tcb.all_next = k.all_tasks;

    let id: usize = k.tasks.len();
    k.tasks.push(tcb);
    k.all_tasks = Some(id);
}

/// The task table once the current task has used up its time slice.
pub open spec fn yielded(k: Kernel) -> Seq<Tcb> {
    k.tasks@.update(
        k.current->0 as int,
        Tcb {
            state: TaskState::Running { slice_remaining: 0 },
            ..k.tasks@[k.current->0 as int]
        },
    )
}

/// Voluntarily yield the CPU to the next runnable task.
///
/// The time slice of the calling task is used up, and a context switch is
/// requested. If no other task of the same or a higher priority is ready, the
/// calling task is scheduled again at once.
pub fn yield_now(k: &mut Kernel)
    requires
        old(k).wf(),
        old(k).running(),
    ensures
        final(k).wf(),
        final(k).tasks@ == yielded(*old(k)),
        final(k).same_but_tasks(*old(k)),
        final(k).pendsv,
        forall|l: WaitList| old(k).holds(l) ==> #[trigger] final(k).holds(l),
{
    let c: usize = k.current.unwrap();
    if matches!(k.tasks[c].state, TaskState::Running { .. }) {
        k.tasks[c].state = TaskState::Running { slice_remaining: 0 };
    }
    k.trigger_pendsv();
}

/// The priority that a task was spawned with.
pub open spec fn static_priority(t: Tcb) -> u8 {
    t.base_priority
}

/// The static priority of the current task, whatever it has inherited.
///
/// Lower numbers are higher priorities; `u8::MAX` is reserved for the idle task.
pub fn current_priority(k: &Kernel) -> (r: u8)
    requires
        k.wf(),
        k.current is Some,
    ensures
        r == static_priority(k.tasks@[k.current->0 as int]),
{
    k.tasks[k.current.unwrap()].base_priority
}

/// The tick counter `d` ticks after `now`.
pub open spec fn deadline_after(now: u64, d: Duration) -> u64 {
    if now + d.0 > u64::MAX {
        (now + d.0 - u64::MAX - 1) as u64
    } else {
        (now + d.0) as u64
    }
}

/// Block the calling task for at least `duration`.
///
/// It sleeps until the tick counter reaches `now + duration`. A duration of zero
/// yields the CPU until the next tick.
pub fn sleep(k: &mut Kernel, duration: Duration)
    requires
        old(k).wf(),
        old(k).running(),
    ensures
        final(k).wf(),
        final(k).tasks@ == asleep(*old(k), deadline_after(old(k).tick, duration)),
        final(k).same_but_tasks(*old(k)),
        final(k).pendsv,
        forall|l: WaitList| old(k).holds(l) ==> #[trigger] final(k).holds(l),
{
    let deadline: u64 = k.tick.wrapping_add(duration.as_ticks());
    sleep_until(k, deadline);
}

/// The task table once the current task has gone to sleep until `deadline`.
pub open spec fn asleep(k: Kernel, deadline: u64) -> Seq<Tcb> {
    k.tasks@.update(
        k.current->0 as int,
        Tcb { state: TaskState::Sleeping(deadline), ..k.tasks@[k.current->0 as int] },
    )
}

/// Block the calling task until the tick counter reaches `deadline`.
pub fn sleep_until(k: &mut Kernel, deadline: u64)
    requires
        old(k).wf(),
        old(k).running(),
    ensures
        final(k).wf(),
        final(k).tasks@ == asleep(*old(k), deadline),
        final(k).same_but_tasks(*old(k)),
        final(k).pendsv,
        forall|l: WaitList| old(k).holds(l) ==> #[trigger] final(k).holds(l),
{
    let c: usize = k.current.unwrap();
    k.tasks[c].state = TaskState::Sleeping(deadline);
    k.trigger_pendsv();
}

/// The task table once the current task has exited.
pub open spec fn exited(k: Kernel) -> Seq<Tcb> {
    k.tasks@.update(
        k.current->0 as int,
        Tcb { state: TaskState::Dead, ..k.tasks@[k.current->0 as int] },
    )
}

/// Terminate the current task.
///
/// It is never scheduled again; a context switch is requested.
pub fn exit(k: &mut Kernel)
    requires
        old(k).wf(),
        old(k).running(),
    ensures
        final(k).wf(),
        final(k).tasks@ == exited(*old(k)),
        final(k).same_but_tasks(*old(k)),
        final(k).pendsv,
        forall|l: WaitList| old(k).holds(l) ==> #[trigger] final(k).holds(l),
{
    let c: usize = k.current.unwrap();
    k.tasks[c].state = TaskState::Dead;
    k.trigger_pendsv();
}

/// A task that sleeps for `d` from `now` on is woken once the counter has
/// advanced by `d` ticks, and no earlier.
pub proof fn law_sleep_lasts_at_least(t: Tcb, now: u64, d: Duration, at: u64)
    requires
        now + d.0 <= u64::MAX,
        t.state == TaskState::Sleeping(deadline_after(now, d)),
    ensures
        crate::kernel::scheduler::awoken(t, at).state is Ready <==> at >= now + d.0,
{
}

/// A deadline lies as many ticks ahead as the duration has, on a counter that starts
/// over after 64 bits.
pub proof fn law_deadlines_wrap(now: u64, d: Duration)
    ensures
        deadline_after(now, d) == (now + d.0) % (u64::MAX + 1),
{
    let m = u64::MAX + 1;
    if now + d.0 < m {
        vstd::arithmetic::div_mod::lemma_small_mod((now + d.0) as nat, m as nat);
    } else {
        vstd::arithmetic::div_mod::lemma_mod_sub_multiples_vanish(now + d.0, m);
        vstd::arithmetic::div_mod::lemma_small_mod((now + d.0 - m) as nat, m as nat);
    }
}

/// A task that goes to sleep sleeps until its deadline, one that yields has no slice
/// left, one that exits is dead; nothing else about it changes, nor about any other.
pub proof fn law_leaving_the_cpu_changes_the_caller_alone(k: Kernel, deadline: u64, t: usize)
    requires
        k.running(),
        t < k.tasks@.len(),
    ensures
        k.current != Some(t) ==> {
            &&& asleep(k, deadline)[t as int] == k.tasks@[t as int]
            &&& yielded(k)[t as int] == k.tasks@[t as int]
            &&& exited(k)[t as int] == k.tasks@[t as int]
        },
        k.current == Some(t) ==> {
            &&& asleep(k, deadline)[t as int] == (Tcb {
                state: TaskState::Sleeping(deadline),
                ..k.tasks@[t as int]
            })
            &&& yielded(k)[t as int] == (Tcb {
                state: TaskState::Running { slice_remaining: 0 },
                ..k.tasks@[t as int]
            })
            &&& exited(k)[t as int] == (Tcb { state: TaskState::Dead, ..k.tasks@[t as int] })
        },
        asleep(k, deadline).len() == k.tasks@.len(),
        yielded(k).len() == k.tasks@.len(),
        exited(k).len() == k.tasks@.len(),
{
}

/// A task that yields gives the CPU to another one of the same or a higher priority,
/// if there is one that is ready.
pub proof fn law_yield_lets_others_run(
    k: Kernel,
    k_yielded: Kernel,
    k_after: Kernel,
    saved: usize,
    sp: usize,
    x: int,
)
    requires
        k.wf(),
        k.running(),
        k_yielded.tasks@ == yielded(k),
        k_yielded.current == k.current,
        k_yielded.switched(k_after, saved, sp),
        0 <= x < k.tasks@.len(),
        x != k.current->0,
        k.tasks@[x].state is Ready,
        k.tasks@[x].priority <= k.tasks@[k.current->0 as int].priority,
    ensures
        k_after.current is Some,
        k_after.current != k.current,
        k.tasks@[k_after.current->0 as int].priority <= k.tasks@[x].priority,
{
    let c = k.current->0 as int;
    let out = crate::kernel::scheduler::switched_out(k_yielded.tasks@, c, saved);
    assert(out[x] == k.tasks@[x]);
    assert(crate::kernel::scheduler::runnable(out[x]));
}

/// A task that has exited, sleeps or is blocked is not picked by a switch, and a
/// switch does not change its state; a tick never brings back one that has exited.
pub proof fn law_only_ready_tasks_are_picked(
    k: Kernel,
    k_after: Kernel,
    saved: usize,
    sp: usize,
    t: int,
)
    requires
        k.wf(),
        k.current is Some,
        k.switched(k_after, saved, sp),
        0 <= t < k.tasks@.len(),
        !(k.tasks@[t].state is Ready),
        !(k.tasks@[t].state is Running),
    ensures
        k_after.current is Some,
        k_after.current->0 != t,
        k_after.tasks@[t].state == k.tasks@[t].state,
        k.tasks@[t].state is Dead ==> k.ticked()[t].state is Dead,
        k.tasks@[t].state is Blocked ==> k.ticked()[t].state is Blocked,
{
}

/// A task that is spawned is ready with a full time slice, at the priority it was
/// given, and waits nowhere; it is visited first on the list of all tasks. All
/// others stay as they are, and so do the current task and the time.
pub proof fn law_spawn_adds_a_ready_task(
    k: Kernel,
    k_after: Kernel,
    sp: usize,
    stack_base: usize,
    priority: u8,
    time_slice: u8,
    name: &'static str,
)
    requires
        k.wf(),
        k.tasks@.len() < usize::MAX,
        spawned(k, k_after, sp, stack_base, priority, time_slice, name),
    ensures
        ({
            let t = k_after.tasks@.last();
            &&& k_after.tasks@.len() == k.tasks@.len() + 1
            &&& t.state == (TaskState::Ready { slice_remaining: time_slice })
            &&& t.priority == priority
            &&& t.base_priority == priority
            &&& t.time_slice == time_slice
            &&& t.stack_base == stack_base
            &&& t.sp == sp
            &&& t.name == name
            &&& t.wait_next is None
            &&& k_after.all_tasks == Some(k.tasks@.len() as usize)
            &&& t.all_next == k.all_tasks
            &&& forall|i: int|
                0 <= i < k.tasks@.len() ==> #[trigger] k_after.tasks@[i] == k.tasks@[i]
            &&& k_after.current == k.current
            &&& k_after.tick == k.tick
            &&& k_after.pendsv == k.pendsv
            &&& static_priority(t) == priority
            &&& Spawner::user_tasks(k_after) == Spawner::user_tasks(k) + 1
        }),
{
}

/// The limit on tasks of the user leaves the idle task out: before the launch all
/// tasks count, and afterwards all but one.
pub proof fn law_idle_task_does_not_count(k: Kernel)
    ensures
        k.current is None ==> Spawner::user_tasks(k) == k.tasks@.len(),
        k.current is Some ==> Spawner::user_tasks(k) == k.tasks@.len() - 1,
{
}

} // verus!
