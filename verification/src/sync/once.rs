use crate::kernel::wait_list::WaitList;
use crate::kernel::Kernel;
use vstd::prelude::*;

verus! {

/// How far the initialisation has come.
#[derive(Copy, Clone, PartialEq, Eq, Debug, Structural)]
pub enum OnceState {
    /// Nobody has called yet.
    Unstarted,
    /// The first caller is running the initialiser.
    Running,
    /// The initialiser has returned.
    Done,
}

/// The part a caller has to play.
#[derive(Copy, Clone, PartialEq, Eq, Debug, Structural)]
pub enum OnceEntry {
    /// The caller runs the initialiser and calls `complete` afterwards.
    Initialise,
    /// The caller has blocked until the initialiser is done.
    Blocked,
    /// The initialisation was complete already.
    Completed,
}

/// One step in the life of a `Once`.
pub enum OnceStep {
    /// A task called `enter` and got this answer.
    Enter(OnceEntry),
    /// The initialising task called `complete`.
    Complete,
}

/// A synchronisation primitive that runs an initialisation closure exactly
/// once, even if several tasks race to call it.
///
/// Tasks that call while another one is running the initialiser block until the
/// initialisation completes.
pub struct Once {
    /// How far the initialisation has come.
    pub state: OnceState,
    /// Tasks that wait for the initialiser to finish.
    pub waiters: WaitList,
    /// Optional human-readable name.
    pub name: Option<&'static str>,
}

impl Once {
    /// The wait list is sound, and tasks wait only while the initialiser runs.
    pub open spec fn wf(self, k: Kernel) -> bool {
        &&& k.wf()
        &&& k.holds(self.waiters)
        &&& self.waiters@.len() > 0 ==> self.state is Running
    }

    /// The answer `enter` gives in the state `s`.
    pub open spec fn entry(s: OnceState) -> OnceEntry {
        match s {
            OnceState::Unstarted => OnceEntry::Initialise,
            OnceState::Running => OnceEntry::Blocked,
            OnceState::Done => OnceEntry::Completed,
        }
    }

    /// The state after `enter` was called in the state `s`.
    pub open spec fn entered(s: OnceState) -> OnceState {
        match s {
            OnceState::Unstarted => OnceState::Running,
            _ => s,
        }
    }

    /// The step `e` leads from the state `before` to the state `after`.
    pub open spec fn step(before: OnceState, e: OnceStep, after: OnceState) -> bool {
        match e {
            OnceStep::Enter(answer) => answer == Once::entry(before) && after == Once::entered(
                before,
            ),
            OnceStep::Complete => before is Running && after is Done,
        }
    }

    /// What `enter` does, and the part it gives the caller.
    pub open spec fn entered_by(
        self,
        after: Once,
        k: Kernel,
        k_after: Kernel,
        r: OnceEntry,
    ) -> bool {
        &&& after.name == self.name
        &&& Once::step(self.state, OnceStep::Enter(r), after.state)
        &&& if r is Blocked {
            &&& after.waiters@ == seq![k.current->0] + self.waiters@
            &&& k_after.tasks@ == k.blocked_on(self.waiters)
            &&& k_after.same_but_tasks(k)
            &&& k_after.pendsv
        } else {
            after.waiters == self.waiters && k_after == k
        }
    }

    /// What `complete` does.
    pub open spec fn completed(self, after: Once, k: Kernel, k_after: Kernel) -> bool {
        &&& after.name == self.name
        &&& Once::step(self.state, OnceStep::Complete, after.state)
        &&& after.waiters@.len() == 0
        &&& k_after.tasks@ == WaitList::all_woken(k.tasks@, self.waiters@)
        &&& k_after.same_but_tasks(k)
        &&& k_after.pendsv == (k.pendsv || k.any_outranks_current(self.waiters@))
    }

    /// Create an unnamed `Once`.
    pub fn new() -> (r: Once)
        ensures
            r.state is Unstarted,
            r.name is None,
            r.waiters@.len() == 0,
            forall|k: Kernel| k.wf() ==> #[trigger] r.wf(k),
    {
        Once { state: OnceState::Unstarted, waiters: WaitList::new(), name: None }
    }

    /// Create a named `Once`.
    pub fn new_named(name: &'static str) -> (r: Once)
        ensures
            r.state is Unstarted,
            r.name == Some(name),
            r.waiters@.len() == 0,
            forall|k: Kernel| k.wf() ==> #[trigger] r.wf(k),
    {
        Once { state: OnceState::Unstarted, waiters: WaitList::new(), name: Some(name) }
    }

    /// Settle which part the calling task plays.
    ///
    /// Only the first caller is told to initialise. One that comes while the
    /// initialiser runs has blocked, and a context switch is requested.
    pub fn enter(&mut self, k: &mut Kernel) -> (r: OnceEntry)
        requires
            old(self).wf(*old(k)),
            old(k).running(),
        ensures
            final(self).wf(*final(k)),
            old(self).entered_by(*final(self), *old(k), *final(k), r),
    {
        match self.state {
            OnceState::Done => OnceEntry::Completed,
            OnceState::Unstarted => {
                self.state = OnceState::Running;
                OnceEntry::Initialise
            },
            OnceState::Running => {
                k.block_and_push(&mut self.waiters);
                k.trigger_pendsv();
                OnceEntry::Blocked
            },
        }
    }

    /// Mark the initialisation as done and wake every waiting task.
    pub fn complete(&mut self, k: &mut Kernel)
        requires
            old(self).wf(*old(k)),
            old(self).state is Running,
        ensures
            final(self).wf(*final(k)),
            old(self).completed(*final(self), *old(k), *final(k)),
    {
        self.state = OnceState::Done;
        let need_preempt: bool = k.wake_all(&mut self.waiters);
        if need_preempt {
            k.trigger_pendsv();
        }
    }

    /// Run `f` if this is the first call; otherwise wait for the first caller
    /// to finish.
    ///
    /// Returns `true` when the initialisation is complete. On `false` the task
    /// has blocked and a context switch is requested; the initialisation is
    /// complete when it runs again.
    pub fn call_once<F: FnOnce()>(&mut self, k: &mut Kernel, f: F) -> (r: bool)
        requires
            old(self).wf(*old(k)),
            old(k).running(),
            old(self).state is Unstarted ==> call_requires(f, ()),
        ensures
            final(self).wf(*final(k)),
            final(self).name == old(self).name,
            old(self).state is Unstarted ==> r && call_ensures(f, (), ()),
            r == !(old(self).state is Running),
            r ==> {
                &&& final(self).state is Done
                &&& final(self).waiters@.len() == 0
                &&& final(k).tasks@ == old(k).tasks@
                &&& final(k).same_but_tasks(*old(k))
                &&& final(k).pendsv == old(k).pendsv
            },
            !r ==> {
                &&& final(self).state is Running
                &&& final(self).waiters@ == seq![old(k).current->0] + old(self).waiters@
                &&& final(k).tasks@ == old(k).blocked_on(old(self).waiters)
                &&& final(k).same_but_tasks(*old(k))
                &&& final(k).pendsv
            },
    {
        match self.enter(k) {
            OnceEntry::Completed => true,
            OnceEntry::Blocked => false,
            OnceEntry::Initialise => {
                f();
                self.complete(k);
                true
            },
        }
    }

    /// Returns `true` if the initialisation has already completed.
    pub fn is_completed(&self) -> (r: bool)
        ensures
            r == (self.state is Done),
    {
        self.state == OnceState::Done
    }

    /// However the calls of several tasks interleave, at most one of them is
    /// told to initialise.
    pub proof fn law_initialises_at_most_once(
        states: Seq<OnceState>,
        steps: Seq<OnceStep>,
        i: int,
        j: int,
    )
        requires
            states.len() == steps.len() + 1,
            forall|n: int|
                #![trigger steps[n]]
                0 <= n < steps.len() ==> Once::step(states[n], steps[n], states[n + 1]),
            0 <= i < j < steps.len(),
            steps[i] == OnceStep::Enter(OnceEntry::Initialise),
        ensures
            steps[j] != OnceStep::Enter(OnceEntry::Initialise),
    {
        Once::lemma_never_unstarted(states, steps, i, j);
    }

    /// After the first caller nothing leads back to the start.
    proof fn lemma_never_unstarted(states: Seq<OnceState>, steps: Seq<OnceStep>, i: int, j: int)
        requires
            states.len() == steps.len() + 1,
            forall|n: int|
                #![trigger steps[n]]
                0 <= n < steps.len() ==> Once::step(states[n], steps[n], states[n + 1]),
            0 <= i < j <= steps.len(),
            steps[i] == OnceStep::Enter(OnceEntry::Initialise),
        ensures
            !(states[j] is Unstarted),
        decreases j - i,
    {
        if j > i + 1 {
            Once::lemma_never_unstarted(states, steps, i, j - 1);
            assert(Once::step(states[j - 1], steps[j - 1], states[j]));
        } else {
            assert(Once::step(states[i], steps[i], states[j]));
        }
    }

    /// Once the initialisation is done it stays done, and every caller is told
    /// so.
    pub proof fn law_done_is_final(before: OnceState, e: OnceStep, after: OnceState)
        requires
            before is Done,
            Once::step(before, e, after),
        ensures
            after is Done,
            e == OnceStep::Enter(OnceEntry::Completed),
    {
    }

    /// A history of a `Once` that starts before its first call.
    pub open spec fn history(states: Seq<OnceState>, steps: Seq<OnceStep>) -> bool {
        &&& states.len() == steps.len() + 1
        &&& states[0] is Unstarted
        &&& forall|n: int|
            #![trigger steps[n]]
            0 <= n < steps.len() ==> Once::step(states[n], steps[n], states[n + 1])
    }

    /// How the state of a `Once` follows from what has happened to it.
    proof fn lemma_history(states: Seq<OnceState>, steps: Seq<OnceStep>, n: int)
        requires
            Once::history(states, steps),
            0 <= n <= steps.len(),
        ensures
            states[n] is Unstarted <==> n == 0,
            states[n] is Done <==> exists|j: int| 0 <= j < n && #[trigger] steps[j] is Complete,
        decreases n,
    {
        if n > 0 {
            Once::lemma_history(states, steps, n - 1);
            assert(Once::step(states[n - 1], steps[n - 1], states[n]));
            if states[n] is Done && !(steps[n - 1] is Complete) {
                let j = choose|j: int| 0 <= j < n - 1 && #[trigger] steps[j] is Complete;
                assert(0 <= j < n && steps[j] is Complete);
            }
        }
    }

    /// The very first caller is told to initialise, and nobody else ever is: so the
    /// initialiser runs, and runs once.
    pub proof fn law_the_first_caller_initialises(
        states: Seq<OnceState>,
        steps: Seq<OnceStep>,
        n: int,
    )
        requires
            Once::history(states, steps),
            0 <= n < steps.len(),
        ensures
            steps[0] == OnceStep::Enter(OnceEntry::Initialise),
            steps[n] == OnceStep::Enter(OnceEntry::Initialise) ==> n == 0,
    {
        Once::lemma_history(states, steps, n);
        assert(Once::step(states[0], steps[0], states[1]));
        assert(Once::step(states[n], steps[n], states[n + 1]));
    }

    /// A caller is told that the initialisation is complete exactly when it is, and
    /// blocks exactly when it has begun and is not complete.
    pub proof fn law_callers_are_told_the_truth(
        states: Seq<OnceState>,
        steps: Seq<OnceStep>,
        n: int,
        answer: OnceEntry,
    )
        requires
            Once::history(states, steps),
            0 < n < steps.len(),
            steps[n] == OnceStep::Enter(answer),
        ensures
            answer is Completed <==> exists|j: int| 0 <= j < n && #[trigger] steps[j] is Complete,
            answer is Blocked <==> !(exists|j: int|
                0 <= j < n && #[trigger] steps[j] is Complete),
    {
        Once::lemma_history(states, steps, n);
        assert(Once::step(states[n], steps[n], states[n + 1]));
    }

    /// A caller that comes while the initialiser runs is blocked, it alone, and joins
    /// those who wait; any other caller goes on, and nothing happens to any task.
    pub proof fn law_late_callers_block(
        self,
        after: Once,
        k: Kernel,
        k_after: Kernel,
        r: OnceEntry,
        t: usize,
    )
        requires
            self.wf(k),
            k.running(),
            self.entered_by(after, k, k_after, r),
            t < k.tasks@.len(),
        ensures
            r is Blocked <==> self.state is Running,
            r is Initialise <==> self.state is Unstarted,
            r is Completed <==> self.state is Done,
            k_after.tasks@[t as int].state == (if self.state is Running && k.current == Some(t) {
                crate::kernel::tcb::TaskState::Blocked
            } else {
                k.tasks@[t as int].state
            }),
            self.state is Running ==> after.waiters@.contains(k.current->0) && k_after.pendsv,
    {
        if self.state is Running {
            assert(after.waiters@[0] == k.current->0);
        }
    }

    /// Completion makes everyone ready who waited, and leaves all others as they
    /// were; nobody waits any more. It asks for a switch exactly when one of them has
    /// a higher priority than the current task.
    pub proof fn law_completion_wakes_everyone(
        self,
        after: Once,
        k: Kernel,
        k_after: Kernel,
        t: usize,
    )
        requires
            self.wf(k),
            self.completed(after, k, k_after),
            t < k.tasks@.len(),
        ensures
            after.state is Done,
            after.waiters@.len() == 0,
            k_after.tasks@[t as int].state is Ready || !self.waiters@.contains(t),
            !self.waiters@.contains(t) ==> k_after.tasks@[t as int] == k.tasks@[t as int],
            k_after.pendsv == (k.pendsv || crate::kernel::wait_list::woke_a_higher_one(k, k_after)),
    {
        k_after.law_some_woken_outranks(k, self.waiters);
    }

    /// Tasks wait only while the initialiser runs, and are blocked.
    pub proof fn law_nobody_waits_in_vain(self, k: Kernel, i: int)
        requires
            self.wf(k),
            0 <= i < self.waiters@.len(),
        ensures
            self.state is Running,
            k.tasks@[self.waiters@[i] as int].state is Blocked,
    {
    }
}

} // verus!
