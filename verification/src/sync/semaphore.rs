use crate::kernel::wait_list::WaitList;
use crate::kernel::Kernel;
use vstd::prelude::*;

verus! {

/// Counting semaphore.
///
/// `give` may be called from interrupt handlers as well as from tasks.
pub struct Semaphore {
    /// Tokens at hand.
    pub count: u8,
    /// Ceiling of the token count.
    pub max: u8,
    /// Tasks blocked in `take`.
    pub waiters: WaitList,
    /// Optional human-readable name.
    pub name: Option<&'static str>,
}

impl Semaphore {
    /// The wait list is sound, and nobody waits while a token is at hand.
    pub open spec fn wf(self, k: Kernel) -> bool {
        &&& k.wf()
        &&& k.holds(self.waiters)
        &&& self.waiters@.len() > 0 ==> self.count == 0
    }

    /// Neither ceiling nor name differ.
    pub open spec fn same_setup(self, other: Semaphore) -> bool {
        self.max == other.max && self.name == other.name
    }

    /// What one more token does: it goes to the highest-priority waiting task,
    /// or raises the count up to the ceiling.
    pub open spec fn given(self, after: Semaphore, k: Kernel, k_after: Kernel) -> bool {
        &&& after.same_setup(self)
        &&& if self.waiters@.len() > 0 {
            let w = WaitList::next_waiter(k.tasks@, self.waiters@);
            &&& after.count == self.count
            &&& after.waiters@ == WaitList::without_next(k.tasks@, self.waiters@)
            &&& WaitList::woke_next(k.tasks@, k_after.tasks@, self.waiters@)
            &&& k_after.same_but_tasks(k)
            &&& k_after.pendsv == (k.pendsv || k.outranks_current(w))
        } else {
            &&& after.count == if self.count < self.max {
                self.count + 1
            } else {
                self.count as int
            }
            &&& after.waiters == self.waiters
            &&& k_after == k
        }
    }

    /// What `take` does, and whether it got a token at once.
    pub open spec fn taken(self, after: Semaphore, k: Kernel, k_after: Kernel, r: bool) -> bool {
        &&& after.same_setup(self)
        &&& r == (self.count > 0)
        &&& if r {
            &&& after.count == self.count - 1
            &&& after.waiters == self.waiters
            &&& k_after == k
        } else {
            &&& after.count == 0
            &&& after.waiters@ == seq![k.current->0] + self.waiters@
            &&& k_after.tasks@ == k.blocked_on(self.waiters)
            &&& k_after.same_but_tasks(k)
            &&& k_after.pendsv
        }
    }

    /// What `try_take` does, and whether it got a token.
    pub open spec fn tried(self, after: Semaphore, r: bool) -> bool {
        &&& after.same_setup(self)
        &&& r == (self.count > 0)
        &&& after.count == if r {
            self.count - 1
        } else {
            self.count as int
        }
        &&& after.waiters == self.waiters
    }

    /// Create an unnamed semaphore with `initial` tokens and a ceiling of `max`.
    ///
    /// A binary semaphore is `new(0, 1)`.
    pub fn new(initial: u8, max: u8) -> (r: Semaphore)
        ensures
            r.count == initial,
            r.max == max,
            r.name is None,
            r.waiters@.len() == 0,
            forall|k: Kernel| k.wf() ==> #[trigger] r.wf(k),
    {
        Semaphore { count: initial, max, waiters: WaitList::new(), name: None }
    }

    /// Create a named semaphore.
    pub fn new_named(initial: u8, max: u8, name: &'static str) -> (r: Semaphore)
        ensures
            r.count == initial,
            r.max == max,
            r.name == Some(name),
            r.waiters@.len() == 0,
            forall|k: Kernel| k.wf() ==> #[trigger] r.wf(k),
    {
        Semaphore { count: initial, max, waiters: WaitList::new(), name: Some(name) }
    }

    /// Consume one token, or block the calling task until one is handed to it.
    ///
    /// Returns `true` when a token was taken at once. On `false` the task has
    /// blocked and a context switch is requested; it owns its token when it
    /// runs again.
    pub fn take(&mut self, k: &mut Kernel) -> (r: bool)
        requires
            old(self).wf(*old(k)),
            old(k).running(),
        ensures
            final(self).wf(*final(k)),
            old(self).taken(*final(self), *old(k), *final(k), r),
            old(self).count <= old(self).max ==> final(self).count <= final(self).max,
    {
        if self.count > 0 {
            self.count = self.count - 1;
            true
        } else {
            k.block_and_push(&mut self.waiters);
            k.trigger_pendsv();
            false
        }
    }

    /// Try to consume one token without blocking.
    ///
    /// Returns `true` if a token was taken, `false` if there was none.
    pub fn try_take(&mut self) -> (r: bool)
        ensures
            old(self).tried(*final(self), r),
            old(self).count <= old(self).max ==> final(self).count <= final(self).max,
            forall|k: Kernel| old(self).wf(k) ==> #[trigger] final(self).wf(k),
    {
        if self.count > 0 {
            self.count = self.count - 1;
            true
        } else {
            false
        }
    }

    /// Produce one token.
    ///
    /// It goes to the highest-priority waiting task if there is one. Otherwise
    /// the count rises, unless it already stands at the ceiling: then the token
    /// is dropped.
    pub fn give(&mut self, k: &mut Kernel)
        requires
            old(self).wf(*old(k)),
        ensures
            final(self).wf(*final(k)),
            old(self).given(*final(self), *old(k), *final(k)),
    {
        if !self.waiters.is_empty(k) {
            let (_, need_preempt) = k.wake_highest(&mut self.waiters);
            if need_preempt {
                k.trigger_pendsv();
            }
        } else if self.count < self.max {
            self.count = self.count + 1;
        }
    }

    /// Produce one token from an interrupt handler, as `give` does.
    pub fn give_from_isr(&mut self, k: &mut Kernel)
        requires
            old(self).wf(*old(k)),
        ensures
            final(self).wf(*final(k)),
            old(self).given(*final(self), *old(k), *final(k)),
    {
        self.give(k)
    }

    /// Return the current token count.
    pub fn count(&self) -> (r: u8)
        ensures
            r == self.count,
    {
        self.count
    }

    /// The count never passes its ceiling: a semaphore at or below it stays
    /// there when a token is given.
    pub proof fn law_ceiling(self, after: Semaphore, k: Kernel, k_after: Kernel)
        requires
            self.wf(k),
            self.count <= self.max,
            self.given(after, k, k_after),
        ensures
            after.count <= after.max,
    {
    }

    /// A token that is at hand is handed out, one at a time, and blocks nobody; with
    /// none at hand `take` blocks the caller, and nobody else.
    pub proof fn law_take_hands_out_one_token(
        self,
        after: Semaphore,
        k: Kernel,
        k_after: Kernel,
        r: bool,
        t: usize,
    )
        requires
            self.wf(k),
            k.running(),
            self.taken(after, k, k_after, r),
            t < k.tasks@.len(),
        ensures
            r <==> self.count != 0,
            self.count == after.count + (if r {
                1int
            } else {
                0
            }),
            k_after.tasks@[t as int].state == (if !r && k.current == Some(t) {
                crate::kernel::tcb::TaskState::Blocked
            } else {
                k.tasks@[t as int].state
            }),
            !r ==> k_after.pendsv,
            r ==> after.waiters@ == self.waiters@,
            !r ==> after.waiters@.len() == self.waiters@.len() + 1 && after.waiters@[0]
                == k.current->0,
    {
    }

    /// `try_take` gets a token exactly when `take` would get one at once, and leaves
    /// the same behind.
    pub proof fn law_try_take_agrees_with_take(
        self,
        tried: Semaphore,
        r: bool,
        taken: Semaphore,
        k: Kernel,
        k_after: Kernel,
        q: bool,
    )
        requires
            self.wf(k),
            self.tried(tried, r),
            self.taken(taken, k, k_after, q),
        ensures
            r == q,
            r <==> self.count != 0,
            self.count == tried.count + (if r {
                1int
            } else {
                0
            }),
            tried.waiters == self.waiters,
    {
    }

    /// With nobody waiting a token that is given raises the count by one, unless it
    /// stands at its ceiling, and touches no task. A take gets it back at once.
    pub proof fn law_take_undoes_give(
        self,
        given: Semaphore,
        k: Kernel,
        k_given: Kernel,
        after: Semaphore,
        k_before: Kernel,
        k_after: Kernel,
        r: bool,
    )
        requires
            self.wf(k),
            self.waiters@.len() == 0,
            self.count < self.max,
            self.given(given, k, k_given),
            given.taken(after, k_before, k_after, r),
        ensures
            given.count == self.count + 1,
            k_given == k,
            r,
            after.count == self.count,
    {
    }

    /// With the count at its ceiling and nobody waiting, a token is dropped.
    pub proof fn law_tokens_beyond_the_ceiling_are_dropped(
        self,
        after: Semaphore,
        k: Kernel,
        k_after: Kernel,
    )
        requires
            self.wf(k),
            self.waiters@.len() == 0,
            self.count >= self.max,
            self.given(after, k, k_after),
        ensures
            after.count == self.count,
            k_after == k,
    {
    }

    /// A token that is given while tasks wait goes to one of them, which none of the
    /// others outranks: that task is ready, it alone, and the count stays at zero.
    pub proof fn law_give_serves_the_highest_waiter(
        self,
        after: Semaphore,
        k: Kernel,
        k_after: Kernel,
    )
        requires
            self.wf(k),
            self.waiters@.len() > 0,
            self.given(after, k, k_after),
        ensures
            after.count == 0,
            exists|i: int|
                {
                    let w = #[trigger] self.waiters@[i] as int;
                    &&& 0 <= i < self.waiters@.len()
                    &&& after.waiters@ == self.waiters@.remove(i)
                    &&& k_after.tasks@[w].state is Ready
                    &&& forall|j: int|
                        0 <= j < self.waiters@.len() ==> k.tasks@[w].priority
                            <= k.tasks@[#[trigger] self.waiters@[j] as int].priority
                    &&& forall|t: int|
                        0 <= t < k.tasks@.len() && t != w ==> (#[trigger] k_after.tasks@[t]).state
                            == k.tasks@[t].state
                },
    {
        WaitList::law_wake_picks_the_highest(k.tasks@, k_after.tasks@, self.waiters@);
    }

    /// Giving a token asks for a switch exactly when it makes a blocked task ready
    /// that has a higher priority than the current one.
    pub proof fn law_give_requests_a_switch_when_due(
        self,
        after: Semaphore,
        k: Kernel,
        k_after: Kernel,
    )
        requires
            self.wf(k),
            self.given(after, k, k_after),
        ensures
            k_after.pendsv == (k.pendsv || crate::kernel::wait_list::woke_a_higher_one(k, k_after)),
    {
        if self.waiters@.len() > 0 {
            k_after.law_one_woken_outranks(k, self.waiters);
        }
    }

    /// A task that has blocked in `take`, with nobody else waiting, gets the next
    /// token that is given.
    pub proof fn law_blocked_taker_gets_the_next_token(
        self,
        mid: Semaphore,
        k: Kernel,
        k_mid: Kernel,
        r: bool,
        after: Semaphore,
        k_before: Kernel,
        k_after: Kernel,
    )
        requires
            self.wf(k),
            k.running(),
            self.taken(mid, k, k_mid, r),
            !r,
            self.waiters@.len() == 0,
            mid.wf(k_before),
            mid.given(after, k_before, k_after),
        ensures
            k_after.tasks@[k.current->0 as int].state is Ready,
            after.waiters@.len() == 0,
            after.count == 0,
    {
        WaitList::law_wake_picks_the_highest(k_before.tasks@, k_after.tasks@, mid.waiters@);
        assert(mid.waiters@.len() == 1 && mid.waiters@[0] == k.current->0);
    }

    /// Nobody waits while a token is at hand, and whoever waits is blocked.
    pub proof fn law_nobody_waits_beside_a_token(self, k: Kernel, i: int)
        requires
            self.wf(k),
            0 <= i < self.waiters@.len(),
        ensures
            self.count == 0,
            k.tasks@[self.waiters@[i] as int].state is Blocked,
    {
    }

    /// Ceiling and name never change.
    pub proof fn law_setup_stays(
        self,
        after: Semaphore,
        k: Kernel,
        k_after: Kernel,
        r: bool,
    )
        requires
            self.given(after, k, k_after) || self.taken(after, k, k_after, r) || self.tried(
                after,
                r,
            ),
        ensures
            after.max == self.max,
            after.name == self.name,
    {
    }
}

} // verus!
