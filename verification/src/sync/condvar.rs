use crate::kernel::wait_list::WaitList;
use crate::kernel::Kernel;
use crate::sync::mutex::{Mutex, MutexGuard};
use vstd::prelude::*;

verus! {

/// A condition variable for use with `Mutex`.
///
/// `wait` releases a lock and blocks in one step, until another task calls
/// `notify_one` or `notify_all`. Callers re-check their condition in a loop
/// after each wake-up.
pub struct Condvar {
    /// Tasks that wait for a notification.
    pub waiters: WaitList,
    /// Optional human-readable name.
    pub name: Option<&'static str>,
}

impl Condvar {
    /// The wait list is sound.
    pub open spec fn wf(self, k: Kernel) -> bool {
        k.wf() && k.holds(self.waiters)
    }

    /// What waiting does: the current task has blocked, and the lock is released.
    pub open spec fn waited<T>(
        self,
        after: Condvar,
        m: Mutex<T>,
        m_after: Mutex<T>,
        k: Kernel,
        k_after: Kernel,
    ) -> bool {
        &&& after.name == self.name
        &&& after.waiters@ == seq![k.current->0] + self.waiters@
        &&& m.handed_over(m_after, k.blocked_on(self.waiters), k_after.tasks@)
        &&& k_after.same_but_tasks(k)
        &&& k_after.pendsv
    }

    /// What notifying one task does.
    pub open spec fn notified_one(self, after: Condvar, k: Kernel, k_after: Kernel) -> bool {
        &&& after.name == self.name
        &&& if self.waiters@.len() > 0 {
            let w = WaitList::next_waiter(k.tasks@, self.waiters@);
            &&& after.waiters@ == WaitList::without_next(k.tasks@, self.waiters@)
            &&& WaitList::woke_next(k.tasks@, k_after.tasks@, self.waiters@)
            &&& k_after.same_but_tasks(k)
            &&& k_after.pendsv == (k.pendsv || k.outranks_current(w))
        } else {
            after == self && k_after == k
        }
    }

    /// What notifying all tasks does.
    pub open spec fn notified_all(self, after: Condvar, k: Kernel, k_after: Kernel) -> bool {
        &&& after.name == self.name
        &&& after.waiters@.len() == 0
        &&& k_after.tasks@ == WaitList::all_woken(k.tasks@, self.waiters@)
        &&& k_after.same_but_tasks(k)
        &&& k_after.pendsv == (k.pendsv || k.any_outranks_current(self.waiters@))
    }

    /// Create an unnamed condition variable.
    pub fn new() -> (r: Condvar)
        ensures
            r.waiters@.len() == 0,
            r.name is None,
            forall|k: Kernel| k.wf() ==> #[trigger] r.wf(k),
    {
        Condvar { waiters: WaitList::new(), name: None }
    }

    /// Create a named condition variable.
    pub fn new_named(name: &'static str) -> (r: Condvar)
        ensures
            r.waiters@.len() == 0,
            r.name == Some(name),
            forall|k: Kernel| k.wf() ==> #[trigger] r.wf(k),
    {
        Condvar { waiters: WaitList::new(), name: Some(name) }
    }

    /// Release the lock that `guard` stands for and block the current task
    /// until it is notified, in one step.
    ///
    /// A context switch is requested. When the task runs again it has to
    /// acquire the lock once more with `Mutex::lock`.
    pub fn wait<T>(&mut self, k: &mut Kernel, m: &mut Mutex<T>, guard: MutexGuard)
        requires
            old(self).wf(*old(k)),
            old(m).wf(*old(k)),
            old(k).running(),
            guard.guards(*old(m)),
            old(self).waiters.disjoint(old(m).waiters),
        ensures
            final(self).wf(*final(k)),
            final(m).wf(*final(k)),
            final(self).waiters.disjoint(final(m).waiters),
            old(self).waited(*final(self), *old(m), *final(m), *old(k), *final(k)),
    {
        proof {
            k.lemma_running_waits_nowhere(self.waiters);
            k.lemma_running_waits_nowhere(m.waiters);
        }
        k.block_and_push(&mut self.waiters);
        let ghost mid = *k;
        proof {
            k.lemma_untouched(*old(k), m.waiters);
            assert forall|x: usize| self.waiters@.contains(x) implies !#[trigger] m.waiters@.contains(
                x,
            ) by {
                let i = choose|i: int| 0 <= i < self.waiters@.len() && self.waiters@[i] == x;
                if i > 0 {
                    assert(old(self).waiters@[i - 1] == x);
                }
            }
        }
        m.unlock_internal(k);
        k.trigger_pendsv();
        proof {
            old(m).law_release_keeps_other_lists(*m, mid, *k, self.waiters);
        }
    }

    /// Keep the lock if `pred` holds of the protected value; release it and block
    /// as `wait` does otherwise.
    ///
    /// On `None` the task has blocked; when it runs again it acquires the lock
    /// with `Mutex::lock` and asks again.
    pub fn wait_until<T, P: Fn(&T) -> bool>(
        &mut self,
        k: &mut Kernel,
        m: &mut Mutex<T>,
        guard: MutexGuard,
        pred: P,
    ) -> (r: Option<MutexGuard>)
        requires
            old(self).wf(*old(k)),
            old(m).wf(*old(k)),
            old(k).running(),
            guard.guards(*old(m)),
            old(self).waiters.disjoint(old(m).waiters),
            call_requires(pred, (&old(m).data,)),
        ensures
            final(self).wf(*final(k)),
            final(m).wf(*final(k)),
            final(self).waiters.disjoint(final(m).waiters),
            call_ensures(pred, (&old(m).data,), r is Some),
            r matches Some(g) ==> {
                &&& g == guard
                &&& *final(self) == *old(self)
                &&& *final(m) == *old(m)
                &&& *final(k) == *old(k)
            },
            r is None ==> old(self).waited(*final(self), *old(m), *final(m), *old(k), *final(k)),
    {
        if pred(guard.deref(m)) {
            Some(guard)
        } else {
            self.wait(k, m, guard);
            None
        }
    }

    /// Wake the highest-priority waiting task, if there is one.
    pub fn notify_one(&mut self, k: &mut Kernel)
        requires
            old(self).wf(*old(k)),
        ensures
            final(self).wf(*final(k)),
            old(self).notified_one(*final(self), *old(k), *final(k)),
    {
        if !self.waiters.is_empty(k) {
            let (_, need_preempt) = k.wake_highest(&mut self.waiters);
            if need_preempt {
                k.trigger_pendsv();
            }
        }
    }

    /// Wake every waiting task.
    ///
    /// They compete for the lock afterwards.
    pub fn notify_all(&mut self, k: &mut Kernel)
        requires
            old(self).wf(*old(k)),
        ensures
            final(self).wf(*final(k)),
            old(self).notified_all(*final(self), *old(k), *final(k)),
    {
        let need_preempt: bool = k.wake_all(&mut self.waiters);
        if need_preempt {
            k.trigger_pendsv();
        }
    }

    /// A task that waits is blocked and on the list, and has given up the lock in the
    /// same step: the lock is free, or belongs to a task that was blocked on it and is
    /// ready now. The caller has its base priority back if it was the owner.
    pub proof fn law_wait_blocks_and_releases<T>(
        self,
        after: Condvar,
        m: Mutex<T>,
        m_after: Mutex<T>,
        k: Kernel,
        k_after: Kernel,
    )
        requires
            self.wf(k),
            m.wf(k),
            k.running(),
            m.owner == k.current,
            self.waited(after, m, m_after, k, k_after),
        ensures
            ({
                let c = k.current->0;
                &&& k_after.tasks@[c as int].state is Blocked
                &&& k_after.tasks@[c as int].priority == k.tasks@[c as int].base_priority
                &&& after.waiters@.len() == self.waiters@.len() + 1
                &&& after.waiters@[0] == c
                &&& m_after.owner != Some(c)
                &&& m_after.owner is Some <==> m.waiters@.len() > 0
                &&& m_after.owner matches Some(o) ==> m.waiters@.contains(o)
                    && k_after.tasks@[o as int].state is Ready
                &&& m_after.data == m.data
                &&& k_after.pendsv
            }),
    {
        let c = k.current->0;
        k.lemma_running_waits_nowhere(m.waiters);
        let blocked = k.blocked_on(self.waiters);
        let tasks = Mutex::<T>::restored(blocked, c as int);
        if m.waiters@.len() > 0 {
            WaitList::law_next_waiter_is_highest(tasks, m.waiters@);
            WaitList::lemma_removed(m.waiters@, WaitList::next_index(tasks, m.waiters@));
            assert(m.waiters@.contains(WaitList::next_waiter(tasks, m.waiters@)));
        }
    }

    /// A notification wakes one of those who wait, whom none of the others outranks,
    /// and nobody else; it is lost if nobody waits.
    pub proof fn law_notify_one_wakes_the_highest(
        self,
        after: Condvar,
        k: Kernel,
        k_after: Kernel,
    )
        requires
            self.wf(k),
            self.notified_one(after, k, k_after),
        ensures
            self.waiters@.len() == 0 ==> after == self && k_after == k,
            self.waiters@.len() > 0 ==> exists|i: int|
                {
                    let w = #[trigger] self.waiters@[i] as int;
                    &&& 0 <= i < self.waiters@.len()
                    &&& after.waiters@ == self.waiters@.remove(i)
                    &&& k_after.tasks@[w].state is Ready
                    &&& forall|j: int|
                        0 <= j < self.waiters@.len() ==> k.tasks@[w].priority
                            <= k.tasks@[#[trigger] self.waiters@[j] as int].priority
                    &&& forall|t: int|
                        0 <= t < k.tasks@.len() && t != w ==> (#[trigger] k_after.tasks@[t]).state
                            == k.tasks@[t].state
                },
            k_after.pendsv == (k.pendsv || crate::kernel::wait_list::woke_a_higher_one(k, k_after)),
    {
        if self.waiters@.len() > 0 {
            WaitList::law_wake_picks_the_highest(k.tasks@, k_after.tasks@, self.waiters@);
            k_after.law_one_woken_outranks(k, self.waiters);
        }
    }

    /// Notifying all makes everyone ready who waited and leaves all others as they
    /// were; nobody waits any more.
    pub proof fn law_notify_all_wakes_everyone(
        self,
        after: Condvar,
        k: Kernel,
        k_after: Kernel,
        t: usize,
    )
        requires
            self.wf(k),
            self.notified_all(after, k, k_after),
            t < k.tasks@.len(),
        ensures
            after.waiters@.len() == 0,
            k_after.tasks@[t as int].state is Ready || !self.waiters@.contains(t),
            !self.waiters@.contains(t) ==> k_after.tasks@[t as int] == k.tasks@[t as int],
            k_after.pendsv == (k.pendsv || crate::kernel::wait_list::woke_a_higher_one(k, k_after)),
    {
        k_after.law_some_woken_outranks(k, self.waiters);
    }
}

} // verus!
