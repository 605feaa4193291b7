use crate::kernel::tcb::{TaskState, Tcb};
use crate::kernel::wait_list::WaitList;
use crate::kernel::Kernel;
use vstd::prelude::*;

verus! {

/// A mutual-exclusion lock with priority inheritance.
///
/// When a higher-priority task blocks on a `Mutex` held by a lower-priority
/// task, the owner's effective priority is raised to the waiter's priority,
/// preventing priority inversion. The base priority is restored when the lock is
/// released. An owner that acquired the lock with `try_lock` inherits nothing.
pub struct Mutex<T> {
    /// The protected value.
    pub data: T,
    /// The task that holds the lock.
    pub owner: Option<usize>,
    /// Whether the owner came by the lock with `lock`, at once or by a handover,
    /// and so inherits priorities.
    pub by_lock: bool,
    /// Tasks blocked in `lock`.
    pub waiters: WaitList,
    /// Optional human-readable name.
    pub name: Option<&'static str>,
}

/// Proof of holding a lock, returned by `Mutex::lock` and `Mutex::try_lock`.
///
/// Handing it to `drop` releases the lock.
pub struct MutexGuard {
    /// The task that acquired the lock.
    pub task: usize,
}

impl<T> Mutex<T> {
    /// The wait list is sound, and tasks wait only while somebody holds the
    /// lock.
    pub open spec fn wf(self, k: Kernel) -> bool {
        &&& k.wf()
        &&& k.holds(self.waiters)
        &&& self.owner matches Some(o) ==> o < k.tasks@.len()
        &&& self.waiters@.len() > 0 ==> self.owner is Some
    }

    /// No task that waits outranks an owner that inherits priorities.
    pub open spec fn inherits(self, k: Kernel) -> bool {
        self.owner matches Some(o) ==> (self.by_lock ==> forall|i: int|
            0 <= i < self.waiters@.len() ==> k.tasks@[o as int].priority
                <= k.tasks@[#[trigger] self.waiters@[i] as int].priority)
    }

    /// The table with the task `o` raised to at least the priority `p`.
    pub open spec fn boosted(tasks: Seq<Tcb>, o: int, p: u8) -> Seq<Tcb> {
        if p < tasks[o].priority {
            tasks.update(o, Tcb { priority: p, ..tasks[o] })
        } else {
            tasks
        }
    }

    /// The table with the task `o` back at its base priority.
    pub open spec fn restored(tasks: Seq<Tcb>, o: int) -> Seq<Tcb> {
        tasks.update(o, Tcb { priority: tasks[o].base_priority, ..tasks[o] })
    }

    /// What a release does: the owner falls back to its base priority, and the
    /// lock passes to the highest-priority waiter, or is free if there is none.
    pub open spec fn handed_over(
        self,
        after: Mutex<T>,
        tasks_before: Seq<Tcb>,
        tasks_after: Seq<Tcb>,
    ) -> bool {
        let tasks = Self::restored(tasks_before, self.owner->0 as int);
        &&& after.data == self.data
        &&& after.name == self.name
        &&& if self.waiters@.len() == 0 {
            &&& after.owner is None
            &&& !after.by_lock
            &&& after.waiters == self.waiters
            &&& tasks_after == tasks
        } else {
            &&& after.owner == Some(WaitList::next_waiter(tasks, self.waiters@))
            &&& after.by_lock
            &&& after.waiters@ == WaitList::without_next(tasks, self.waiters@)
            &&& WaitList::woke_next(tasks, tasks_after, self.waiters@)
        }
    }

    /// The task that gets the lock on release outranks the current one.
    pub open spec fn handover_outranks(self, k: Kernel) -> bool {
        let tasks = Self::restored(k.tasks@, self.owner->0 as int);
        self.waiters@.len() > 0 && tasks[WaitList::next_waiter(
            tasks,
            self.waiters@,
        ) as int].priority < tasks[k.current->0 as int].priority
    }

    /// The task table once the current task has blocked on the lock: an owner
    /// that inherits priorities has at least its priority.
    pub open spec fn contended(self, k: Kernel) -> Seq<Tcb> {
        let c = k.current->0 as int;
        let tasks = if self.by_lock {
            Self::boosted(k.tasks@, self.owner->0 as int, k.tasks@[c].priority)
        } else {
            k.tasks@
        };
        tasks.update(
            c,
            Tcb { state: TaskState::Blocked, wait_next: self.waiters.head, ..tasks[c] },
        )
    }

    /// What `lock` does, and the guard it returns.
    pub open spec fn locked(
        self,
        after: Mutex<T>,
        k: Kernel,
        k_after: Kernel,
        r: Option<MutexGuard>,
    ) -> bool {
        &&& after.data == self.data
        &&& after.name == self.name
        &&& if self.owner is None {
            &&& r == Some(MutexGuard { task: k.current->0 })
            &&& after.owner == k.current
            &&& after.by_lock
            &&& after.waiters == self.waiters
            &&& k_after == k
        } else {
            &&& r is None
            &&& after.owner == self.owner
            &&& after.by_lock == self.by_lock
            &&& after.waiters@ == seq![k.current->0] + self.waiters@
            &&& k_after.tasks@ == self.contended(k)
            &&& k_after.same_but_tasks(k)
            &&& k_after.pendsv
        }
    }

    /// What `try_lock` does, and the guard it returns.
    pub open spec fn tried(self, after: Mutex<T>, k: Kernel, r: Option<MutexGuard>) -> bool {
        &&& after.data == self.data
        &&& after.name == self.name
        &&& after.waiters == self.waiters
        &&& if self.owner is None {
            &&& r == Some(MutexGuard { task: k.current->0 })
            &&& after.owner == k.current
            &&& !after.by_lock
        } else {
            &&& r is None
            &&& after.owner == self.owner
            &&& after.by_lock == self.by_lock
        }
    }

    /// Create an unlocked, unnamed `Mutex` around `data`.
    pub fn new(data: T) -> (r: Mutex<T>)
        ensures
            r.data == data,
            r.owner is None,
            !r.by_lock,
            r.waiters@.len() == 0,
            r.name is None,
            forall|k: Kernel| k.wf() ==> #[trigger] r.wf(k),
    {
        Mutex { data, owner: None, by_lock: false, waiters: WaitList::new(), name: None }
    }

    /// Create a named `Mutex`.
    pub fn new_named(data: T, name: &'static str) -> (r: Mutex<T>)
        ensures
            r.data == data,
            r.owner is None,
            !r.by_lock,
            r.waiters@.len() == 0,
            r.name == Some(name),
            forall|k: Kernel| k.wf() ==> #[trigger] r.wf(k),
    {
        Mutex { data, owner: None, by_lock: false, waiters: WaitList::new(), name: Some(name) }
    }

    /// Acquire the lock, or block the calling task until it is handed over.
    ///
    /// Returns a guard when the lock was free. On `None` the task has blocked,
    /// an owner that came by the lock with `lock` has inherited its priority if
    /// that is the higher one, and a context switch is requested; when the task
    /// runs again it owns the lock, and `resume` gives it the guard.
    pub fn lock(&mut self, k: &mut Kernel) -> (r: Option<MutexGuard>)
        requires
            old(self).wf(*old(k)),
            old(k).running(),
        ensures
            final(self).wf(*final(k)),
            old(self).locked(*final(self), *old(k), *final(k), r),
            old(self).inherits(*old(k)) ==> final(self).inherits(*final(k)),
    {
        let c: usize = k.current.unwrap();
        match self.owner {
            None => {
                self.owner = Some(c);
                self.by_lock = true;
                Some(MutexGuard { task: c })
            },
            Some(owner) => {
                let cur_prio: u8 = k.tasks[c].priority;
                if self.by_lock && cur_prio < k.tasks[owner].priority {
                    k.tasks[owner].priority = cur_prio;
                }
                proof {
                    k.lemma_untouched(*old(k), self.waiters);
                }
                k.block_and_push(&mut self.waiters);
                k.trigger_pendsv();
                proof {
                    if old(self).by_lock && old(self).inherits(*old(k)) {
                        assert forall|i: int| 0 <= i < self.waiters@.len() implies k.tasks@[owner as int].priority
                            <= k.tasks@[#[trigger] self.waiters@[i] as int].priority by {
                            if i > 0 {
                                assert(self.waiters@[i] == old(self).waiters@[i - 1]);
                            }
                        }
                    }
                }
                None
            },
        }
    }

    /// The guard of a task that was handed the lock while it was blocked.
    pub fn resume(&self, k: &Kernel) -> (r: MutexGuard)
        requires
            k.current is Some,
            self.owner == k.current,
        ensures
            r.guards(*self),
    {
        MutexGuard { task: k.current.unwrap() }
    }

    /// Attempt to acquire the lock without blocking.
    ///
    /// Returns a guard if the lock was free. An owner that acquires the lock
    /// this way inherits no priority while it holds it.
    pub fn try_lock(&mut self, k: &Kernel) -> (r: Option<MutexGuard>)
        requires
            old(self).wf(*k),
            k.current is Some,
        ensures
            final(self).wf(*k),
            old(self).tried(*final(self), *k, r),
    {
        if self.owner.is_none() {
            self.owner = k.current;
            self.by_lock = false;
            Some(MutexGuard { task: k.current.unwrap() })
        } else {
            None
        }
    }

    /// Release the lock.
    ///
    /// The owner falls back to its base priority. The lock passes straight to
    /// the highest-priority waiter, if there is one, and a context switch is
    /// requested when that task outranks the current one.
    pub fn unlock_internal(&mut self, k: &mut Kernel)
        requires
            old(self).wf(*old(k)),
            old(self).owner is Some,
        ensures
            final(self).wf(*final(k)),
            final(self).inherits(*final(k)),
            old(self).handed_over(*final(self), old(k).tasks@, final(k).tasks@),
            final(k).same_but_tasks(*old(k)),
            final(k).pendsv == (old(k).pendsv || old(self).handover_outranks(*old(k))),
    {
        let old_owner: usize = self.owner.unwrap();
        let base: u8 = k.tasks[old_owner].base_priority;
        k.tasks[old_owner].priority = base;
        proof {
            k.lemma_untouched(*old(k), self.waiters);
        }
        if !self.waiters.is_empty(k) {
            let ghost tasks = k.tasks@;
            let ghost ids = self.waiters@;
            proof {
                WaitList::law_next_waiter_is_highest(tasks, ids);
                WaitList::lemma_removed(ids, WaitList::next_index(tasks, ids));
            }
            let (next_owner, need_preempt) = k.wake_highest(&mut self.waiters);
            self.owner = Some(next_owner);
            self.by_lock = true;
            if need_preempt {
                k.trigger_pendsv();
            }
            proof {
                assert forall|i: int| 0 <= i < self.waiters@.len() implies k.tasks@[next_owner as int].priority
                    <= k.tasks@[#[trigger] self.waiters@[i] as int].priority by {
                    assert(self.waiters@.contains(self.waiters@[i]));
                    let j = choose|j: int| 0 <= j < ids.len() && ids[j] == self.waiters@[i];
                    assert(tasks[next_owner as int].priority <= tasks[ids[j] as int].priority);
                }
            }
        } else {
            self.owner = None;
            self.by_lock = false;
        }
    }
}

impl<T> Mutex<T> {
    /// Priority inheritance: once a task has blocked on the lock, an owner that
    /// came by it with `lock` runs at the higher of their two priorities, one
    /// that came by it with `try_lock` at its own; nobody else's priority has
    /// changed.
    pub proof fn law_owner_inherits_priority(self, k: Kernel)
        requires
            self.wf(k),
            k.running(),
            self.owner is Some,
        ensures
            ({
                let o = self.owner->0 as int;
                let waiter = k.tasks@[k.current->0 as int].priority;
                let after = self.contended(k);
                &&& after.len() == k.tasks@.len()
                &&& after[o].priority == if self.by_lock && waiter < k.tasks@[o].priority {
                    waiter
                } else {
                    k.tasks@[o].priority
                }
                &&& forall|t: int|
                    0 <= t < k.tasks@.len() && t != o ==> (#[trigger] after[t]).priority
                        == k.tasks@[t].priority
                &&& forall|t: int|
                    0 <= t < k.tasks@.len() ==> (#[trigger] after[t]).base_priority
                        == k.tasks@[t].base_priority
            }),
    {
    }

    /// Priority inheritance over two calls: if a task has acquired the lock with
    /// `lock` and holds it still, it runs at the priority of any task of a higher one
    /// that then blocks in `lock`.
    pub proof fn law_owner_by_lock_inherits(
        self,
        held: Mutex<T>,
        k: Kernel,
        k_held: Kernel,
        guard: Option<MutexGuard>,
        later: Mutex<T>,
        k_before: Kernel,
        k_after: Kernel,
        r: Option<MutexGuard>,
    )
        requires
            self.locked(held, k, k_held, guard),
            guard is Some,
            held.locked(later, k_before, k_after, r),
            held.wf(k_before),
            k_before.running(),
            k.current is Some,
            k_before.tasks@[k_before.current->0 as int].priority
                < k_before.tasks@[k.current->0 as int].priority,
        ensures
            r is None,
            later.owner == k.current,
            k_after.tasks@[k.current->0 as int].priority
                == k_before.tasks@[k_before.current->0 as int].priority,
    {
    }

    /// The same of a task that the lock was handed over to, whatever way the owner
    /// before it had come by the lock.
    pub proof fn law_owner_by_handover_inherits(
        self,
        held: Mutex<T>,
        tasks: Seq<Tcb>,
        tasks_after: Seq<Tcb>,
        later: Mutex<T>,
        k_before: Kernel,
        k_after: Kernel,
        r: Option<MutexGuard>,
    )
        requires
            self.owner is Some,
            self.waiters@.len() > 0,
            self.handed_over(held, tasks, tasks_after),
            held.locked(later, k_before, k_after, r),
            held.wf(k_before),
            k_before.running(),
            k_before.tasks@[k_before.current->0 as int].priority
                < k_before.tasks@[held.owner->0 as int].priority,
        ensures
            r is None,
            held.owner is Some,
            later.owner == held.owner,
            k_after.tasks@[held.owner->0 as int].priority
                == k_before.tasks@[k_before.current->0 as int].priority,
    {
    }

    /// A task that has acquired the lock with `try_lock` keeps its own priority,
    /// whoever blocks in `lock` while it holds the lock.
    pub proof fn law_owner_by_try_lock_inherits_nothing(
        self,
        held: Mutex<T>,
        k: Kernel,
        guard: Option<MutexGuard>,
        later: Mutex<T>,
        k_before: Kernel,
        k_after: Kernel,
        r: Option<MutexGuard>,
    )
        requires
            self.tried(held, k, guard),
            guard is Some,
            held.locked(later, k_before, k_after, r),
            held.wf(k_before),
            k_before.running(),
            k.current is Some,
        ensures
            r is None,
            later.owner == k.current,
            forall|t: int|
                0 <= t < k_before.tasks@.len() ==> (#[trigger] k_after.tasks@[t]).priority
                    == k_before.tasks@[t].priority,
    {
    }

    /// A task gets a lock that is free at once, with `lock` as with `try_lock`, and
    /// one that asks for a held lock with `lock` is blocked and waits for it.
    pub proof fn law_free_locks_are_granted(
        self,
        after: Mutex<T>,
        k: Kernel,
        k_after: Kernel,
        r: Option<MutexGuard>,
    )
        requires
            self.wf(k),
            k.running(),
            self.locked(after, k, k_after, r),
        ensures
            self.owner is None ==> r is Some && after.owner == k.current && k_after == k,
            self.owner is Some ==> {
                &&& r is None
                &&& after.owner == self.owner
                &&& after.waiters@ == seq![k.current->0] + self.waiters@
                &&& k_after.tasks@[k.current->0 as int].state is Blocked
                &&& k_after.pendsv
                &&& forall|t: int|
                    0 <= t < k.tasks@.len() && k.current != Some(t as usize) ==> (
                    #[trigger] k_after.tasks@[t]).state == k.tasks@[t].state
            },
    {
    }

    /// A release asks for a switch exactly when it makes a blocked task ready that
    /// has a higher priority than the current one, as both stand after the release.
    pub proof fn law_release_requests_a_switch_when_due(
        self,
        after: Mutex<T>,
        k: Kernel,
        k_after: Kernel,
    )
        requires
            self.wf(k),
            self.owner is Some,
            self.handed_over(after, k.tasks@, k_after.tasks@),
            k_after.same_but_tasks(k),
        ensures
            self.handover_outranks(k) == crate::kernel::wait_list::woke_a_higher_one(k, k_after),
    {
        let o = self.owner->0 as int;
        let tasks = Self::restored(k.tasks@, o);
        let ids = self.waiters@;
        let c = k.current->0 as int;
        if ids.len() > 0 {
            let w = WaitList::next_waiter(tasks, ids) as int;
            WaitList::law_next_waiter_is_highest(tasks, ids);
            WaitList::lemma_removed(ids, WaitList::next_index(tasks, ids));
            assert(k.tasks@[w].state is Blocked);
            assert(k_after.tasks@[w].state is Ready);
            assert(k_after.tasks@[c].priority == tasks[c].priority);
            assert(k_after.tasks@[w].priority == tasks[w].priority);
            assert forall|t: int|
                0 <= t < k.tasks@.len() && t != w implies (#[trigger] k_after.tasks@[t]).state
                == k.tasks@[t].state by {}
        } else {
            assert forall|t: int|
                0 <= t < k.tasks@.len() implies (#[trigger] k_after.tasks@[t]).state
                == k.tasks@[t].state by {}
        }
    }

    /// Tasks wait only for a lock that somebody holds, and are blocked.
    pub proof fn law_nobody_waits_for_a_free_lock(self, k: Kernel, i: int)
        requires
            self.wf(k),
            0 <= i < self.waiters@.len(),
        ensures
            self.owner is Some,
            k.tasks@[self.waiters@[i] as int].state is Blocked,
    {
    }

    /// Nobody's static priority changes by what is inherited, or given back: neither
    /// when a task blocks on the lock, nor when the lock is released.
    pub proof fn law_static_priorities_stay(
        self,
        after: Mutex<T>,
        k: Kernel,
        tasks_after: Seq<Tcb>,
        t: int,
    )
        requires
            self.wf(k),
            k.running(),
            self.owner is Some,
            tasks_after == self.contended(k) || self.handed_over(after, k.tasks@, tasks_after),
            0 <= t < k.tasks@.len(),
        ensures
            crate::task::static_priority(tasks_after[t]) == crate::task::static_priority(
                k.tasks@[t],
            ),
    {
        if tasks_after != self.contended(k) && self.waiters@.len() > 0 {
            let tasks = Self::restored(k.tasks@, self.owner->0 as int);
            WaitList::law_next_waiter_is_highest(tasks, self.waiters@);
        }
    }

    /// A release leaves the protected value alone, and so do `lock` and `try_lock`.
    pub proof fn law_locking_keeps_the_value(
        self,
        after: Mutex<T>,
        k: Kernel,
        k_after: Kernel,
        r: Option<MutexGuard>,
    )
        requires
            self.locked(after, k, k_after, r) || self.tried(after, k, r) || self.handed_over(
                after,
                k.tasks@,
                k_after.tasks@,
            ),
        ensures
            after.data == self.data,
            after.name == self.name,
    {
    }

    /// Blocking on a held lock keeps every other list, the one that its owner may
    /// be on among them, and the task that blocks was on none of them.
    pub proof fn law_contention_keeps_other_lists(self, k: Kernel, k_after: Kernel, l: WaitList)
        requires
            self.wf(k),
            k.running(),
            self.owner is Some,
            k_after.tasks@ == self.contended(k),
            k_after.same_but_tasks(k),
            k.holds(l),
        ensures
            k_after.holds(l),
            !l@.contains(k.current->0),
    {
        k.lemma_running_waits_nowhere(l);
        assert forall|i: int| 0 <= i < l@.len() implies k_after.tasks@[#[trigger] l@[i] as int].wait_next
            == k.tasks@[l@[i] as int].wait_next && k_after.tasks@[l@[i] as int].state
            == k.tasks@[l@[i] as int].state by {
            assert(l@.contains(l@[i]));
        }
        k_after.lemma_untouched(k, l);
    }

    /// A release puts the owner back at its base priority, whatever it had
    /// inherited, and leaves everybody else's priority alone.
    pub proof fn law_release_restores_priority(
        self,
        after: Mutex<T>,
        k: Kernel,
        tasks_after: Seq<Tcb>,
    )
        requires
            self.wf(k),
            self.owner is Some,
            self.handed_over(after, k.tasks@, tasks_after),
        ensures
            tasks_after[self.owner->0 as int].priority
                == k.tasks@[self.owner->0 as int].base_priority,
            forall|t: int|
                0 <= t < k.tasks@.len() && t != self.owner->0 ==> (#[trigger] tasks_after[t]).priority
                    == k.tasks@[t].priority,
    {
        if self.waiters@.len() > 0 {
            let tasks = Self::restored(k.tasks@, self.owner->0 as int);
            WaitList::law_next_waiter_is_highest(tasks, self.waiters@);
            assert(tasks_after[self.owner->0 as int].priority
                == tasks[self.owner->0 as int].priority);
        }
    }

    /// A released lock is never idle while somebody waits: it belongs to a task
    /// that was waiting for it and that none of the others outranks.
    pub proof fn law_release_passes_to_highest(
        self,
        after: Mutex<T>,
        k: Kernel,
        tasks_after: Seq<Tcb>,
    )
        requires
            self.wf(k),
            self.owner is Some,
            self.handed_over(after, k.tasks@, tasks_after),
        ensures
            (after.owner is Some) == (self.waiters@.len() > 0),
            after.owner matches Some(w) ==> {
                &&& self.waiters@.contains(w)
                &&& !after.waiters@.contains(w)
                &&& tasks_after[w as int].state is Ready
                &&& forall|i: int|
                    0 <= i < self.waiters@.len() ==> tasks_after[w as int].priority
                        <= tasks_after[#[trigger] self.waiters@[i] as int].priority
            },
    {
        if self.waiters@.len() > 0 {
            let tasks = Self::restored(k.tasks@, self.owner->0 as int);
            let ids = self.waiters@;
            WaitList::law_next_waiter_is_highest(tasks, ids);
            WaitList::lemma_removed(ids, WaitList::next_index(tasks, ids));
            let w = after.owner->0;
            assert forall|i: int| 0 <= i < ids.len() implies tasks_after[w as int].priority
                <= tasks_after[#[trigger] ids[i] as int].priority by {
                assert(tasks[w as int].priority <= tasks[ids[i] as int].priority);
            }
        }
    }

    /// A release keeps every list that shares nobody with the waiters.
    pub proof fn law_release_keeps_other_lists(
        self,
        after: Mutex<T>,
        k: Kernel,
        k_after: Kernel,
        l: WaitList,
    )
        requires
            self.wf(k),
            self.owner is Some,
            self.handed_over(after, k.tasks@, k_after.tasks@),
            k_after.same_but_tasks(k),
            k.holds(l),
            l.disjoint(self.waiters),
        ensures
            k_after.holds(l),
            l.disjoint(after.waiters),
    {
        let tasks = Self::restored(k.tasks@, self.owner->0 as int);
        let ids = self.waiters@;
        if ids.len() > 0 {
            WaitList::law_next_waiter_is_highest(tasks, ids);
            WaitList::lemma_removed(ids, WaitList::next_index(tasks, ids));
        }
        assert forall|i: int| 0 <= i < l@.len() implies k_after.tasks@[#[trigger] l@[i] as int].wait_next
            == k.tasks@[l@[i] as int].wait_next && k_after.tasks@[l@[i] as int].state
            == k.tasks@[l@[i] as int].state by {
            assert(l@.contains(l@[i]));
            assert(!ids.contains(l@[i]));
        }
        k_after.lemma_untouched(k, l);
        assert forall|x: usize| l@.contains(x) implies !#[trigger] after.waiters@.contains(x) by {
            assert(!ids.contains(x));
        }
    }

    /// Mutual exclusion: while a task holds the lock, no call of `lock` or
    /// `try_lock` by whatever task returns a guard, and the owner stays the
    /// same until it releases the lock.
    pub proof fn law_owner_stays_until_release(calls: Seq<Acquisition<T>>, n: int)
        requires
            Acquisition::without_release(calls),
            0 <= n < calls.len(),
            calls[0].before.owner is Some,
        ensures
            calls[n].guard is None,
            calls[n].after.owner == calls[0].before.owner,
        decreases n,
    {
        assert(calls[n].happened());
        if n > 0 {
            Self::law_owner_stays_until_release(calls, n - 1);
            assert(calls[n].before.owner == calls[n - 1].after.owner);
        }
    }

    /// Mutual exclusion: of all calls of `lock` and `try_lock` on a lock that is
    /// not released in between, at most one returns a guard.
    pub proof fn law_mutual_exclusion(calls: Seq<Acquisition<T>>, i: int, j: int)
        requires
            Acquisition::without_release(calls),
            0 <= i < j < calls.len(),
            calls[i].guard is Some,
        ensures
            calls[j].guard is None,
    {
        assert(calls[i].happened());
        let rest = calls.skip(i + 1);
        assert forall|n: int| 0 <= n < rest.len() implies (#[trigger] rest[n]).happened() by {
            assert(calls[n + i + 1].happened());
        }
        assert forall|m: int, n: int|
            0 <= m && n == m + 1 && n < rest.len() implies (#[trigger] rest[n]).before.owner == (
        #[trigger] rest[m]).after.owner by {
            assert(calls[n + i + 1].before.owner == calls[m + i + 1].after.owner);
        }
        assert(calls[i + 1].before.owner == calls[i].after.owner);
        Self::law_owner_stays_until_release(rest, j - i - 1);
    }
}

/// One call of `lock` or `try_lock`, with what it met and what it left.
pub struct Acquisition<T> {
    pub before: Mutex<T>,
    pub after: Mutex<T>,
    pub k: Kernel,
    pub k_after: Kernel,
    pub guard: Option<MutexGuard>,
}

impl<T> Acquisition<T> {
    /// The call did what `lock` or `try_lock` does, for the task that was current.
    pub open spec fn happened(self) -> bool {
        &&& self.k.current is Some
        &&& self.before.locked(self.after, self.k, self.k_after, self.guard) || self.before.tried(
            self.after,
            self.k,
            self.guard,
        )
    }

    /// A history of calls, by any tasks, on one lock that nobody releases in
    /// between; the protected value and the kernel may change meanwhile.
    pub open spec fn without_release(calls: Seq<Acquisition<T>>) -> bool {
        &&& forall|n: int| 0 <= n < calls.len() ==> (#[trigger] calls[n]).happened()
        &&& forall|m: int, n: int|
            0 <= m && n == m + 1 && n < calls.len() ==> (#[trigger] calls[n]).before.owner == (
            #[trigger] calls[m]).after.owner
    }
}

impl MutexGuard {
    /// The guard stands for the lock `m`.
    pub open spec fn guards<T>(self, m: Mutex<T>) -> bool {
        m.owner == Some(self.task)
    }

    /// Read the protected value.
    pub fn deref<'a, T>(&self, m: &'a Mutex<T>) -> (r: &'a T)
        requires
            self.guards(*m),
        ensures
            *r == m.data,
    {
        &m.data
    }

    /// Access the protected value.
    pub fn deref_mut<'a, T>(&mut self, m: &'a mut Mutex<T>) -> (r: &'a mut T)
        requires
            old(self).guards(*old(m)),
        ensures
            *final(self) == *old(self),
            *r == old(m).data,
            *final(m) == (Mutex { data: *final(r), ..*old(m) }),
            forall|k: Kernel| old(m).wf(k) ==> #[trigger] final(m).wf(k),
    {
        &mut m.data
    }

    /// Release the lock.
    pub fn drop<T>(self, m: &mut Mutex<T>, k: &mut Kernel)
        requires
            old(m).wf(*old(k)),
            self.guards(*old(m)),
        ensures
            final(m).wf(*final(k)),
            final(m).inherits(*final(k)),
            old(m).handed_over(*final(m), old(k).tasks@, final(k).tasks@),
            final(k).same_but_tasks(*old(k)),
            final(k).pendsv == (old(k).pendsv || old(m).handover_outranks(*old(k))),
    {
        m.unlock_internal(k);
    }
}

} // verus!
