use crate::kernel::tcb::{TaskState, Tcb};
use crate::kernel::Kernel;
use vstd::prelude::*;

verus! {

/// A list of blocked tasks, threaded through `Tcb::wait_next`.
///
/// The list is last-in first-out at insertion; the order by priority is
/// enforced on removal.
pub struct WaitList {
    /// First task on the list.
    pub head: Option<usize>,
    /// The tasks on the list, front first.
    pub ids: Ghost<Seq<usize>>,
}

impl View for WaitList {
    type V = Seq<usize>;

    open spec fn view(&self) -> Seq<usize> {
        self.ids@
    }
}

impl WaitList {
    /// The `i`-th entry of a list, or `None` past its end.
    pub open spec fn entry(ids: Seq<usize>, i: int) -> Option<usize> {
        if 0 <= i < ids.len() {
            Some(ids[i])
        } else {
            None
        }
    }

    /// The links of the task table spell out `ids`.
    pub open spec fn chained(tasks: Seq<Tcb>, ids: Seq<usize>) -> bool {
        &&& ids.no_duplicates()
        &&& forall|i: int| 0 <= i < ids.len() ==> (#[trigger] ids[i]) < tasks.len()
        &&& forall|i: int|
            0 <= i < ids.len() ==> (#[trigger] tasks[ids[i] as int]).wait_next == WaitList::entry(
                ids,
                i + 1,
            )
    }

    /// The table once the `b`-th entry of `ids` has been taken off the list.
    pub open spec fn unlinked(tasks: Seq<Tcb>, ids: Seq<usize>, b: int) -> Seq<Tcb> {
        let skipped = if b > 0 {
            tasks.update(
                ids[b - 1] as int,
                Tcb { wait_next: WaitList::entry(ids, b + 1), ..tasks[ids[b - 1] as int] },
            )
        } else {
            tasks
        };
        skipped.update(ids[b] as int, Tcb { wait_next: None, ..tasks[ids[b] as int] })
    }

    /// Position of the entry that leaves first: the lowest priority value, and the
    /// foremost of those that share it.
    pub open spec fn next_index(tasks: Seq<Tcb>, ids: Seq<usize>) -> int
        decreases ids.len(),
    {
        if ids.len() <= 1 {
            0
        } else {
            let best = WaitList::next_index(tasks, ids.drop_last());
            if tasks[ids.last() as int].priority < tasks[ids[best] as int].priority {
                ids.len() - 1
            } else {
                best
            }
        }
    }

    /// The task that leaves the list first.
    pub open spec fn next_waiter(tasks: Seq<Tcb>, ids: Seq<usize>) -> usize {
        ids[WaitList::next_index(tasks, ids)]
    }

    /// The list once its first leaver is gone.
    pub open spec fn without_next(tasks: Seq<Tcb>, ids: Seq<usize>) -> Seq<usize> {
        ids.remove(WaitList::next_index(tasks, ids))
    }

    /// Two task tables agree on every task, but for the links of those in `ids`.
    pub open spec fn same_but_links(before: Seq<Tcb>, after: Seq<Tcb>, ids: Seq<usize>) -> bool {
        &&& after.len() == before.len()
        &&& forall|t: int|
            0 <= t < before.len() ==> #[trigger] after[t] == (if ids.contains(t as usize) {
                Tcb { wait_next: after[t].wait_next, ..before[t] }
            } else {
                before[t]
            })
    }

    /// The table once `id` has been made ready with a full time slice.
    pub open spec fn readied(tasks: Seq<Tcb>, id: usize) -> Seq<Tcb> {
        tasks.update(
            id as int,
            Tcb {
                state: TaskState::Ready { slice_remaining: tasks[id as int].time_slice },
                ..tasks[id as int]
            },
        )
    }

    /// No task is on both lists.
    pub open spec fn disjoint(self, other: WaitList) -> bool {
        forall|x: usize| self@.contains(x) ==> !#[trigger] other@.contains(x)
    }

    /// The table once everyone in `ids` has left the list and is ready with a
    /// full time slice.
    pub open spec fn all_woken(tasks: Seq<Tcb>, ids: Seq<usize>) -> Seq<Tcb> {
        Seq::new(
            tasks.len(),
            |t: int|
                if ids.contains(t as usize) {
                    Tcb {
                        state: TaskState::Ready { slice_remaining: tasks[t].time_slice },
                        wait_next: None,
                        ..tasks[t]
                    }
                } else {
                    tasks[t]
                },
        )
    }

    /// What it means to wake the first leaver of the list `ids`: it leaves the
    /// list and becomes ready with a full time slice, and of the tasks that stay
    /// only the links change.
    pub open spec fn woke_next(before: Seq<Tcb>, after: Seq<Tcb>, ids: Seq<usize>) -> bool {
        let w = WaitList::next_waiter(before, ids);
        WaitList::same_but_links(
            WaitList::readied(before, w).update(
                w as int,
                Tcb { wait_next: None, ..WaitList::readied(before, w)[w as int] },
            ),
            after,
            WaitList::without_next(before, ids),
        )
    }
}

impl WaitList {
    /// An empty list.
    pub fn new() -> (r: WaitList)
        ensures
            r@ == Seq::<usize>::empty(),
            r.head is None,
    {
        WaitList { head: None, ids: Ghost(Seq::empty()) }
    }

    /// Whether nobody waits.
    pub fn is_empty(&self, k: &Kernel) -> (r: bool)
        requires
            k.linked(*self),
        ensures
            r == (self@.len() == 0),
    {
        self.head.is_none()
    }
}

impl Kernel {
    /// The links of the task table spell out the list `l`.
    pub open spec fn linked(self, l: WaitList) -> bool {
        &&& l.head == WaitList::entry(l@, 0)
        &&& WaitList::chained(self.tasks@, l@)
    }

    /// The list `l` is linked and everyone on it is blocked; nobody can have
    /// blocked before the first launch.
    pub open spec fn holds(self, l: WaitList) -> bool {
        &&& self.linked(l)
        &&& forall|i: int|
            0 <= i < l@.len() ==> self.tasks@[#[trigger] l@[i] as int].state is Blocked
        &&& l@.len() > 0 ==> self.current is Some
    }

    /// The task table once the current task has blocked at the front of `l`.
    pub open spec fn blocked_on(self, l: WaitList) -> Seq<Tcb> {
        self.tasks@.update(
            self.current->0 as int,
            Tcb {
                state: TaskState::Blocked,
                wait_next: l.head,
                ..self.tasks@[self.current->0 as int]
            },
        )
    }

    /// The task `id` has a higher priority than the current one.
    pub open spec fn outranks_current(self, id: usize) -> bool {
        self.tasks@[id as int].priority < self.tasks@[self.current->0 as int].priority
    }

    /// One of the tasks `ids` has a higher priority than the current one.
    pub open spec fn any_outranks_current(self, ids: Seq<usize>) -> bool {
        exists|x: usize| ids.contains(x) && #[trigger] self.outranks_current(x)
    }

    /// A running task is on no wait list.
    pub proof fn lemma_running_waits_nowhere(self, l: WaitList)
        requires
            self.running(),
            self.holds(l),
        ensures
            !l@.contains(self.current->0),
    {
        if l@.contains(self.current->0) {
            let i = choose|i: int| 0 <= i < l@.len() && l@[i] == self.current->0;
            assert(self.tasks@[l@[i] as int].state is Blocked);
        }
    }

    /// A list survives every change that leaves the links and the states of the
    /// tasks on it alone.
    pub proof fn lemma_untouched(self, before: Kernel, l: WaitList)
        requires
            before.holds(l),
            before.tasks@.len() <= self.tasks@.len(),
            before.current is Some ==> self.current is Some,
            forall|i: int|
                0 <= i < l@.len() ==> self.tasks@[#[trigger] l@[i] as int].wait_next
                    == before.tasks@[l@[i] as int].wait_next
                    && self.tasks@[l@[i] as int].state == before.tasks@[l@[i] as int].state,
        ensures
            self.holds(l),
    {
        assert forall|i: int| 0 <= i < l@.len() implies (
        #[trigger] self.tasks@[l@[i] as int]).wait_next == WaitList::entry(l@, i + 1) by {
            assert(before.tasks@[l@[i] as int].wait_next == WaitList::entry(l@, i + 1));
        }
    }

    /// Waking the first leaver of the list `ids` keeps every list that shares
    /// nobody with it.
    pub proof fn law_wake_keeps_other_lists(self, before: Kernel, ids: Seq<usize>, l: WaitList)
        requires
            ids.len() > 0,
            ids.no_duplicates(),
            forall|i: int| 0 <= i < ids.len() ==> #[trigger] ids[i] < before.tasks@.len(),
            WaitList::woke_next(before.tasks@, self.tasks@, ids),
            self.same_but_tasks(before),
            before.holds(l),
            forall|x: usize| l@.contains(x) ==> !#[trigger] ids.contains(x),
        ensures
            self.holds(l),
    {
        WaitList::law_next_waiter_is_highest(before.tasks@, ids);
        WaitList::lemma_removed(ids, WaitList::next_index(before.tasks@, ids));
        assert forall|i: int| 0 <= i < l@.len() implies self.tasks@[#[trigger] l@[i] as int]
            == before.tasks@[l@[i] as int] by {
            assert(l@.contains(l@[i]));
            assert(!ids.contains(l@[i]));
        }
        self.lemma_untouched(before, l);
    }

    /// Blocking on one list keeps every other list, and the task that blocks was
    /// on none of them.
    pub proof fn law_block_keeps_other_lists(self, before: Kernel, l: WaitList, other: WaitList)
        requires
            before.running(),
            before.holds(other),
            self.tasks@ == before.blocked_on(l),
            self.same_but_tasks(before),
        ensures
            self.holds(other),
            !other@.contains(before.current->0),
    {
        before.lemma_running_waits_nowhere(other);
        self.lemma_untouched(before, other);
    }

    /// Waking everyone on the list `ids` keeps every list that shares nobody with
    /// it.
    pub proof fn law_wake_all_keeps_other_lists(
        self,
        before: Kernel,
        ids: Seq<usize>,
        other: WaitList,
    )
        requires
            before.holds(other),
            self.tasks@ == WaitList::all_woken(before.tasks@, ids),
            self.same_but_tasks(before),
            forall|x: usize| other@.contains(x) ==> !#[trigger] ids.contains(x),
        ensures
            self.holds(other),
    {
        assert forall|i: int| 0 <= i < other@.len() implies self.tasks@[#[trigger] other@[i] as int]
            == before.tasks@[other@[i] as int] by {
            assert(other@.contains(other@[i]));
            assert(!ids.contains(other@[i]));
        }
        self.lemma_untouched(before, other);
    }

    /// Whether the task `id` is on the list.
    pub fn wait_list_contains(&self, list: &WaitList, id: usize) -> (r: bool)
        requires
            self.linked(*list),
        ensures
            r == list@.contains(id),
    {
        let mut cur: Option<usize> = list.head;
        let ghost mut i: int = 0;
        while cur.is_some()
            invariant
                self.linked(*list),
                0 <= i <= list@.len(),
                cur == WaitList::entry(list@, i),
                forall|j: int| 0 <= j < i ==> #[trigger] list@[j] != id,
            decreases list@.len() - i,
        {
            let x: usize = cur.unwrap();
            if x == id {
                assert(list@[i] == id);
                return true;
            }
            cur = self.tasks[x].wait_next;
            proof {
                i = i + 1;
            }
        }
        false
    }

    /// Whether the two lists share nobody.
    pub fn lists_disjoint(&self, a: &WaitList, b: &WaitList) -> (r: bool)
        requires
            self.linked(*a),
            self.linked(*b),
        ensures
            r == a.disjoint(*b),
    {
        let mut cur: Option<usize> = a.head;
        let ghost mut i: int = 0;
        while cur.is_some()
            invariant
                self.linked(*a),
                self.linked(*b),
                0 <= i <= a@.len(),
                cur == WaitList::entry(a@, i),
                forall|j: int| 0 <= j < i ==> !b@.contains(#[trigger] a@[j]),
            decreases a@.len() - i,
        {
            let x: usize = cur.unwrap();
            if self.wait_list_contains(b, x) {
                assert(a@[i] == x);
                assert(a@.contains(x));
                return false;
            }
            cur = self.tasks[x].wait_next;
            proof {
                i = i + 1;
            }
        }
        true
    }

    /// Prepend `id` to the list.
    pub fn wait_list_push(&mut self, list: &mut WaitList, id: usize)
        requires
            old(self).linked(*old(list)),
            id < old(self).tasks@.len(),
            !old(list)@.contains(id),
        ensures
            final(self).linked(*final(list)),
            final(list)@ == seq![id] + old(list)@,
            final(self).tasks@ == old(self).tasks@.update(
                id as int,
                Tcb { wait_next: old(list).head, ..old(self).tasks@[id as int] },
            ),
            final(self).same_but_tasks(*old(self)),
            final(self).pendsv == old(self).pendsv,
    {
        self.tasks[id].wait_next = list.head;
        list.head = Some(id);
        proof {
            list.ids@ = seq![id] + list.ids@;
            assert forall|i: int| 0 <= i < list@.len() implies (
            #[trigger] self.tasks@[list@[i] as int]).wait_next == WaitList::entry(list@, i + 1) by {
                if i > 0 {
                    assert(list@[i] == old(list)@[i - 1]);
                }
            }
        }
    }

    /// Block the current task and put it at the front of the list.
    pub fn block_and_push(&mut self, list: &mut WaitList)
        requires
            old(self).wf(),
            old(self).running(),
            old(self).holds(*old(list)),
        ensures
            final(self).wf(),
            final(self).holds(*final(list)),
            final(list)@ == seq![old(self).current->0] + old(list)@,
            final(self).tasks@ == old(self).blocked_on(*old(list)),
            final(self).same_but_tasks(*old(self)),
            final(self).pendsv == old(self).pendsv,
    {
        let c: usize = self.current.unwrap();
        self.wait_list_push(list, c);
        self.block_current();
        assert forall|i: int| 0 <= i < list@.len() implies self.tasks@[#[trigger] list@[i] as int].state is Blocked by {
            if i > 0 {
                assert(list@[i] == old(list)@[i - 1]);
            }
        }
    }

    /// Take the highest-priority task off a list that is not empty, and make
    /// it ready.
    ///
    /// Returns that task, and whether it outranks the current one.
    pub fn wake_highest(&mut self, list: &mut WaitList) -> (r: (usize, bool))
        requires
            old(self).wf(),
            old(self).holds(*old(list)),
            old(list)@.len() > 0,
        ensures
            final(self).wf(),
            final(self).holds(*final(list)),
            r.0 == WaitList::next_waiter(old(self).tasks@, old(list)@),
            r.1 == old(self).outranks_current(r.0),
            final(list)@ == WaitList::without_next(old(self).tasks@, old(list)@),
            WaitList::woke_next(old(self).tasks@, final(self).tasks@, old(list)@),
            final(self).same_but_tasks(*old(self)),
            final(self).pendsv == old(self).pendsv,
    {
        proof {
            WaitList::law_next_waiter_is_highest(self.tasks@, list@);
            WaitList::lemma_removed(list@, WaitList::next_index(self.tasks@, list@));
        }
        let w: usize = self.wait_list_pop_highest(list).unwrap();
        let ghost popped = self.tasks@;
        let preempt: bool = self.unblock(w);
        proof {
            assert forall|i: int| 0 <= i < list@.len() implies self.tasks@[#[trigger] list@[i] as int].state is Blocked
                && self.tasks@[list@[i] as int] == popped[list@[i] as int] by {
                assert(list@.contains(list@[i]));
                assert(old(list)@.contains(list@[i]));
            }
        }
        (w, preempt)
    }

    /// Take everyone off the list, the highest priority first, and make them
    /// ready.
    ///
    /// Returns whether one of them outranks the current task.
    pub fn wake_all(&mut self, list: &mut WaitList) -> (r: bool)
        requires
            old(self).wf(),
            old(self).holds(*old(list)),
        ensures
            final(self).wf(),
            final(self).holds(*final(list)),
            final(list)@.len() == 0,
            final(self).tasks@ == WaitList::all_woken(old(self).tasks@, old(list)@),
            r == old(self).any_outranks_current(old(list)@),
            final(self).same_but_tasks(*old(self)),
            final(self).pendsv == old(self).pendsv,
    {
        let ghost ids = list@;
        let mut preempt: bool = false;
        while !list.is_empty(self)
            invariant
                self.wf(),
                self.holds(*list),
                old(self).wf(),
                old(self).holds(*old(list)),
                ids == old(list)@,
                self.same_but_tasks(*old(self)),
                self.pendsv == old(self).pendsv,
                forall|x: usize| list@.contains(x) ==> ids.contains(x),
                forall|t: int|
                    0 <= t < self.tasks@.len() ==> (#[trigger] self.tasks@[t]) == if list@.contains(
                        t as usize,
                    ) {
                        Tcb { wait_next: self.tasks@[t].wait_next, ..old(self).tasks@[t] }
                    } else {
                        WaitList::all_woken(old(self).tasks@, ids)[t]
                    },
                preempt == exists|x: usize|
                    ids.contains(x) && !list@.contains(x) && #[trigger] old(
                        self,
                    ).outranks_current(x),
            decreases list@.len(),
        {
            let ghost now = self.tasks@;
            let ghost left = list@;
            proof {
                WaitList::law_next_waiter_is_highest(now, left);
                WaitList::lemma_removed(left, WaitList::next_index(now, left));
                let w = WaitList::next_waiter(now, left);
                assert(left.contains(w));
                assert(now[w as int].priority == old(self).tasks@[w as int].priority);
                let c = self.current->0 as int;
                assert(now[c].priority == old(self).tasks@[c].priority);
            }
            let (w, higher) = self.wake_highest(list);
            if higher {
                preempt = true;
            }
            proof {
                assert(old(self).outranks_current(w) == higher);
                assert forall|t: int| 0 <= t < self.tasks@.len() implies (#[trigger] self.tasks@[t])
                    == if list@.contains(t as usize) {
                    Tcb { wait_next: self.tasks@[t].wait_next, ..old(self).tasks@[t] }
                } else {
                    WaitList::all_woken(old(self).tasks@, ids)[t]
                } by {
                    assert(now[t].time_slice == old(self).tasks@[t].time_slice);
                }
            }
        }
        assert(self.tasks@ =~= WaitList::all_woken(old(self).tasks@, ids));
        preempt
    }

    /// Remove and return the highest-priority task of the list.
    pub fn wait_list_pop_highest(&mut self, list: &mut WaitList) -> (r: Option<usize>)
        requires
            old(self).linked(*old(list)),
        ensures
            final(self).linked(*final(list)),
            final(self).same_but_tasks(*old(self)),
            final(self).pendsv == old(self).pendsv,
            old(list)@.len() == 0 ==> r is None && final(list)@ == old(list)@
                && final(self).tasks@ == old(self).tasks@,
            old(list)@.len() > 0 ==> {
                let w = WaitList::next_waiter(old(self).tasks@, old(list)@);
                &&& r == Some(w)
                &&& final(list)@ == WaitList::without_next(old(self).tasks@, old(list)@)
                &&& WaitList::same_but_links(
                    old(self).tasks@.update(
                        w as int,
                        Tcb { wait_next: None, ..old(self).tasks@[w as int] },
                    ),
                    final(self).tasks@,
                    final(list)@,
                )
            },
    {
        if list.head.is_none() {
            return None;
        }
        let best: usize = self.highest(list);
        let ghost b = WaitList::next_index(self.tasks@, list@);
        proof {
            WaitList::law_next_waiter_is_highest(self.tasks@, list@);
        }
        self.unlink(list, best, Ghost(b));
        Some(best)
    }

    /// The highest-priority task of a list that is not empty.
    fn highest(&self, list: &WaitList) -> (r: usize)
        requires
            self.linked(*list),
            list@.len() > 0,
        ensures
            r == WaitList::next_waiter(self.tasks@, list@),
    {
        let ghost ids = list@;
        let mut best: usize = list.head.unwrap();
        let mut best_prio: u8 = self.tasks[best].priority;
        let mut cur: Option<usize> = self.tasks[best].wait_next;
        let ghost mut j: int = 1;
        while cur.is_some()
            invariant
                self.linked(*list),
                ids == list@,
                1 <= j <= ids.len(),
                cur == WaitList::entry(ids, j),
                0 <= WaitList::next_index(self.tasks@, ids.take(j)) < j,
                best == ids[WaitList::next_index(self.tasks@, ids.take(j))],
                best_prio == self.tasks@[best as int].priority,
            decreases ids.len() - j,
        {
            let c: usize = cur.unwrap();
            assert(c == ids[j]);
            let p: u8 = self.tasks[c].priority;
            proof {
                assert(ids.take(j + 1).drop_last() =~= ids.take(j));
                assert(ids.take(j + 1).last() == ids[j]);
            }
            if p < best_prio {
                best_prio = p;
                best = c;
            }
            cur = self.tasks[c].wait_next;
            proof {
                j = j + 1;
            }
        }
        assert(ids.take(j) =~= ids);
        best
    }

    /// Take `best`, the `b`-th entry, off the list.
    fn unlink(&mut self, list: &mut WaitList, best: usize, Ghost(b): Ghost<int>)
        requires
            old(self).linked(*old(list)),
            0 <= b < old(list)@.len(),
            best == old(list)@[b],
        ensures
            final(self).linked(*final(list)),
            final(list)@ == old(list)@.remove(b),
            WaitList::same_but_links(
                old(self).tasks@.update(
                    best as int,
                    Tcb { wait_next: None, ..old(self).tasks@[best as int] },
                ),
                final(self).tasks@,
                final(list)@,
            ),
            final(self).same_but_tasks(*old(self)),
            final(self).pendsv == old(self).pendsv,
    {
        let ghost ids = list@;
        let head: usize = list.head.unwrap();
        if head == best {
            assert(b == 0);
            self.unlink_after(list, None, best, Ghost(b));
        } else {
            let mut prev: usize = head;
            let ghost mut p: int = 0;
            let mut next: Option<usize> = self.tasks[prev].wait_next;
            while next != Some(best)
                invariant
                    WaitList::chained(self.tasks@, ids),
                    0 <= p < b < ids.len(),
                    prev == ids[p],
                    best == ids[b],
                    next == WaitList::entry(ids, p + 1),
                decreases b - p,
            {
                prev = next.unwrap();
                next = self.tasks[prev].wait_next;
                proof {
                    p = p + 1;
                    assert(prev == ids[p]);
                }
            }
            assert(p + 1 == b) by {
                if p + 1 != b {
                    assert(ids[p + 1] != ids[b]);
                }
            }
            self.unlink_after(list, Some(prev), best, Ghost(b));
        }
    }

    /// Take `c`, the `b`-th entry, off the list; `prev` is the entry before it.
    pub(crate) fn unlink_after(
        &mut self,
        list: &mut WaitList,
        prev: Option<usize>,
        c: usize,
        Ghost(b): Ghost<int>,
    )
        requires
            old(self).linked(*old(list)),
            0 <= b < old(list)@.len(),
            c == old(list)@[b],
            prev == WaitList::entry(old(list)@, b - 1),
        ensures
            final(self).linked(*final(list)),
            final(list)@ == old(list)@.remove(b),
            WaitList::same_but_links(
                old(self).tasks@.update(
                    c as int,
                    Tcb { wait_next: None, ..old(self).tasks@[c as int] },
                ),
                final(self).tasks@,
                final(list)@,
            ),
            final(self).same_but_tasks(*old(self)),
            final(self).pendsv == old(self).pendsv,
    {
        let ghost ids = list@;
        let ghost before = self.tasks@;
        let after: Option<usize> = self.tasks[c].wait_next;
        match prev {
            None => {
                list.head = after;
            },
            Some(p) => {
                assert(p == ids[b - 1]);
                self.tasks[p].wait_next = after;
            },
        }
        self.tasks[c].wait_next = None;
        proof {
            list.ids@ = ids.remove(b);
            assert(before[ids[b] as int].wait_next == WaitList::entry(ids, b + 1));
            assert(self.tasks@ =~= WaitList::unlinked(before, ids, b));
            WaitList::lemma_unlinked(before, ids, b);
        }
    }
}

impl WaitList {
    /// Taking one entry off a chained list leaves the others chained, and touches
    /// nothing but links.
    pub proof fn lemma_unlinked(tasks: Seq<Tcb>, ids: Seq<usize>, b: int)
        requires
            WaitList::chained(tasks, ids),
            0 <= b < ids.len(),
        ensures
            WaitList::chained(WaitList::unlinked(tasks, ids, b), ids.remove(b)),
            WaitList::same_but_links(
                tasks.update(ids[b] as int, Tcb { wait_next: None, ..tasks[ids[b] as int] }),
                WaitList::unlinked(tasks, ids, b),
                ids.remove(b),
            ),
    {
        let after = WaitList::unlinked(tasks, ids, b);
        let rest = ids.remove(b);
        WaitList::lemma_removed(ids, b);
        assert(b > 0 ==> rest[b - 1] == ids[b - 1]);
        assert forall|i: int| 0 <= i < rest.len() implies (
        #[trigger] after[rest[i] as int]).wait_next == WaitList::entry(rest, i + 1) by {
            if i < b {
                assert(rest[i] == ids[i]);
                assert(tasks[ids[i] as int].wait_next == WaitList::entry(ids, i + 1));
            } else {
                assert(rest[i] == ids[i + 1]);
                assert(tasks[ids[i + 1] as int].wait_next == WaitList::entry(ids, i + 2));
            }
        }
    }

    /// Removing one entry keeps the others, in order and without repetition.
    pub proof fn lemma_removed(ids: Seq<usize>, b: int)
        requires
            ids.no_duplicates(),
            0 <= b < ids.len(),
        ensures
            ids.remove(b).len() == ids.len() - 1,
            ids.remove(b).no_duplicates(),
            !ids.remove(b).contains(ids[b]),
            forall|x: usize| ids.remove(b).contains(x) <==> ids.contains(x) && x != ids[b],
    {
        let r = ids.remove(b);
        assert forall|x: usize| ids.contains(x) && x != ids[b] implies r.contains(x) by {
            let i = choose|i: int| 0 <= i < ids.len() && ids[i] == x;
            if i < b {
                assert(r[i] == x);
            } else {
                assert(r[i - 1] == x);
            }
        }
        assert forall|x: usize| r.contains(x) implies ids.contains(x) && x != ids[b] by {
            let i = choose|i: int| 0 <= i < r.len() && r[i] == x;
            if i < b {
                assert(ids[i] == x);
            } else {
                assert(ids[i + 1] == x);
            }
        }
    }

    /// Who is on a list after one more has joined.
    pub proof fn lemma_pushed(ids: Seq<usize>, id: usize)
        ensures
            forall|x: usize| #[trigger]
                (seq![id] + ids).contains(x) <==> x == id || ids.contains(x),
    {
        let r = seq![id] + ids;
        assert(r[0] == id);
        assert forall|x: usize| ids.contains(x) implies #[trigger] r.contains(x) by {
            let i = choose|i: int| 0 <= i < ids.len() && ids[i] == x;
            assert(r[i + 1] == x);
        }
        assert forall|x: usize| #[trigger] r.contains(x) implies x == id || ids.contains(x) by {
            let i = choose|i: int| 0 <= i < r.len() && r[i] == x;
            if i > 0 {
                assert(ids[i - 1] == x);
            }
        }
    }

    /// Waking the first leaver makes exactly one task ready, and changes nobody
    /// else's state, priority or word.
    pub proof fn law_wake_readies_exactly_one(
        before: Seq<Tcb>,
        after: Seq<Tcb>,
        ids: Seq<usize>,
        t: int,
    )
        requires
            WaitList::chained(before, ids),
            ids.len() > 0,
            WaitList::woke_next(before, after, ids),
            0 <= t < before.len(),
        ensures
            t == WaitList::next_waiter(before, ids) ==> after[t].state is Ready,
            t != WaitList::next_waiter(before, ids) ==> after[t].state == before[t].state,
            after[t].priority == before[t].priority,
            after[t].wait_ptr == before[t].wait_ptr,
    {
        WaitList::law_next_waiter_is_highest(before, ids);
    }

    /// Waking everyone leaves nobody behind.
    pub proof fn law_wake_all_leaves_nobody_behind(tasks: Seq<Tcb>, ids: Seq<usize>, x: usize)
        requires
            WaitList::chained(tasks, ids),
            ids.contains(x),
        ensures
            WaitList::all_woken(tasks, ids)[x as int].state is Ready,
    {
    }

    /// The task that leaves a list first has the highest priority on it, and is
    /// the latest to have joined among those that share that priority.
    pub proof fn law_next_waiter_is_highest(tasks: Seq<Tcb>, ids: Seq<usize>)
        requires
            ids.len() > 0,
        ensures
            0 <= WaitList::next_index(tasks, ids) < ids.len(),
            forall|j: int|
                0 <= j < ids.len() ==> tasks[WaitList::next_waiter(tasks, ids) as int].priority
                    <= tasks[#[trigger] ids[j] as int].priority,
            forall|j: int|
                0 <= j < WaitList::next_index(tasks, ids) ==> tasks[WaitList::next_waiter(tasks, ids) as int].priority
                    < tasks[#[trigger] ids[j] as int].priority,
        decreases ids.len(),
    {
        if ids.len() > 1 {
            let init = ids.drop_last();
            WaitList::law_next_waiter_is_highest(tasks, init);
            assert forall|j: int| 0 <= j < ids.len() implies tasks[WaitList::next_waiter(tasks, ids) as int].priority
                <= tasks[#[trigger] ids[j] as int].priority by {
                if j < init.len() {
                    assert(ids[j] == init[j]);
                }
            }
            assert forall|j: int| 0 <= j < WaitList::next_index(tasks, ids) implies tasks[WaitList::next_waiter(
                tasks,
                ids,
            ) as int].priority < tasks[#[trigger] ids[j] as int].priority by {
                assert(ids[j] == init[j]);
            }
        }
    }
}

/// A task that was blocked in `k` is ready in `k_after`, and has a higher priority
/// there than the current task.
pub open spec fn woke_a_higher_one(k: Kernel, k_after: Kernel) -> bool {
    exists|t: int|
        0 <= t < k.tasks@.len() && (#[trigger] k.tasks@[t]).state is Blocked
            && k_after.tasks@[t].state is Ready && k_after.tasks@[t].priority
            < k_after.tasks@[k_after.current->0 as int].priority
}

impl WaitList {
    /// Waking one of those who wait picks somebody whom none of the others outranks,
    /// and among equals the one that stands foremost. That task is ready with a full
    /// time slice and off the list; of everybody else only the link to the next one
    /// can have changed.
    pub proof fn law_wake_picks_the_highest(before: Seq<Tcb>, after: Seq<Tcb>, ids: Seq<usize>)
        requires
            WaitList::chained(before, ids),
            ids.len() > 0,
            WaitList::woke_next(before, after, ids),
        ensures
            after.len() == before.len(),
            exists|i: int|
                {
                    let w = #[trigger] ids[i] as int;
                    &&& 0 <= i < ids.len()
                    &&& forall|j: int|
                        0 <= j < ids.len() ==> before[w].priority <= before[#[trigger] ids[j] as int].priority
                    &&& forall|j: int|
                        0 <= j < i ==> before[w].priority < before[#[trigger] ids[j] as int].priority
                    &&& after[w] == (Tcb {
                        state: TaskState::Ready { slice_remaining: before[w].time_slice },
                        wait_next: None,
                        ..before[w]
                    })
                    &&& forall|t: int|
                        0 <= t < before.len() && t != w ==> #[trigger] after[t] == (Tcb {
                            wait_next: after[t].wait_next,
                            ..before[t]
                        })
                    &&& WaitList::without_next(before, ids) == ids.remove(i)
                },
    {
        let i = WaitList::next_index(before, ids);
        WaitList::law_next_waiter_is_highest(before, ids);
        WaitList::lemma_removed(ids, i);
        let w = ids[i] as int;
        assert(w == WaitList::next_waiter(before, ids));
    }

    /// Of two tasks of the same priority that join a list one after the other, the
    /// second leaves it first, if nobody who was there before has a higher priority.
    pub proof fn law_latest_leaves_first(tasks: Seq<Tcb>, ids: Seq<usize>, a: usize, b: usize)
        requires
            tasks[a as int].priority == tasks[b as int].priority,
            forall|j: int|
                0 <= j < ids.len() ==> tasks[b as int].priority <= tasks[#[trigger] ids[j] as int].priority,
        ensures
            WaitList::next_waiter(tasks, seq![b] + (seq![a] + ids)) == b,
    {
        let list = seq![b] + (seq![a] + ids);
        WaitList::law_next_waiter_is_highest(tasks, list);
        let i = WaitList::next_index(tasks, list);
        if i > 0 {
            assert(list[0] == b);
        }
    }

    /// Waking everyone makes each of them ready with a full time slice, and leaves
    /// all others alone.
    pub proof fn law_wake_all_readies_everyone(tasks: Seq<Tcb>, ids: Seq<usize>, t: usize)
        requires
            WaitList::chained(tasks, ids),
            t < tasks.len(),
        ensures
            WaitList::all_woken(tasks, ids).len() == tasks.len(),
            (exists|j: int| 0 <= j < ids.len() && ids[j] == t) ==> WaitList::all_woken(
                tasks,
                ids,
            )[t as int] == (Tcb {
                state: TaskState::Ready { slice_remaining: tasks[t as int].time_slice },
                wait_next: None,
                ..tasks[t as int]
            }),
            (forall|j: int| 0 <= j < ids.len() ==> #[trigger] ids[j] != t) ==> WaitList::all_woken(
                tasks,
                ids,
            )[t as int] == tasks[t as int],
    {
        if exists|j: int| 0 <= j < ids.len() && ids[j] == t {
            let j = choose|j: int| 0 <= j < ids.len() && ids[j] == t;
            assert(ids.contains(t));
        }
    }
}

impl Kernel {
    /// Who is on a wait list is blocked and on it once, and the links lead from each
    /// to the next.
    pub proof fn law_waiters_are_blocked(self, l: WaitList, i: int)
        requires
            self.holds(l),
            0 <= i < l@.len(),
        ensures
            l.head == Some(l@[0]),
            l@[i] < self.tasks@.len(),
            self.tasks@[l@[i] as int].state is Blocked,
            self.tasks@[l@[i] as int].wait_next == (if i + 1 < l@.len() {
                Some(l@[i + 1])
            } else {
                None
            }),
            forall|j: int| 0 <= j < l@.len() && j != i ==> #[trigger] l@[j] != l@[i],
    {
        assert(self.tasks@[l@[i] as int].wait_next == WaitList::entry(l@, i + 1));
    }

    /// Blocking changes the current task alone: it is blocked, keeps its priority,
    /// its stack and its word, and points to those who waited before it.
    pub proof fn law_blocking_changes_the_caller_alone(self, l: WaitList, t: usize)
        requires
            self.running(),
            self.linked(l),
            t < self.tasks@.len(),
        ensures
            self.blocked_on(l).len() == self.tasks@.len(),
            self.current != Some(t) ==> self.blocked_on(l)[t as int] == self.tasks@[t as int],
            self.current == Some(t) ==> self.blocked_on(l)[t as int] == (Tcb {
                state: TaskState::Blocked,
                wait_next: if l@.len() > 0 {
                    Some(l@[0])
                } else {
                    None
                },
                ..self.tasks@[t as int]
            }),
    {
    }

    /// The task that is woken outranks the current one exactly when a task has gone
    /// from blocked to ready that has a higher priority than the current one.
    pub proof fn law_one_woken_outranks(self, before: Kernel, l: WaitList)
        requires
            before.wf(),
            before.holds(l),
            l@.len() > 0,
            WaitList::woke_next(before.tasks@, self.tasks@, l@),
            self.same_but_tasks(before),
        ensures
            before.outranks_current(WaitList::next_waiter(before.tasks@, l@)) == woke_a_higher_one(
                before,
                self,
            ),
    {
        let w = WaitList::next_waiter(before.tasks@, l@);
        WaitList::law_next_waiter_is_highest(before.tasks@, l@);
        WaitList::lemma_removed(l@, WaitList::next_index(before.tasks@, l@));
        let c = before.current->0 as int;
        assert(before.tasks@[w as int].state is Blocked);
        assert(self.tasks@[c].priority == before.tasks@[c].priority);
        assert(self.tasks@[w as int].state is Ready);
    }

    /// The same of those who are woken together.
    pub proof fn law_some_woken_outranks(self, before: Kernel, l: WaitList)
        requires
            before.wf(),
            before.holds(l),
            self.tasks@ == WaitList::all_woken(before.tasks@, l@),
            self.same_but_tasks(before),
        ensures
            before.any_outranks_current(l@) == woke_a_higher_one(before, self),
    {
        let c = before.current->0 as int;
        if before.any_outranks_current(l@) {
            let x = choose|x: usize| l@.contains(x) && #[trigger] before.outranks_current(x);
            let i = choose|i: int| 0 <= i < l@.len() && l@[i] == x;
            assert(before.tasks@[l@[i] as int].state is Blocked);
            assert(self.tasks@[x as int].state is Ready);
        }
        if woke_a_higher_one(before, self) {
            let t = choose|t: int|
                0 <= t < before.tasks@.len() && (#[trigger] before.tasks@[t]).state is Blocked
                    && self.tasks@[t].state is Ready && self.tasks@[t].priority
                    < self.tasks@[self.current->0 as int].priority;
            assert(l@.contains(t as usize));
            assert(before.outranks_current(t as usize));
        }
    }
}

} // verus!
