use crate::kernel::tcb::{TaskState, Tcb};
use crate::kernel::wait_list::WaitList;
use crate::kernel::Kernel;
use core::marker::PhantomData;
use std::collections::HashMap;
use vstd::prelude::*;

verus! {

broadcast use vstd::std_specs::hash::group_hash_axioms;

/// End of the free list.
pub const NIL: u8 = 0xFF;

/// A fixed-capacity memory pool with constant-time allocation.
///
/// Holds at most `N` values at a time. The free slots are threaded through a
/// separate array of indices.
pub struct Pool<T, const N: usize> {
    /// Slot storage: the value of each allocated slot.
    pub nodes: Vec<Option<T>>,
    /// For a free slot, the free slot behind it.
    pub next: Vec<u8>,
    /// First free slot, `NIL` when the pool is exhausted.
    pub free_head: u8,
    /// Tasks blocked in `alloc_blocking`.
    pub waiters: WaitList,
    /// The value of each blocked task.
    pub pending: HashMap<usize, T>,
    /// The free slots, first to be used first.
    pub free: Ghost<Seq<u8>>,
    /// The slots whose value is gone and that have not been given back yet.
    pub vacant: Ghost<Set<u8>>,
}

/// Handle of a slot allocated from a `Pool`.
///
/// Handing it to `drop` destroys the value and gives the slot back.
pub struct PoolBox<T, const N: usize> {
    /// The slot.
    pub slot: u8,
    /// The type of the value.
    pub marker: PhantomData<T>,
}

impl<T, const N: usize> Pool<T, N> {
    /// The `i`-th free slot, or `NIL` past the end.
    pub open spec fn entry(free: Seq<u8>, i: int) -> u8 {
        if 0 <= i < free.len() {
            free[i]
        } else {
            NIL
        }
    }

    /// The free list is sound, and a slot holds a value exactly when it is
    /// neither free nor vacant.
    pub open spec fn slots_wf(self) -> bool {
        let free = self.free@;
        &&& N <= 255
        &&& self.nodes@.len() == N
        &&& self.next@.len() == N
        &&& free.no_duplicates()
        &&& forall|i: int| 0 <= i < free.len() ==> #[trigger] free[i] < N
        &&& self.free_head == Self::entry(free, 0)
        &&& forall|i: int|
            0 <= i < free.len() ==> #[trigger] self.next@[free[i] as int] == Self::entry(free, i + 1)
        &&& forall|s: int|
            0 <= s < N ==> ((#[trigger] self.nodes@[s]) is Some <==> !free.contains(s as u8)
                && !self.vacant@.contains(s as u8))
        &&& self.vacant@.finite()
        &&& forall|s: u8| #[trigger] self.vacant@.contains(s) ==> s < N && !free.contains(s)
    }

    /// Well-formedness: tasks wait only while no slot is free, and each has left
    /// the value it wants to store.
    pub open spec fn wf(self, k: Kernel) -> bool {
        &&& k.wf()
        &&& self.slots_wf()
        &&& k.holds(self.waiters)
        &&& self.waiters@.len() > 0 ==> self.free@.len() == 0
        &&& forall|t: usize| #[trigger] self.pending@.contains_key(t) <==> self.waiters@.contains(t)
    }

    /// What the pool becomes when the first free slot takes `val`.
    pub open spec fn allocated(self, after: Pool<T, N>, val: T) -> bool {
        &&& after.nodes@ == self.nodes@.update(self.free@[0] as int, Some(val))
        &&& after.free@ == self.free@.drop_first()
        &&& after.vacant == self.vacant
        &&& after.waiters == self.waiters
        &&& after.pending == self.pending
    }

    /// The task table once the first leaver of the list `ids` has been woken
    /// with `slot` in its `wait_ptr`.
    pub open spec fn granted(
        before: Seq<Tcb>,
        after: Seq<Tcb>,
        ids: Seq<usize>,
        slot: u8,
    ) -> bool {
        let w = WaitList::next_waiter(before, ids) as int;
        WaitList::same_but_links(
            before.update(
                w,
                Tcb {
                    state: TaskState::Ready { slice_remaining: before[w].time_slice },
                    wait_next: None,
                    wait_ptr: slot as usize,
                    ..before[w]
                },
            ),
            after,
            WaitList::without_next(before, ids),
        )
    }

    /// What `alloc_blocking` does, and the slot it returns.
    pub open spec fn asked(
        self,
        after: Pool<T, N>,
        k: Kernel,
        k_after: Kernel,
        val: T,
        r: Option<PoolBox<T, N>>,
    ) -> bool {
        let c = k.current->0;
        &&& k_after.same_but_tasks(k)
        &&& r is Some == (self.free@.len() > 0)
        &&& match r {
            Some(b) => {
                &&& b.slot == self.free@[0]
                &&& b.of(after)
                &&& self.allocated(after, val)
                &&& k_after.tasks@ == k.tasks@.update(
                    c as int,
                    Tcb { wait_ptr: b.slot as usize, ..k.tasks@[c as int] },
                )
                &&& k_after.pendsv == k.pendsv
            },
            None => {
                &&& after.nodes == self.nodes
                &&& after.free == self.free
                &&& after.vacant == self.vacant
                &&& after.waiters@ == seq![c] + self.waiters@
                &&& after.pending@ == self.pending@.insert(c, val)
                &&& k_after.tasks@ == k.blocked_on(self.waiters)
                &&& k_after.pendsv
            },
        }
    }

    /// Create an empty pool: every slot is free, the lowest is used first.
    pub fn new() -> (r: Pool<T, N>)
        requires
            N <= 255,
        ensures
            r.free@ == Seq::new(N as nat, |i: int| i as u8),
            r.vacant@ == Set::<u8>::empty(),
            r.waiters@.len() == 0,
            r.slots_wf(),
            forall|k: Kernel| k.wf() ==> #[trigger] r.wf(k),
    {
        let mut nodes: Vec<Option<T>> = Vec::new();
        let mut next: Vec<u8> = Vec::new();
        let mut i: usize = 0;
        while i < N
            invariant
                N <= 255,
                i <= N,
                nodes@.len() == i,
                next@.len() == i,
                forall|j: int| 0 <= j < i ==> (#[trigger] nodes@[j]) is None,
                forall|j: int|
                    0 <= j < i ==> #[trigger] next@[j] == (if j + 1 < N {
                        (j + 1) as u8
                    } else {
                        NIL
                    }),
            decreases N - i,
        {
            nodes.push(None);
            next.push(
                if i + 1 < N {
                    (i + 1) as u8
                } else {
                    NIL
                },
            );
            i = i + 1;
        }
        let ghost free = Seq::new(N as nat, |i: int| i as u8);
        assert forall|s: int| 0 <= s < N implies (#[trigger] nodes@[s]) is None && free.contains(
            s as u8,
        ) by {
            assert(free[s] == s as u8);
        }
        Pool {
            nodes,
            next,
            free_head: if N == 0 {
                NIL
            } else {
                0
            },
            waiters: WaitList::new(),
            pending: HashMap::new(),
            free: Ghost(free),
            vacant: Ghost(Set::empty()),
        }
    }

    /// Put `val` in the first free slot.
    fn take_slot(&mut self, val: T) -> (r: u8)
        requires
            old(self).slots_wf(),
            old(self).free@.len() > 0,
        ensures
            final(self).slots_wf(),
            r == old(self).free@[0],
            r < N,
            old(self).allocated(*final(self), val),
    {
        let s: u8 = self.free_head;
        let ghost free = self.free@;
        proof {
            assert(self.next@[free[0] as int] == Self::entry(free, 1));
        }
        self.free_head = self.next[s as usize];
        self.nodes[s as usize] = Some(val);
        proof {
            let rest = free.drop_first();
            self.free@ = rest;
            assert forall|i: int| 0 <= i < rest.len() implies #[trigger] self.next@[rest[i] as int]
                == Self::entry(rest, i + 1) by {
                assert(rest[i] == free[i + 1]);
                assert(self.next@[free[i + 1] as int] == Self::entry(free, i + 2));
            }
            assert forall|x: int| 0 <= x < N implies ((#[trigger] self.nodes@[x]) is Some
                <==> !rest.contains(x as u8) && !self.vacant@.contains(x as u8)) by {
                if rest.contains(x as u8) {
                    let i = choose|i: int| 0 <= i < rest.len() && rest[i] == x as u8;
                    assert(free[i + 1] == x as u8);
                    assert(free.contains(x as u8));
                } else if free.contains(x as u8) {
                    let i = choose|i: int| 0 <= i < free.len() && free[i] == x as u8;
                    if i > 0 {
                        assert(rest[i - 1] == x as u8);
                    }
                }
            }
            assert forall|x: u8| #[trigger] self.vacant@.contains(x) implies !rest.contains(x) by {
                if rest.contains(x) {
                    let i = choose|i: int| 0 <= i < rest.len() && rest[i] == x;
                    assert(free[i + 1] == x);
                }
            }
        }
        s
    }

    /// Allocate a slot for `val`, unless all `N` slots are in use.
    ///
    /// The value is dropped when there is no slot for it.
    pub fn try_alloc(&mut self, val: T) -> (r: Option<PoolBox<T, N>>)
        requires
            old(self).slots_wf(),
        ensures
            final(self).slots_wf(),
            forall|k: Kernel| old(self).wf(k) ==> #[trigger] final(self).wf(k),
            r is Some == (old(self).free@.len() > 0),
            r matches Some(b) ==> {
                &&& b.slot == old(self).free@[0]
                &&& b.of(*final(self))
                &&& old(self).allocated(*final(self), val)
            },
            r is None ==> *final(self) == *old(self),
    {
        if self.free_head != NIL {
            let s: u8 = self.take_slot(val);
            Some(PoolBox { slot: s, marker: PhantomData })
        } else {
            None
        }
    }

    /// Allocate a slot for `val`, or block the calling task until one is handed
    /// to it.
    ///
    /// On `None` the task has blocked and a context switch is requested; when
    /// it runs again, `resume` gives it its slot.
    pub fn alloc_blocking(&mut self, k: &mut Kernel, val: T) -> (r: Option<PoolBox<T, N>>)
        requires
            old(self).wf(*old(k)),
            old(k).running(),
        ensures
            final(self).wf(*final(k)),
            old(self).asked(*final(self), *old(k), *final(k), val, r),
    {
        let c: usize = k.current.unwrap();
        if self.free_head != NIL {
            let s: u8 = self.take_slot(val);
            k.tasks[c].wait_ptr = s as usize;
            Some(PoolBox { slot: s, marker: PhantomData })
        } else {
            proof {
                WaitList::lemma_pushed(self.waiters@, c);
            }
            self.pending.insert(c, val);
            k.block_and_push(&mut self.waiters);
            k.trigger_pendsv();
            None
        }
    }

    /// The slot that was handed to the current task while it was blocked in
    /// `alloc_blocking`.
    pub fn resume(&self, k: &Kernel) -> (r: PoolBox<T, N>)
        requires
            k.wf(),
            k.current is Some,
        ensures
            r.slot == k.tasks@[k.current->0 as int].wait_ptr as u8,
    {
        PoolBox { slot: k.tasks[k.current.unwrap()].wait_ptr as u8, marker: PhantomData }
    }

    /// The number of free slots, counted along the free list.
    pub fn available(&self) -> (r: usize)
        requires
            self.slots_wf(),
        ensures
            r == self.free@.len(),
    {
        let ghost free = self.free@;
        proof {
            Self::lemma_at_most_all(free);
        }
        let mut count: usize = 0;
        let mut cur: u8 = self.free_head;
        while cur != NIL
            invariant
                self.slots_wf(),
                free == self.free@,
                free.len() <= N,
                count <= free.len(),
                cur == Self::entry(free, count as int),
            decreases free.len() - count,
        {
            assert(cur == free[count as int]);
            count = count + 1;
            cur = self.next[cur as usize];
        }
        count
    }

    /// There are no more free slots than slots.
    proof fn lemma_at_most_all(free: Seq<u8>)
        requires
            free.no_duplicates(),
            forall|i: int| 0 <= i < free.len() ==> #[trigger] free[i] < N,
        ensures
            free.len() <= N,
    {
        let ints = free.map_values(|x: u8| x as int);
        assert(ints.no_duplicates());
        ints.unique_seq_to_set();
        vstd::set_lib::lemma_int_range(0, N as int);
        assert(ints.to_set().subset_of(vstd::set_lib::set_int_range(0, N as int)));
        vstd::set_lib::lemma_len_subset(
            ints.to_set(),
            vstd::set_lib::set_int_range(0, N as int),
        );
    }
}

impl<T, const N: usize> PoolBox<T, N> {
    /// The handle stands for an allocated slot of `p`.
    pub open spec fn of(self, p: Pool<T, N>) -> bool {
        self.slot < N && p.nodes@[self.slot as int] is Some
    }

    /// The handle stands for a slot of `p` whose value is gone.
    pub open spec fn vacated(self, p: Pool<T, N>) -> bool {
        p.vacant@.contains(self.slot)
    }

    /// What the pool and the kernel become when the slot is given back: it goes
    /// to the next task blocked in `alloc_blocking`, with the value that task has
    /// left, and becomes the first free slot where nobody waits.
    pub open spec fn given_back(
        self,
        p: Pool<T, N>,
        p_after: Pool<T, N>,
        k: Kernel,
        k_after: Kernel,
    ) -> bool {
        &&& k_after.same_but_tasks(k)
        &&& p.waiters@.len() > 0 ==> {
            let w = WaitList::next_waiter(k.tasks@, p.waiters@);
            &&& p_after.nodes@ == p.nodes@.update(self.slot as int, Some(p.pending@[w]))
            &&& p_after.free == p.free
            &&& p_after.waiters@ == WaitList::without_next(k.tasks@, p.waiters@)
            &&& p_after.pending@ == p.pending@.remove(w)
            &&& Pool::<T, N>::granted(k.tasks@, k_after.tasks@, p.waiters@, self.slot)
            &&& k_after.pendsv == (k.pendsv || k.outranks_current(w))
        }
        &&& p.waiters@.len() == 0 ==> {
            &&& p_after.nodes@ == p.nodes@.update(self.slot as int, None)
            &&& p_after.free@ == seq![self.slot] + p.free@
            &&& p_after.waiters == p.waiters
            &&& p_after.pending == p.pending
            &&& k_after == k
        }
    }

    /// Read the value.
    pub fn deref<'a>(&self, p: &'a Pool<T, N>) -> (r: &'a T)
        requires
            p.slots_wf(),
            self.of(*p),
        ensures
            *r == p.nodes@[self.slot as int]->0,
    {
        p.nodes[self.slot as usize].as_ref().unwrap()
    }

    /// Access the value.
    pub fn deref_mut<'a>(&mut self, p: &'a mut Pool<T, N>) -> (r: &'a mut T)
        requires
            old(p).slots_wf(),
            old(self).of(*old(p)),
        ensures
            *final(self) == *old(self),
            *r == old(p).nodes@[old(self).slot as int]->0,
            final(p).nodes@ == old(p).nodes@.update(old(self).slot as int, Some(*final(r))),
            final(p).next == old(p).next,
            final(p).free_head == old(p).free_head,
            final(p).waiters == old(p).waiters,
            final(p).pending == old(p).pending,
            final(p).free == old(p).free,
            final(p).vacant == old(p).vacant,
            final(p).slots_wf(),
            forall|k: Kernel| old(p).wf(k) ==> #[trigger] final(p).wf(k),
    {
        p.nodes[self.slot as usize].as_mut().unwrap()
    }

    /// Move the value out of the slot, which stays taken until `release`.
    ///
    /// The value can so be destroyed with interrupts enabled, and its destructor
    /// can use the pool.
    pub fn vacate(&self, p: &mut Pool<T, N>) -> (r: T)
        requires
            old(p).slots_wf(),
            self.of(*old(p)),
        ensures
            r == old(p).nodes@[self.slot as int]->0,
            self.vacated(*final(p)),
            final(p).nodes@ == old(p).nodes@.update(self.slot as int, None),
            final(p).vacant@ == old(p).vacant@.insert(self.slot),
            final(p).next == old(p).next,
            final(p).free_head == old(p).free_head,
            final(p).waiters == old(p).waiters,
            final(p).pending == old(p).pending,
            final(p).free == old(p).free,
            final(p).slots_wf(),
            forall|k: Kernel| old(p).wf(k) ==> #[trigger] final(p).wf(k),
    {
        let val: T = p.nodes[self.slot as usize].take().unwrap();
        proof {
            p.vacant@ = p.vacant@.insert(self.slot);
        }
        val
    }

    /// Give the vacated slot back.
    ///
    /// The slot goes straight to the highest-priority task blocked in
    /// `alloc_blocking`, with the value it has left, if there is one. Otherwise
    /// it becomes the first free slot.
    pub fn release(self, p: &mut Pool<T, N>, k: &mut Kernel)
        requires
            old(p).wf(*old(k)),
            self.vacated(*old(p)),
        ensures
            final(p).wf(*final(k)),
            final(p).vacant@ == old(p).vacant@.remove(self.slot),
            self.given_back(*old(p), *final(p), *old(k), *final(k)),
    {
        let slot: u8 = self.slot;
        proof {
            p.vacant@ = p.vacant@.remove(slot);
        }
        if !p.waiters.is_empty(k) {
            let ghost ids = p.waiters@;
            let ghost before = k.tasks@;
            proof {
                WaitList::law_next_waiter_is_highest(before, ids);
                WaitList::lemma_removed(ids, WaitList::next_index(before, ids));
                assert(ids.contains(WaitList::next_waiter(before, ids)));
            }
            let (w, need_preempt) = k.wake_highest(&mut p.waiters);
            let ghost woken = *k;
            let pending: T = p.pending.remove(&w).unwrap();
            p.nodes[slot as usize] = Some(pending);
            k.tasks[w].wait_ptr = slot as usize;
            if need_preempt {
                k.trigger_pendsv();
            }
            proof {
                k.lemma_untouched(woken, p.waiters);
            }
        } else {
            let ghost free = p.free@;
            let head: u8 = p.free_head;
            p.next[slot as usize] = head;
            p.free_head = slot;
            proof {
                let more = seq![slot] + free;
                p.free@ = more;
                assert(!free.contains(slot));
                assert forall|i: int| 0 <= i < more.len() implies #[trigger] p.next@[more[i] as int]
                    == Pool::<T, N>::entry(more, i + 1) by {
                    if i > 0 {
                        assert(more[i] == free[i - 1]);
                        assert(old(p).next@[free[i - 1] as int] == Pool::<T, N>::entry(free, i));
                    }
                }
                assert forall|x: u8| more.contains(x) == (x == slot || free.contains(x)) by {
                    assert(more[0] == slot);
                    if free.contains(x) {
                        let i = choose|i: int| 0 <= i < free.len() && free[i] == x;
                        assert(more[i + 1] == x);
                    }
                    if more.contains(x) {
                        let i = choose|i: int| 0 <= i < more.len() && more[i] == x;
                        assert(i > 0 ==> free[i - 1] == x);
                    }
                }
                assert(old(p).nodes@[slot as int] is None);
                assert(p.nodes@ =~= old(p).nodes@.update(slot as int, None));
            }
        }
    }

    /// Destroy the value and give the slot back, as `vacate` and `release` do one
    /// after the other.
    pub fn drop(self, p: &mut Pool<T, N>, k: &mut Kernel)
        requires
            old(p).wf(*old(k)),
            self.of(*old(p)),
        ensures
            final(p).wf(*final(k)),
            final(p).vacant@ == old(p).vacant@,
            self.given_back(*old(p), *final(p), *old(k), *final(k)),
    {
        {
            // The value is destroyed here, before the slot is given back.
            let _val: T = self.vacate(p);
        }
        self.release(p, k);
        proof {
            assert(p.vacant@ =~= old(p).vacant@);
            if old(p).waiters@.len() > 0 {
                let w = WaitList::next_waiter(old(k).tasks@, old(p).waiters@);
                assert(p.nodes@ =~= old(p).nodes@.update(
                    self.slot as int,
                    Some(old(p).pending@[w]),
                ));
            } else {
                assert(p.nodes@ =~= old(p).nodes@.update(self.slot as int, None));
            }
        }
    }
}

impl<T, const N: usize> Pool<T, N> {
    /// An empty pool, as `new` creates it.
    pub fn default() -> (r: Pool<T, N>)
        requires
            N <= 255,
        ensures
            r.free@ == Seq::new(N as nat, |i: int| i as u8),
            r.vacant@ == Set::<u8>::empty(),
            r.waiters@.len() == 0,
            r.slots_wf(),
            forall|k: Kernel| k.wf() ==> #[trigger] r.wf(k),
    {
        Pool::new()
    }

    /// The slots that hold a value.
    pub open spec fn live(self) -> Set<int> {
        Set::new(|s: int| 0 <= s < N && self.nodes@[s] is Some)
    }

    /// Every slot is free, allocated or vacant, and in one of these states only:
    /// what is available, what is live and what is about to be given back add up
    /// to the capacity.
    pub proof fn law_free_and_live_fill_the_pool(self)
        requires
            self.slots_wf(),
        ensures
            self.live().finite(),
            self.live().len() + self.free@.len() + self.vacant@.len() == N,
    {
        let ints = self.free@.map_values(|x: u8| x as int);
        let gone = self.vacant@.map(|x: u8| x as int);
        let all = vstd::set_lib::set_int_range(0, N as int);
        vstd::set_lib::lemma_int_range(0, N as int);
        ints.unique_seq_to_set();
        vstd::set_lib::lemma_map_size(self.vacant@, gone, |x: u8| x as int);
        assert forall|s: int| all.contains(s) implies (self.live().contains(s)
            <==> !ints.to_set().contains(s) && !gone.contains(s)) && !(ints.to_set().contains(s)
            && gone.contains(s)) by {
            assert(self.nodes@[s] is Some <==> !self.free@.contains(s as u8)
                && !self.vacant@.contains(s as u8));
            if self.free@.contains(s as u8) {
                let i = choose|i: int| 0 <= i < self.free@.len() && self.free@[i] == s as u8;
                assert(ints[i] == s);
            }
            if ints.to_set().contains(s) {
                let i = choose|i: int| 0 <= i < ints.len() && ints[i] == s;
                assert(self.free@[i] == s as u8);
            }
            if gone.contains(s) {
                let x = choose|x: u8| self.vacant@.contains(x) && x as int == s;
                assert(x == s as u8);
            }
        }
        assert(ints.to_set().subset_of(all));
        assert(gone.subset_of(all));
        assert(self.live() =~= all.difference(ints.to_set()).difference(gone));
        vstd::set_lib::lemma_set_disjoint_lens(self.live(), ints.to_set());
        vstd::set_lib::lemma_set_disjoint_lens(self.live() + ints.to_set(), gone);
        assert(self.live() + ints.to_set() + gone =~= all);
    }

    /// The task that a slot is handed to is ready to run, and finds that slot
    /// when it resumes.
    pub proof fn law_handover_reaches_the_waiter(
        before: Seq<Tcb>,
        after: Seq<Tcb>,
        ids: Seq<usize>,
        slot: u8,
    )
        requires
            WaitList::chained(before, ids),
            ids.len() > 0,
            Self::granted(before, after, ids, slot),
        ensures
            ({
                let w = WaitList::next_waiter(before, ids) as int;
                &&& after[w].state is Ready
                &&& after[w].wait_ptr as u8 == slot
            }),
    {
        WaitList::law_next_waiter_is_highest(before, ids);
        WaitList::lemma_removed(ids, WaitList::next_index(before, ids));
    }

    /// Handing a slot over keeps every list that shares nobody with those who wait
    /// for one.
    pub proof fn law_handover_keeps_other_lists(
        k: Kernel,
        k_after: Kernel,
        ids: Seq<usize>,
        slot: u8,
        l: WaitList,
    )
        requires
            WaitList::chained(k.tasks@, ids),
            ids.len() > 0,
            Self::granted(k.tasks@, k_after.tasks@, ids, slot),
            k_after.same_but_tasks(k),
            k.holds(l),
            forall|x: usize| l@.contains(x) ==> !#[trigger] ids.contains(x),
        ensures
            k_after.holds(l),
    {
        WaitList::law_next_waiter_is_highest(k.tasks@, ids);
        WaitList::lemma_removed(ids, WaitList::next_index(k.tasks@, ids));
        assert forall|i: int| 0 <= i < l@.len() implies k_after.tasks@[#[trigger] l@[i] as int]
            == k.tasks@[l@[i] as int] by {
            assert(l@.contains(l@[i]));
            assert(!ids.contains(l@[i]));
        }
        k_after.lemma_untouched(k, l);
    }

    /// An allocation never touches a value that is already in the pool.
    pub proof fn law_allocation_is_fresh(self, after: Pool<T, N>, val: T, s: int)
        requires
            self.slots_wf(),
            self.free@.len() > 0,
            self.allocated(after, val),
            self.live().contains(s),
        ensures
            s != self.free@[0],
            after.nodes@[s] == self.nodes@[s],
    {
        assert(self.free@.contains(self.free@[0]));
    }

    /// An allocation puts the value in a slot that held none, and takes one slot off
    /// those that are available; no other slot changes.
    pub proof fn law_allocation_stores_the_value(self, after: Pool<T, N>, val: T, s: int)
        requires
            self.slots_wf(),
            self.free@.len() > 0,
            self.allocated(after, val),
            0 <= s < N,
        ensures
            after.free@.len() == self.free@.len() - 1,
            self.nodes@[self.free@[0] as int] is None,
            after.nodes@[s] == (if s == self.free@[0] {
                Some(val)
            } else {
                self.nodes@[s]
            }),
    {
        assert(self.free@.contains(self.free@[0]));
    }

    /// A pool has a slot to give out exactly as long as fewer than `N` are in use.
    pub proof fn law_exhausted_only_when_all_slots_are_used(self)
        requires
            self.slots_wf(),
        ensures
            self.free@.len() == 0 <==> self.live().len() + self.vacant@.len() == N,
    {
        self.law_free_and_live_fill_the_pool();
    }

    /// A task that asks an exhausted pool for a slot is blocked, it alone, and a
    /// switch is asked for; its value waits with it. One that asks a pool with a free
    /// slot goes on, and nobody's state changes.
    pub proof fn law_only_exhausted_pools_block(
        self,
        after: Pool<T, N>,
        k: Kernel,
        k_after: Kernel,
        val: T,
        r: Option<PoolBox<T, N>>,
        t: usize,
    )
        requires
            self.wf(k),
            k.running(),
            self.asked(after, k, k_after, val, r),
            t < k.tasks@.len(),
        ensures
            r is Some <==> self.free@.len() > 0,
            r matches Some(b) ==> after.nodes@[b.slot as int] == Some(val)
                && self.nodes@[b.slot as int] is None && after.free@.len() == self.free@.len() - 1,
            r is None ==> after.pending@[k.current->0] == val && after.waiters@[0] == k.current->0
                && k_after.pendsv,
            k_after.tasks@[t as int].state == (if r is None && k.current == Some(t) {
                TaskState::Blocked
            } else {
                k.tasks@[t as int].state
            }),
    {
        if self.free@.len() > 0 {
            assert(self.free@.contains(self.free@[0]));
            self.law_allocation_stores_the_value(after, val, self.free@[0] as int);
        }
    }

    /// A slot that is given back while nobody waits is available again, and no task
    /// notices. One that is given back while tasks wait goes to one of them, whom none
    /// of the others outranks: the slot holds the value that it left, that task
    /// is ready, it alone, and finds the slot in its word.
    pub proof fn law_slots_given_back_are_used_again(
        self,
        after: Pool<T, N>,
        k: Kernel,
        k_after: Kernel,
        slot: PoolBox<T, N>,
    )
        requires
            self.wf(k),
            slot.slot < N,
            slot.given_back(self, after, k, k_after),
        ensures
            self.waiters@.len() == 0 ==> after.free@.len() == self.free@.len() + 1
                && after.free@[0] == slot.slot && after.nodes@[slot.slot as int] is None && k_after
                == k,
            self.waiters@.len() > 0 ==> after.free@ == self.free@ && exists|i: int|
                {
                    let w = #[trigger] self.waiters@[i];
                    &&& 0 <= i < self.waiters@.len()
                    &&& after.waiters@ == self.waiters@.remove(i)
                    &&& after.nodes@[slot.slot as int] == Some(self.pending@[w])
                    &&& !after.pending@.contains_key(w)
                    &&& k_after.tasks@[w as int].state is Ready
                    &&& k_after.tasks@[w as int].wait_ptr == slot.slot
                    &&& forall|j: int|
                        0 <= j < self.waiters@.len() ==> k.tasks@[w as int].priority
                            <= k.tasks@[#[trigger] self.waiters@[j] as int].priority
                    &&& forall|t: int|
                        0 <= t < k.tasks@.len() && t != w ==> (#[trigger] k_after.tasks@[t]).state
                            == k.tasks@[t].state
                },
    {
        let ids = self.waiters@;
        if ids.len() > 0 {
            let i = WaitList::next_index(k.tasks@, ids);
            WaitList::law_next_waiter_is_highest(k.tasks@, ids);
            WaitList::lemma_removed(ids, i);
            let w = ids[i];
            assert(w == WaitList::next_waiter(k.tasks@, ids));
            assert(k_after.tasks@[w as int].state is Ready);
        }
    }

    /// Giving a slot back touches no other slot.
    pub proof fn law_giving_back_touches_one_slot(
        self,
        after: Pool<T, N>,
        k: Kernel,
        k_after: Kernel,
        slot: PoolBox<T, N>,
        s: int,
    )
        requires
            self.wf(k),
            slot.slot < N,
            slot.given_back(self, after, k, k_after),
            0 <= s < N,
            s != slot.slot,
        ensures
            after.nodes@[s] == self.nodes@[s],
    {
    }

    /// Giving a slot back asks for a switch exactly when it makes a blocked task ready
    /// that has a higher priority than the current one.
    pub proof fn law_giving_back_requests_a_switch_when_due(
        self,
        after: Pool<T, N>,
        k: Kernel,
        k_after: Kernel,
        slot: PoolBox<T, N>,
    )
        requires
            self.wf(k),
            slot.given_back(self, after, k, k_after),
        ensures
            k_after.pendsv == (k.pendsv || crate::kernel::wait_list::woke_a_higher_one(k, k_after)),
    {
        let ids = self.waiters@;
        if ids.len() > 0 {
            let w = WaitList::next_waiter(k.tasks@, ids) as int;
            WaitList::law_next_waiter_is_highest(k.tasks@, ids);
            WaitList::lemma_removed(ids, WaitList::next_index(k.tasks@, ids));
            let c = k.current->0 as int;
            assert(k.tasks@[w].state is Blocked);
            assert(k_after.tasks@[c].priority == k.tasks@[c].priority);
            assert(k_after.tasks@[w].state is Ready);
        }
    }

    /// An allocation that blocks and a slot that is given back: the only task that
    /// waits gets the slot, with its own value in it.
    pub proof fn law_blocked_allocation_gets_the_next_slot(
        self,
        waiting: Pool<T, N>,
        k: Kernel,
        k_waiting: Kernel,
        val: T,
        r: Option<PoolBox<T, N>>,
        after: Pool<T, N>,
        k_before: Kernel,
        k_after: Kernel,
        slot: PoolBox<T, N>,
    )
        requires
            self.wf(k),
            k.running(),
            self.waiters@.len() == 0,
            self.asked(waiting, k, k_waiting, val, r),
            r is None,
            waiting.wf(k_before),
            slot.slot < N,
            slot.given_back(waiting, after, k_before, k_after),
        ensures
            k_after.tasks@[k.current->0 as int].state is Ready,
            k_after.tasks@[k.current->0 as int].wait_ptr == slot.slot,
            after.nodes@[slot.slot as int] == Some(val),
    {
        let c = k.current->0;
        assert(waiting.waiters@ =~= seq![c]);
        WaitList::law_next_waiter_is_highest(k_before.tasks@, waiting.waiters@);
        WaitList::lemma_removed(
            waiting.waiters@,
            WaitList::next_index(k_before.tasks@, waiting.waiters@),
        );
    }

    /// Tasks wait only while no slot is available; they are blocked, and each has left
    /// a value.
    pub proof fn law_nobody_waits_beside_a_free_slot(self, k: Kernel, i: int)
        requires
            self.wf(k),
            0 <= i < self.waiters@.len(),
        ensures
            self.free@.len() == 0,
            k.tasks@[self.waiters@[i] as int].state is Blocked,
            self.pending@.contains_key(self.waiters@[i]),
    {
        assert(self.waiters@.contains(self.waiters@[i]));
    }
}

} // verus!
