use crate::kernel::wait_list::WaitList;
use crate::kernel::Kernel;
use core::marker::PhantomData;
use std::collections::HashMap;
use vstd::prelude::*;

verus! {

broadcast use vstd::std_specs::hash::group_hash_axioms;

/// A bounded channel for any number of senders and receivers.
///
/// A value goes straight to a waiting receiver if there is one, into the ring
/// buffer if there is room, and stays with its blocked sender otherwise.
pub struct Channel<T, const N: usize> {
    /// Ring buffer of `N` slots.
    pub buf: Vec<Option<T>>,
    /// Slot of the oldest buffered value.
    pub head: usize,
    /// Slot for the next value.
    pub tail: usize,
    /// How many values are buffered.
    pub count: usize,
    /// Tasks blocked in `send`.
    pub senders: WaitList,
    /// Tasks blocked in `recv`.
    pub receivers: WaitList,
    /// The value of each blocked sender.
    pub outbox: HashMap<usize, T>,
    /// Values handed to a task that was blocked in `recv`, until it collects
    /// them.
    pub inbox: HashMap<usize, T>,
    /// Tag shared by the channel and its handles. Nothing is known of the tags of
    /// two channels, so a handle can be shown to fit only the channel it came
    /// from.
    pub tag: Ghost<int>,
}

/// Sending half of a `Channel`: a handle that any number of tasks may copy.
pub struct Sender<T> {
    /// The type of the values.
    pub marker: PhantomData<T>,
    /// Tag of the channel it is for.
    pub tag: Ghost<int>,
}

/// Receiving half of a `Channel`: a handle that any number of tasks may copy.
pub struct Receiver<T> {
    /// The type of the values.
    pub marker: PhantomData<T>,
    /// Tag of the channel it is for.
    pub tag: Ghost<int>,
}

impl<T, const N: usize> Channel<T, N> {
    /// The slot `i` places behind the slot `start`.
    pub open spec fn slot(start: int, i: int) -> int {
        if start + i < N {
            start + i
        } else {
            start + i - N
        }
    }

    /// The buffered values, oldest first.
    pub open spec fn queue(self) -> Seq<T> {
        Seq::new(self.count as nat, |i: int| self.buf@[Self::slot(self.head as int, i)]->0)
    }

    /// The ring buffer is sound.
    pub open spec fn ring_wf(self) -> bool {
        &&& self.buf@.len() == N
        &&& self.count <= N
        &&& N > 0 ==> self.head < N && self.tail < N && self.tail == Self::slot(
            self.head as int,
            self.count as int,
        )
        &&& forall|i: int|
            0 <= i < self.count ==> self.buf@[#[trigger] Self::slot(self.head as int, i)] is Some
    }

    /// Well-formedness: senders wait only while the buffer is full, and each
    /// keeps its value in the outbox; receivers wait only while the buffer is
    /// empty, and nothing has been delivered to them yet.
    pub open spec fn wf(self, k: Kernel) -> bool {
        &&& k.wf()
        &&& N <= 254
        &&& self.ring_wf()
        &&& k.holds(self.senders)
        &&& k.holds(self.receivers)
        &&& self.senders.disjoint(self.receivers)
        &&& self.senders@.len() > 0 ==> self.count == N
        &&& self.receivers@.len() > 0 ==> self.count == 0
        &&& forall|t: usize| #[trigger] self.outbox@.contains_key(t) <==> self.senders@.contains(t)
        &&& forall|t: usize|
            self.receivers@.contains(t) ==> !#[trigger] self.inbox@.contains_key(t)
    }

    /// Everything but the ring buffer is unchanged.
    pub open spec fn same_but_ring(self, other: Channel<T, N>) -> bool {
        &&& self.senders == other.senders
        &&& self.receivers == other.receivers
        &&& self.outbox == other.outbox
        &&& self.inbox == other.inbox
        &&& self.tag == other.tag
    }

    /// A value offered now is taken without blocking.
    pub open spec fn accepts(self) -> bool {
        self.receivers@.len() > 0 || self.count < N
    }

    /// What the channel and the kernel become when `val` is taken: it is
    /// delivered to the highest-priority waiting receiver, or buffered behind
    /// the others.
    pub open spec fn accepted(
        self,
        after: Channel<T, N>,
        k: Kernel,
        k_after: Kernel,
        val: T,
    ) -> bool {
        if self.receivers@.len() > 0 {
            let w = WaitList::next_waiter(k.tasks@, self.receivers@);
            &&& after.tag == self.tag
            &&& after.queue() == self.queue()
            &&& after.senders == self.senders
            &&& after.outbox@ == self.outbox@
            &&& after.receivers@ == WaitList::without_next(k.tasks@, self.receivers@)
            &&& after.inbox@ == self.inbox@.insert(w, val)
            &&& WaitList::woke_next(k.tasks@, k_after.tasks@, self.receivers@)
            &&& k_after.same_but_tasks(k)
            &&& k_after.pendsv == (k.pendsv || k.outranks_current(w))
        } else {
            &&& after.queue() == self.queue().push(val)
            &&& after.same_but_ring(self)
            &&& k_after == k
        }
    }

    /// What the channel and the kernel become when the oldest value leaves the
    /// buffer: the highest-priority waiting sender, if there is one, gets the
    /// free slot.
    pub open spec fn dequeued(self, after: Channel<T, N>, k: Kernel, k_after: Kernel) -> bool {
        if self.senders@.len() > 0 {
            let w = WaitList::next_waiter(k.tasks@, self.senders@);
            &&& after.tag == self.tag
            &&& after.queue() == self.queue().drop_first().push(self.outbox@[w])
            &&& after.receivers == self.receivers
            &&& after.inbox@ == self.inbox@
            &&& after.senders@ == WaitList::without_next(k.tasks@, self.senders@)
            &&& after.outbox@ == self.outbox@.remove(w)
            &&& WaitList::woke_next(k.tasks@, k_after.tasks@, self.senders@)
            &&& k_after.same_but_tasks(k)
            &&& k_after.pendsv == (k.pendsv || k.outranks_current(w))
        } else {
            &&& after.queue() == self.queue().drop_first()
            &&& after.same_but_ring(self)
            &&& k_after == k
        }
    }

    /// What the channel and the kernel become when the current task blocks
    /// because there is no room for `val`.
    pub open spec fn send_blocked(
        self,
        after: Channel<T, N>,
        k: Kernel,
        k_after: Kernel,
        val: T,
    ) -> bool {
        let c = k.current->0;
        &&& after.tag == self.tag
        &&& after.queue() == self.queue()
        &&& after.receivers == self.receivers
        &&& after.inbox@ == self.inbox@
        &&& after.senders@ == seq![c] + self.senders@
        &&& after.outbox@ == self.outbox@.insert(c, val)
        &&& k_after.tasks@ == k.blocked_on(self.senders)
        &&& k_after.same_but_tasks(k)
        &&& k_after.pendsv
    }

    /// What the channel and the kernel become when the current task blocks
    /// because there is nothing to receive.
    pub open spec fn recv_blocked(
        self,
        after: Channel<T, N>,
        k: Kernel,
        k_after: Kernel,
    ) -> bool {
        let c = k.current->0;
        &&& after.tag == self.tag
        &&& after.queue() == self.queue()
        &&& after.senders == self.senders
        &&& after.outbox == self.outbox
        &&& after.inbox == self.inbox
        &&& after.receivers@ == seq![c] + self.receivers@
        &&& k_after.tasks@ == k.blocked_on(self.receivers)
        &&& k_after.same_but_tasks(k)
        &&& k_after.pendsv
    }

    /// What the channel becomes when the task `t` collects the value `r` that was
    /// delivered to it.
    pub open spec fn collected(self, after: Channel<T, N>, t: usize, r: T) -> bool {
        &&& r == self.inbox@[t]
        &&& after.inbox@ == self.inbox@.remove(t)
        &&& after.tag == self.tag
        &&& after.queue() == self.queue()
        &&& after.senders == self.senders
        &&& after.receivers == self.receivers
        &&& after.outbox == self.outbox
    }

    /// Create an empty channel.
    pub fn new() -> (r: Channel<T, N>)
        requires
            N <= 254,
        ensures
            r.queue().len() == 0,
            r.senders@.len() == 0,
            r.receivers@.len() == 0,
            r.outbox@ == Map::<usize, T>::empty(),
            r.inbox@ == Map::<usize, T>::empty(),
            forall|k: Kernel| k.wf() ==> #[trigger] r.wf(k),
    {
        let mut buf: Vec<Option<T>> = Vec::new();
        let mut i: usize = 0;
        while i < N
            invariant
                i <= N,
                buf@.len() == i,
            decreases N - i,
        {
            buf.push(None);
            i = i + 1;
        }
        Channel {
            buf,
            head: 0,
            tail: 0,
            count: 0,
            senders: WaitList::new(),
            receivers: WaitList::new(),
            outbox: HashMap::new(),
            inbox: HashMap::new(),
            tag: Ghost(arbitrary()),
        }
    }

    /// A sending handle for this channel.
    pub fn sender(&self) -> (r: Sender<T>)
        ensures
            r.is_for(*self),
    {
        Sender { marker: PhantomData, tag: self.tag }
    }

    /// A receiving handle for this channel.
    pub fn receiver(&self) -> (r: Receiver<T>)
        ensures
            r.is_for(*self),
    {
        Receiver { marker: PhantomData, tag: self.tag }
    }

    /// The slot behind `i`.
    fn advance(i: usize) -> (r: usize)
        requires
            i < N,
        ensures
            r == Self::slot(i as int, 1),
    {
        proof {
            if i + 1 < N {
                vstd::arithmetic::div_mod::lemma_small_mod((i + 1) as nat, N as nat);
            } else {
                vstd::arithmetic::div_mod::lemma_mod_self_0(N as int);
            }
        }
        (i + 1) % N
    }

    /// Buffer `val` behind the others.
    fn push_back(&mut self, val: T)
        requires
            old(self).ring_wf(),
            old(self).count < N,
        ensures
            final(self).ring_wf(),
            final(self).count == old(self).count + 1,
            final(self).queue() == old(self).queue().push(val),
            final(self).same_but_ring(*old(self)),
    {
        let tail: usize = self.tail;
        self.buf[tail] = Some(val);
        self.tail = Self::advance(tail);
        self.count = self.count + 1;
        proof {
            assert forall|i: int| 0 <= i < self.count implies self.buf@[#[trigger] Self::slot(
                self.head as int,
                i,
            )] is Some by {
                if i < old(self).count {
                    assert(old(self).buf@[Self::slot(self.head as int, i)] is Some);
                }
            }
            assert(self.queue() =~= old(self).queue().push(val));
        }
    }

    /// Take the oldest value out of the buffer.
    fn pop_front(&mut self) -> (r: T)
        requires
            old(self).ring_wf(),
            old(self).count > 0,
        ensures
            final(self).ring_wf(),
            final(self).count == old(self).count - 1,
            r == old(self).queue()[0],
            final(self).queue() == old(self).queue().drop_first(),
            final(self).same_but_ring(*old(self)),
    {
        let head: usize = self.head;
        proof {
            assert(self.buf@[Self::slot(head as int, 0)] is Some);
        }
        let val: T = self.buf[head].take().unwrap();
        self.head = Self::advance(head);
        self.count = self.count - 1;
        proof {
            assert forall|i: int| 0 <= i < self.count implies self.buf@[#[trigger] Self::slot(
                self.head as int,
                i,
            )] is Some by {
                assert(old(self).buf@[Self::slot(old(self).head as int, i + 1)] is Some);
                assert(Self::slot(self.head as int, i) == Self::slot(old(self).head as int, i + 1));
            }
            assert(self.queue() =~= old(self).queue().drop_first()) by {
                assert forall|i: int| 0 <= i < self.count implies Self::slot(self.head as int, i)
                    == Self::slot(old(self).head as int, i + 1) by {}
            }
        }
        val
    }

    /// Take `val` without blocking, or give it back.
    fn offer(&mut self, k: &mut Kernel, val: T) -> (r: Option<T>)
        requires
            old(self).wf(*old(k)),
        ensures
            final(self).wf(*final(k)),
            r is None == old(self).accepts(),
            r is None ==> old(self).accepted(*final(self), *old(k), *final(k), val),
            r matches Some(v) ==> v == val && *final(self) == *old(self) && *final(k) == *old(k),
    {
        if !self.receivers.is_empty(k) {
            let ghost ids = self.receivers@;
            let ghost before = k.tasks@;
            proof {
                WaitList::law_next_waiter_is_highest(before, ids);
                WaitList::lemma_removed(ids, WaitList::next_index(before, ids));
            }
            let (w, need_preempt) = k.wake_highest(&mut self.receivers);
            self.inbox.insert(w, val);
            if need_preempt {
                k.trigger_pendsv();
            }
            proof {
                k.law_wake_keeps_other_lists(*old(k), ids, self.senders);
                assert forall|x: usize| self.senders@.contains(x) implies !#[trigger] self.receivers@.contains(
                    x,
                ) by {
                    assert(!ids.contains(x));
                }
            }
            None
        } else if self.count < N {
            self.push_back(val);
            None
        } else {
            Some(val)
        }
    }

    /// Take the oldest value, and let one blocked sender have the free slot.
    fn dequeue(&mut self, k: &mut Kernel) -> (r: T)
        requires
            old(self).wf(*old(k)),
            old(self).count > 0,
        ensures
            final(self).wf(*final(k)),
            r == old(self).queue()[0],
            old(self).dequeued(*final(self), *old(k), *final(k)),
    {
        let val: T = self.pop_front();
        if !self.senders.is_empty(k) {
            let ghost ids = self.senders@;
            let ghost before = k.tasks@;
            proof {
                WaitList::law_next_waiter_is_highest(before, ids);
                WaitList::lemma_removed(ids, WaitList::next_index(before, ids));
                assert(ids.contains(WaitList::next_waiter(before, ids)));
            }
            let (w, need_preempt) = k.wake_highest(&mut self.senders);
            let pending: T = self.outbox.remove(&w).unwrap();
            self.push_back(pending);
            if need_preempt {
                k.trigger_pendsv();
            }
            proof {
                assert forall|x: usize| self.senders@.contains(x) implies !#[trigger] self.receivers@.contains(
                    x,
                ) by {
                    assert(ids.contains(x));
                }
            }
        }
        val
    }

    /// Send `val`, or block the calling task until it is taken.
    ///
    /// Returns `true` when the value was taken at once. On `false` the task has
    /// blocked with its value, and a context switch is requested; the value has
    /// been taken when the task runs again.
    pub fn send_impl(&mut self, k: &mut Kernel, val: T) -> (r: bool)
        requires
            old(self).wf(*old(k)),
            old(k).running(),
        ensures
            final(self).wf(*final(k)),
            r == old(self).accepts(),
            r ==> old(self).accepted(*final(self), *old(k), *final(k), val),
            !r ==> old(self).send_blocked(*final(self), *old(k), *final(k), val),
    {
        match self.offer(k, val) {
            None => true,
            Some(val) => {
                let c: usize = k.current.unwrap();
                proof {
                    k.lemma_running_waits_nowhere(self.senders);
                    k.lemma_running_waits_nowhere(self.receivers);
                }
                self.outbox.insert(c, val);
                k.block_and_push(&mut self.senders);
                k.trigger_pendsv();
                proof {
                    WaitList::lemma_pushed(old(self).senders@, c);
                }
                false
            },
        }
    }

    /// Send `val` without blocking.
    ///
    /// Returns whether the value was taken; it is dropped if it was not.
    pub fn try_send_impl(&mut self, k: &mut Kernel, val: T) -> (r: bool)
        requires
            old(self).wf(*old(k)),
        ensures
            final(self).wf(*final(k)),
            r == old(self).accepts(),
            r ==> old(self).accepted(*final(self), *old(k), *final(k), val),
            !r ==> *final(self) == *old(self) && *final(k) == *old(k),
    {
        self.offer(k, val).is_none()
    }

    /// Receive the oldest value, or block the calling task until one is
    /// delivered to it.
    ///
    /// On `None` the task has blocked and a context switch is requested; when
    /// it runs again, `collect` gives it its value.
    pub fn recv_impl(&mut self, k: &mut Kernel) -> (r: Option<T>)
        requires
            old(self).wf(*old(k)),
            old(k).running(),
            !old(self).inbox@.contains_key(old(k).current->0),
        ensures
            final(self).wf(*final(k)),
            r is Some == (old(self).queue().len() > 0),
            r matches Some(v) ==> v == old(self).queue()[0] && old(self).dequeued(
                *final(self),
                *old(k),
                *final(k),
            ),
            r is None ==> old(self).recv_blocked(*final(self), *old(k), *final(k)),
    {
        if self.count > 0 {
            Some(self.dequeue(k))
        } else {
            proof {
                k.lemma_running_waits_nowhere(self.senders);
                k.lemma_running_waits_nowhere(self.receivers);
            }
            k.block_and_push(&mut self.receivers);
            k.trigger_pendsv();
            proof {
                WaitList::lemma_pushed(old(self).receivers@, old(k).current->0);
                k.lemma_untouched(*old(k), self.senders);
            }
            None
        }
    }

    /// The value that was delivered to the current task while it was blocked in
    /// `recv_impl`.
    pub fn collect(&mut self, k: &Kernel) -> (r: T)
        requires
            old(self).wf(*k),
            k.current is Some,
            old(self).inbox@.contains_key(k.current->0),
        ensures
            final(self).wf(*k),
            old(self).collected(*final(self), k.current->0, r),
    {
        self.inbox.remove(&k.current.unwrap()).unwrap()
    }

    /// Receive the oldest value without blocking.
    pub fn try_recv_impl(&mut self, k: &mut Kernel) -> (r: Option<T>)
        requires
            old(self).wf(*old(k)),
        ensures
            final(self).wf(*final(k)),
            r is Some == (old(self).queue().len() > 0),
            r matches Some(v) ==> v == old(self).queue()[0] && old(self).dequeued(
                *final(self),
                *old(k),
                *final(k),
            ),
            r is None ==> *final(self) == *old(self) && *final(k) == *old(k),
    {
        if self.count > 0 {
            Some(self.dequeue(k))
        } else {
            None
        }
    }
}

impl<T> Clone for Sender<T> {
    fn clone(&self) -> (r: Sender<T>)
        ensures
            r == *self,
    {
        *self
    }
}

impl<T> Copy for Sender<T> {

}

impl<T> Clone for Receiver<T> {
    fn clone(&self) -> (r: Receiver<T>)
        ensures
            r == *self,
    {
        *self
    }
}

impl<T> Copy for Receiver<T> {

}

impl<T> Sender<T> {
    /// The handle is for the channel `ch`.
    pub open spec fn is_for<const N: usize>(self, ch: Channel<T, N>) -> bool {
        self.tag == ch.tag
    }

    /// Send `val`, or block the calling task until it is taken.
    ///
    /// Returns `true` when the value was taken at once, `false` when the task
    /// has blocked. Not for interrupt handlers.
    pub fn send<const N: usize>(&self, ch: &mut Channel<T, N>, k: &mut Kernel, val: T) -> (r: bool)
        requires
            self.is_for(*old(ch)),
            old(ch).wf(*old(k)),
            old(k).running(),
        ensures
            final(ch).wf(*final(k)),
            self.is_for(*final(ch)),
            r == old(ch).accepts(),
            r ==> old(ch).accepted(*final(ch), *old(k), *final(k), val),
            !r ==> old(ch).send_blocked(*final(ch), *old(k), *final(k), val),
    {
        ch.send_impl(k, val)
    }

    /// Send `val` without blocking.
    ///
    /// Returns `true` if the value was buffered or handed to a waiting
    /// receiver, `false` if the channel was full. The value is dropped on
    /// failure.
    pub fn try_send<const N: usize>(
        &self,
        ch: &mut Channel<T, N>,
        k: &mut Kernel,
        val: T,
    ) -> (r: bool)
        requires
            self.is_for(*old(ch)),
            old(ch).wf(*old(k)),
        ensures
            final(ch).wf(*final(k)),
            self.is_for(*final(ch)),
            r == old(ch).accepts(),
            r ==> old(ch).accepted(*final(ch), *old(k), *final(k), val),
            !r ==> *final(ch) == *old(ch) && *final(k) == *old(k),
    {
        ch.try_send_impl(k, val)
    }
}

impl<T> Receiver<T> {
    /// The handle is for the channel `ch`.
    pub open spec fn is_for<const N: usize>(self, ch: Channel<T, N>) -> bool {
        self.tag == ch.tag
    }

    /// Receive the oldest value, or block the calling task until one is
    /// delivered to it.
    ///
    /// On `None` the task has blocked; `Channel::collect` gives it its value
    /// when it runs again. Not for interrupt handlers.
    pub fn recv<const N: usize>(&self, ch: &mut Channel<T, N>, k: &mut Kernel) -> (r: Option<T>)
        requires
            self.is_for(*old(ch)),
            old(ch).wf(*old(k)),
            old(k).running(),
            !old(ch).inbox@.contains_key(old(k).current->0),
        ensures
            final(ch).wf(*final(k)),
            self.is_for(*final(ch)),
            r is Some == (old(ch).queue().len() > 0),
            r matches Some(v) ==> v == old(ch).queue()[0] && old(ch).dequeued(
                *final(ch),
                *old(k),
                *final(k),
            ),
            r is None ==> old(ch).recv_blocked(*final(ch), *old(k), *final(k)),
    {
        ch.recv_impl(k)
    }

    /// Receive the oldest value without blocking.
    ///
    /// Returns `None` if there was none.
    pub fn try_recv<const N: usize>(
        &self,
        ch: &mut Channel<T, N>,
        k: &mut Kernel,
    ) -> (r: Option<T>)
        requires
            self.is_for(*old(ch)),
            old(ch).wf(*old(k)),
        ensures
            final(ch).wf(*final(k)),
            self.is_for(*final(ch)),
            r is Some == (old(ch).queue().len() > 0),
            r matches Some(v) ==> v == old(ch).queue()[0] && old(ch).dequeued(
                *final(ch),
                *old(k),
                *final(k),
            ),
            r is None ==> *final(ch) == *old(ch) && *final(k) == *old(k),
    {
        ch.try_recv_impl(k)
    }
}

impl<T, const N: usize> Channel<T, N> {
    /// How many values are under way: buffered, waiting with a blocked sender,
    /// or delivered and not yet collected.
    pub open spec fn in_flight(self) -> nat {
        self.queue().len() + self.outbox@.dom().len() + self.inbox@.dom().len()
    }

    /// The buffer never holds more than `N` values.
    pub proof fn law_capacity(self, k: Kernel)
        requires
            self.wf(k),
        ensures
            self.queue().len() <= N,
    {
    }

    /// First in, first out: taking a value in leaves those before it where they
    /// are.
    pub proof fn law_send_keeps_order(
        self,
        after: Channel<T, N>,
        k: Kernel,
        k_after: Kernel,
        val: T,
        i: int,
    )
        requires
            self.wf(k),
            self.accepted(after, k, k_after, val),
            0 <= i < self.queue().len(),
        ensures
            i < after.queue().len(),
            after.queue()[i] == self.queue()[i],
            after.queue().last() == val,
    {
    }

    /// First in, first out: each value that leaves brings all the others one
    /// place forward.
    pub proof fn law_recv_keeps_order(
        self,
        after: Channel<T, N>,
        k: Kernel,
        k_after: Kernel,
        i: int,
    )
        requires
            self.wf(k),
            self.dequeued(after, k, k_after),
            0 < i < self.queue().len(),
        ensures
            i - 1 < after.queue().len(),
            after.queue()[i - 1] == self.queue()[i],
    {
    }

    /// First in, first out over a whole history: if the values that have come out
    /// are the first of those that have gone in, and the buffered ones are the
    /// rest, then that is still so after one more has gone in. One that is
    /// delivered to a waiting receiver comes out at once.
    pub proof fn law_history_of_sends(
        self,
        after: Channel<T, N>,
        k: Kernel,
        k_after: Kernel,
        val: T,
        gone_in: Seq<T>,
        come_out: Seq<T>,
    )
        requires
            self.wf(k),
            self.accepted(after, k, k_after, val),
            gone_in == come_out + self.queue(),
        ensures
            gone_in.push(val) == (if self.receivers@.len() > 0 {
                come_out.push(val)
            } else {
                come_out
            }) + after.queue(),
    {
        if self.receivers@.len() > 0 {
            assert(gone_in.push(val) =~= come_out.push(val) + after.queue());
        } else {
            assert(gone_in.push(val) =~= come_out + after.queue());
        }
    }

    /// First in, first out over a whole history: the same after a value has been
    /// received, which lets in the value of a blocked sender if there is one.
    pub proof fn law_history_of_receives(
        self,
        after: Channel<T, N>,
        k: Kernel,
        k_after: Kernel,
        gone_in: Seq<T>,
        come_out: Seq<T>,
    )
        requires
            self.wf(k),
            self.queue().len() > 0,
            self.dequeued(after, k, k_after),
            gone_in == come_out + self.queue(),
        ensures
            (if self.senders@.len() > 0 {
                gone_in.push(self.outbox@[WaitList::next_waiter(k.tasks@, self.senders@)])
            } else {
                gone_in
            }) == come_out.push(self.queue()[0]) + after.queue(),
    {
        if self.senders@.len() > 0 {
            assert(gone_in.push(self.outbox@[WaitList::next_waiter(k.tasks@, self.senders@)])
                =~= come_out.push(self.queue()[0]) + after.queue());
        } else {
            assert(gone_in =~= come_out.push(self.queue()[0]) + after.queue());
        }
    }

    /// A value taken in by an empty channel is the next one to come out, or it
    /// has been delivered to a receiver that waited for it.
    pub proof fn law_recv_gives_back_what_was_sent(
        self,
        after: Channel<T, N>,
        k: Kernel,
        k_after: Kernel,
        val: T,
    )
        requires
            self.wf(k),
            self.accepts(),
            self.queue().len() == 0,
            self.accepted(after, k, k_after, val),
        ensures
            self.receivers@.len() == 0 ==> after.queue() == seq![val],
            self.receivers@.len() > 0 ==> after.queue().len() == 0 && after.inbox@[WaitList::next_waiter(
                k.tasks@,
                self.receivers@,
            )] == val,
    {
        assert(self.receivers@.len() == 0 ==> after.queue() =~= seq![val]);
    }

    /// No value is lost or made up: one that is taken in is one more under way.
    pub proof fn law_send_adds_one(
        self,
        after: Channel<T, N>,
        k: Kernel,
        k_after: Kernel,
        val: T,
    )
        requires
            self.wf(k),
            self.accepted(after, k, k_after, val) || self.send_blocked(after, k, k_after, val)
                && k.running(),
        ensures
            after.in_flight() == self.in_flight() + 1,
    {
        if self.accepted(after, k, k_after, val) {
            if self.receivers@.len() > 0 {
                let w = WaitList::next_waiter(k.tasks@, self.receivers@);
                WaitList::law_next_waiter_is_highest(k.tasks@, self.receivers@);
                assert(self.receivers@.contains(w));
                assert(after.inbox@.dom() =~= self.inbox@.dom().insert(w));
            }
        } else {
            let c = k.current->0;
            k.lemma_running_waits_nowhere(self.senders);
            assert(!self.outbox@.contains_key(c));
            assert(after.outbox@.dom() =~= self.outbox@.dom().insert(c));
        }
    }

    /// No value is lost or made up: one that leaves is one less under way.
    pub proof fn law_recv_takes_one(self, after: Channel<T, N>, k: Kernel, k_after: Kernel)
        requires
            self.wf(k),
            self.queue().len() > 0,
            self.dequeued(after, k, k_after),
        ensures
            after.in_flight() == self.in_flight() - 1,
    {
        if self.senders@.len() > 0 {
            let w = WaitList::next_waiter(k.tasks@, self.senders@);
            WaitList::law_next_waiter_is_highest(k.tasks@, self.senders@);
            assert(self.senders@.contains(w));
            assert(self.outbox@.contains_key(w));
            assert(after.outbox@.dom() =~= self.outbox@.dom().remove(w));
        }
    }

    /// A value is taken at once exactly when a receiver waits for one or fewer than
    /// `N` are buffered.
    pub proof fn law_room_for_n_values(self)
        requires
            self.ring_wf(),
        ensures
            self.accepts() <==> self.receivers@.len() > 0 || self.queue().len() < N,
    {
    }

    /// The buffered values are those of the slots from `head` on, around the end of
    /// the buffer: the one at place `i` lies `i` slots behind the first.
    pub proof fn law_queue_is_what_is_buffered(self, i: int)
        requires
            self.ring_wf(),
            0 <= i < self.queue().len(),
        ensures
            self.queue().len() == self.count,
            self.buf@[(self.head + i) % (N as int)] == Some(self.queue()[i]),
    {
        let n = N as int;
        assert(self.buf@[Self::slot(self.head as int, i)] is Some);
        if self.head + i < n {
            vstd::arithmetic::div_mod::lemma_small_mod((self.head + i) as nat, N as nat);
        } else {
            vstd::arithmetic::div_mod::lemma_mod_sub_multiples_vanish(self.head + i, n);
            vstd::arithmetic::div_mod::lemma_small_mod((self.head + i - n) as nat, N as nat);
        }
    }

    /// A value that is sent while tasks wait to receive goes to one of them, whom none
    /// of the others outranks, and is there for that task to collect. That task is
    /// ready, it alone; the buffer stays as it is.
    pub proof fn law_values_go_to_waiting_receivers(
        self,
        after: Channel<T, N>,
        k: Kernel,
        k_after: Kernel,
        val: T,
    )
        requires
            self.wf(k),
            self.receivers@.len() > 0,
            self.accepted(after, k, k_after, val),
        ensures
            after.queue().len() == 0,
            exists|i: int|
                {
                    let w = #[trigger] self.receivers@[i];
                    &&& 0 <= i < self.receivers@.len()
                    &&& after.receivers@ == self.receivers@.remove(i)
                    &&& after.inbox@.contains_key(w)
                    &&& after.inbox@[w] == val
                    &&& forall|x: usize|
                        x != w ==> after.inbox@.contains_key(x) == self.inbox@.contains_key(x)
                            && #[trigger] after.inbox@[x] == self.inbox@[x]
                    &&& k_after.tasks@[w as int].state is Ready
                    &&& forall|j: int|
                        0 <= j < self.receivers@.len() ==> k.tasks@[w as int].priority
                            <= k.tasks@[#[trigger] self.receivers@[j] as int].priority
                    &&& forall|t: int|
                        0 <= t < k.tasks@.len() && t != w ==> (#[trigger] k_after.tasks@[t]).state
                            == k.tasks@[t].state
                },
    {
        let ids = self.receivers@;
        WaitList::law_wake_picks_the_highest(k.tasks@, k_after.tasks@, ids);
        let i = WaitList::next_index(k.tasks@, ids);
        WaitList::law_next_waiter_is_highest(k.tasks@, ids);
        WaitList::lemma_removed(ids, i);
        let w = ids[i];
        assert(w == WaitList::next_waiter(k.tasks@, ids));
        assert(k_after.tasks@[w as int].state is Ready);
    }

    /// A value that leaves a full buffer makes room for the value of a task that is
    /// blocked in `send`, whom none of the others outranks: it is buffered last, and
    /// that task is ready, it alone.
    pub proof fn law_blocked_senders_move_up(
        self,
        after: Channel<T, N>,
        k: Kernel,
        k_after: Kernel,
    )
        requires
            self.wf(k),
            self.queue().len() > 0,
            self.senders@.len() > 0,
            self.dequeued(after, k, k_after),
        ensures
            after.queue().len() == self.queue().len(),
            exists|i: int|
                {
                    let w = #[trigger] self.senders@[i];
                    &&& 0 <= i < self.senders@.len()
                    &&& after.senders@ == self.senders@.remove(i)
                    &&& after.queue().last() == self.outbox@[w]
                    &&& !after.outbox@.contains_key(w)
                    &&& k_after.tasks@[w as int].state is Ready
                    &&& forall|j: int|
                        0 <= j < self.senders@.len() ==> k.tasks@[w as int].priority
                            <= k.tasks@[#[trigger] self.senders@[j] as int].priority
                    &&& forall|t: int|
                        0 <= t < k.tasks@.len() && t != w ==> (#[trigger] k_after.tasks@[t]).state
                            == k.tasks@[t].state
                },
    {
        let ids = self.senders@;
        WaitList::law_wake_picks_the_highest(k.tasks@, k_after.tasks@, ids);
        let i = WaitList::next_index(k.tasks@, ids);
        WaitList::law_next_waiter_is_highest(k.tasks@, ids);
        WaitList::lemma_removed(ids, i);
        let w = ids[i];
        assert(w == WaitList::next_waiter(k.tasks@, ids));
        assert(k_after.tasks@[w as int].state is Ready);
    }

    /// With nobody blocked, sending and receiving touch no task.
    pub proof fn law_unhindered_calls_touch_no_task(
        self,
        after: Channel<T, N>,
        k: Kernel,
        k_after: Kernel,
        val: T,
    )
        requires
            self.wf(k),
            self.accepted(after, k, k_after, val) && self.receivers@.len() == 0 || self.dequeued(
                after,
                k,
                k_after,
            ) && self.senders@.len() == 0,
        ensures
            k_after == k,
            after.inbox == self.inbox,
            after.outbox == self.outbox,
            after.senders == self.senders,
            after.receivers == self.receivers,
    {
    }

    /// Sending and receiving ask for a switch exactly when they make a blocked task
    /// ready that has a higher priority than the current one.
    pub proof fn law_channel_requests_a_switch_when_due(
        self,
        after: Channel<T, N>,
        k: Kernel,
        k_after: Kernel,
        val: T,
    )
        requires
            self.wf(k),
            self.accepted(after, k, k_after, val) || self.dequeued(after, k, k_after),
        ensures
            k_after.pendsv == (k.pendsv || crate::kernel::wait_list::woke_a_higher_one(k, k_after)),
    {
        if self.accepted(after, k, k_after, val) {
            if self.receivers@.len() > 0 {
                k_after.law_one_woken_outranks(k, self.receivers);
            }
        } else if self.senders@.len() > 0 {
            k_after.law_one_woken_outranks(k, self.senders);
        }
    }

    /// A task that blocks in a channel is blocked, it alone, and a switch is asked
    /// for; a sender's value stays with it and the buffer does not change.
    pub proof fn law_blocking_in_a_channel(
        self,
        after: Channel<T, N>,
        k: Kernel,
        k_after: Kernel,
        val: T,
        t: usize,
    )
        requires
            self.wf(k),
            k.running(),
            self.send_blocked(after, k, k_after, val) || self.recv_blocked(after, k, k_after),
            t < k.tasks@.len(),
        ensures
            k_after.tasks@[t as int].state == (if k.current == Some(t) {
                crate::kernel::tcb::TaskState::Blocked
            } else {
                k.tasks@[t as int].state
            }),
            k_after.pendsv,
            after.queue() == self.queue(),
            after.senders@.len() + after.receivers@.len() == self.senders@.len()
                + self.receivers@.len() + 1,
            self.send_blocked(after, k, k_after, val) ==> after.outbox@[k.current->0] == val
                && after.senders@[0] == k.current->0,
            self.recv_blocked(after, k, k_after) ==> after.receivers@[0] == k.current->0,
    {
    }

    /// A receive that blocks, a send and the collection: the only task that waits gets
    /// the value that is sent, and collects that very value.
    pub proof fn law_waiting_receiver_gets_the_next_value(
        self,
        waiting: Channel<T, N>,
        k: Kernel,
        k_waiting: Kernel,
        sent: Channel<T, N>,
        k_before: Kernel,
        k_sent: Kernel,
        val: T,
        after: Channel<T, N>,
        r: T,
    )
        requires
            self.wf(k),
            k.running(),
            self.receivers@.len() == 0,
            self.recv_blocked(waiting, k, k_waiting),
            waiting.wf(k_before),
            waiting.accepted(sent, k_before, k_sent, val),
            sent.collected(after, k.current->0, r),
        ensures
            k_sent.tasks@[k.current->0 as int].state is Ready,
            r == val,
            !after.inbox@.contains_key(k.current->0),
    {
        let c = k.current->0;
        assert(waiting.receivers@ =~= seq![c]);
        WaitList::law_next_waiter_is_highest(k_before.tasks@, waiting.receivers@);
        WaitList::lemma_removed(
            waiting.receivers@,
            WaitList::next_index(k_before.tasks@, waiting.receivers@),
        );
    }

    /// A send that blocks and a receive: the value of the only task that waits is
    /// buffered behind all others, and the task is ready.
    pub proof fn law_waiting_sender_gets_the_next_slot(
        self,
        waiting: Channel<T, N>,
        k: Kernel,
        k_waiting: Kernel,
        val: T,
        after: Channel<T, N>,
        k_before: Kernel,
        k_after: Kernel,
    )
        requires
            self.wf(k),
            k.running(),
            self.senders@.len() == 0,
            self.send_blocked(waiting, k, k_waiting, val),
            waiting.wf(k_before),
            waiting.queue().len() > 0,
            waiting.dequeued(after, k_before, k_after),
        ensures
            k_after.tasks@[k.current->0 as int].state is Ready,
            after.queue() == self.queue().drop_first().push(val),
            after.senders@.len() == 0,
    {
        let c = k.current->0;
        assert(waiting.senders@ =~= seq![c]);
        WaitList::law_next_waiter_is_highest(k_before.tasks@, waiting.senders@);
        WaitList::lemma_removed(
            waiting.senders@,
            WaitList::next_index(k_before.tasks@, waiting.senders@),
        );
    }

    /// Receivers wait only while nothing is buffered, senders only while the buffer is
    /// full; whoever waits is blocked, and a blocked sender still has its value.
    pub proof fn law_nobody_waits_in_vain(self, k: Kernel, i: int)
        requires
            self.wf(k),
        ensures
            0 <= i < self.receivers@.len() ==> self.queue().len() == 0
                && k.tasks@[self.receivers@[i] as int].state is Blocked
                && !self.inbox@.contains_key(self.receivers@[i]),
            0 <= i < self.senders@.len() ==> self.queue().len() == N
                && k.tasks@[self.senders@[i] as int].state is Blocked && self.outbox@.contains_key(
                self.senders@[i],
            ),
    {
        if 0 <= i < self.receivers@.len() {
            assert(self.receivers@.contains(self.receivers@[i]));
        }
        if 0 <= i < self.senders@.len() {
            assert(self.senders@.contains(self.senders@[i]));
        }
    }
}

} // verus!
