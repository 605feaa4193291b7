use crate::kernel::tcb::{TaskState, Tcb};
use crate::kernel::wait_list::WaitList;
use crate::kernel::Kernel;
use vstd::prelude::*;

verus! {

/// A 32-bit event flag group.
///
/// Tasks can block until any or all bits of a mask are set. Matched bits are
/// consumed when a waiting task is woken, so that one event never satisfies
/// two callers that wait for the same bit.
pub struct EventGroup {
    /// Current flag state.
    pub bits: u32,
    /// Tasks blocked in `wait_any`; each keeps its mask in `Tcb::wait_ptr`.
    pub any: WaitList,
    /// Tasks blocked in `wait_all`; each keeps its mask in `Tcb::wait_ptr`.
    pub all: WaitList,
    /// Optional human-readable name.
    pub name: Option<&'static str>,
}

impl EventGroup {
    /// Both wait lists are sound and share nobody, and no task is left waiting
    /// whose condition is met.
    pub open spec fn wf(self, k: Kernel) -> bool {
        &&& k.wf()
        &&& k.holds(self.any)
        &&& k.holds(self.all)
        &&& forall|i: int| 0 <= i < self.any@.len() ==> !self.all@.contains(#[trigger] self.any@[i])
        &&& EventGroup::settled(false, self.bits, k.tasks@, self.any@)
        &&& EventGroup::settled(true, self.bits, k.tasks@, self.all@)
    }

    /// The flags satisfy none of the waiters `ids`.
    pub open spec fn settled(all: bool, bits: u32, tasks: Seq<Tcb>, ids: Seq<usize>) -> bool {
        forall|i: int|
            0 <= i < ids.len() ==> !EventGroup::hit(
                all,
                bits,
                tasks[#[trigger] ids[i] as int].wait_ptr as u32,
            )
    }

    /// The masks of the waiting tasks `ids`.
    pub open spec fn masks(tasks: Seq<Tcb>, ids: Seq<usize>) -> Seq<u32> {
        Seq::new(ids.len(), |i: int| tasks[ids[i] as int].wait_ptr as u32)
    }

    /// The flags `bits` satisfy a waiter for all, or for any, of `mask`.
    pub open spec fn hit(all: bool, bits: u32, mask: u32) -> bool {
        if all {
            bits & mask == mask
        } else {
            bits & mask != 0
        }
    }

    /// The flags left once the first `i` waiters have taken theirs.
    pub open spec fn bits_left(all: bool, bits: u32, masks: Seq<u32>, i: int) -> u32
        decreases i,
    {
        if i <= 0 {
            bits
        } else {
            let b = EventGroup::bits_left(all, bits, masks, i - 1);
            if EventGroup::hit(all, b, masks[i - 1]) {
                b & !(b & masks[i - 1])
            } else {
                b
            }
        }
    }

    /// The `j`-th waiter is satisfied once those before it have taken theirs.
    pub open spec fn fires(all: bool, bits: u32, masks: Seq<u32>, j: int) -> bool {
        EventGroup::hit(all, EventGroup::bits_left(all, bits, masks, j), masks[j])
    }

    /// The flags that the `j`-th waiter takes.
    pub open spec fn matched(all: bool, bits: u32, masks: Seq<u32>, j: int) -> u32 {
        EventGroup::bits_left(all, bits, masks, j) & masks[j]
    }

    /// Those of the first `i` waiters that go on waiting.
    pub open spec fn kept(
        all: bool,
        bits: u32,
        masks: Seq<u32>,
        ids: Seq<usize>,
        i: int,
    ) -> Seq<usize>
        decreases i,
    {
        if i <= 0 {
            Seq::empty()
        } else {
            let before = EventGroup::kept(all, bits, masks, ids, i - 1);
            if EventGroup::fires(all, bits, masks, i - 1) {
                before
            } else {
                before.push(ids[i - 1])
            }
        }
    }

    /// A waiter once it has been woken: a waiter for any of its bits finds
    /// those that matched in `wait_ptr`.
    pub open spec fn released(t: Tcb, all: bool, matched: u32) -> Tcb {
        Tcb {
            state: TaskState::Ready { slice_remaining: t.time_slice },
            wait_next: None,
            wait_ptr: if all {
                t.wait_ptr
            } else {
                matched as usize
            },
            ..t
        }
    }

    /// Of the waiters `ids`, those that fire are released and the others keep
    /// all but their links.
    pub open spec fn swept(
        all: bool,
        bits: u32,
        before: Seq<Tcb>,
        after: Seq<Tcb>,
        ids: Seq<usize>,
    ) -> bool {
        let masks = EventGroup::masks(before, ids);
        forall|j: int|
            0 <= j < ids.len() ==> (#[trigger] after[ids[j] as int]) == if EventGroup::fires(
                all,
                bits,
                masks,
                j,
            ) {
                EventGroup::released(
                    before[ids[j] as int],
                    all,
                    EventGroup::matched(all, bits, masks, j),
                )
            } else {
                Tcb { wait_next: after[ids[j] as int].wait_next, ..before[ids[j] as int] }
            }
    }

    /// One of the waiters that fire outranks the current task.
    pub open spec fn wakes_higher(all: bool, bits: u32, k: Kernel, ids: Seq<usize>) -> bool {
        exists|j: int|
            0 <= j < ids.len() && EventGroup::fires(
                all,
                bits,
                EventGroup::masks(k.tasks@, ids),
                j,
            ) && k.outranks_current(#[trigger] ids[j])
    }

    /// Take the waiter `c`, at position `b` behind `prev`, off the list and
    /// wake it; returns whether it outranks the current task.
    fn release(
        list: &mut WaitList,
        k: &mut Kernel,
        prev: Option<usize>,
        c: usize,
        all: bool,
        matched: u32,
        Ghost(b): Ghost<int>,
    ) -> (r: bool)
        requires
            old(k).wf(),
            old(k).current is Some,
            old(k).linked(*old(list)),
            0 <= b < old(list)@.len(),
            c == old(list)@[b],
            prev == WaitList::entry(old(list)@, b - 1),
        ensures
            final(k).wf(),
            final(k).linked(*final(list)),
            final(k).same_but_tasks(*old(k)),
            final(k).pendsv == old(k).pendsv,
            final(list)@ == old(list)@.remove(b),
            WaitList::same_but_links(
                old(k).tasks@.update(
                    c as int,
                    EventGroup::released(old(k).tasks@[c as int], all, matched),
                ),
                final(k).tasks@,
                final(list)@,
            ),
            r == old(k).outranks_current(c),
    {
        k.unlink_after(list, prev, c, Ghost(b));
        proof {
            WaitList::lemma_removed(old(list)@, b);
        }
        let ghost mid = k.tasks@;
        if !all {
            k.tasks[c].wait_ptr = matched as usize;
        }
        let r: bool = k.unblock(c);
        proof {
            assert forall|i: int| 0 <= i < list@.len() implies (
            #[trigger] k.tasks@[list@[i] as int]).wait_next == WaitList::entry(list@, i + 1) by {
                assert(list@.contains(list@[i]));
                assert(k.tasks@[list@[i] as int] == mid[list@[i] as int]);
            }
        }
        r
    }

    /// The waiters before the `i`-th have been looked at: `now` is the task
    /// table, `list` is what the list holds.
    spec fn swept_upto(
        all: bool,
        bits: u32,
        before: Seq<Tcb>,
        now: Seq<Tcb>,
        ids: Seq<usize>,
        i: int,
    ) -> bool {
        let masks = EventGroup::masks(before, ids);
        &&& now.len() == before.len()
        &&& forall|j: int|
            0 <= j < ids.len() ==> (#[trigger] now[ids[j] as int]) == if j < i
                && EventGroup::fires(all, bits, masks, j) {
                EventGroup::released(
                    before[ids[j] as int],
                    all,
                    EventGroup::matched(all, bits, masks, j),
                )
            } else {
                Tcb { wait_next: now[ids[j] as int].wait_next, ..before[ids[j] as int] }
            }
        &&& forall|t: int|
            0 <= t < before.len() && !ids.contains(t as usize) ==> #[trigger] now[t] == before[t]
    }

    /// Which waiters go on waiting.
    pub proof fn lemma_kept(all: bool, bits: u32, masks: Seq<u32>, ids: Seq<usize>, i: int)
        requires
            0 <= i <= ids.len(),
            ids.no_duplicates(),
        ensures
            ({
                let kept = EventGroup::kept(all, bits, masks, ids, i);
                &&& kept.no_duplicates()
                &&& forall|m: int| 0 <= m < kept.len() ==> ids.contains(#[trigger] kept[m])
                &&& forall|j: int|
                    0 <= j < ids.len() ==> (kept.contains(#[trigger] ids[j]) <==> j < i
                        && !EventGroup::fires(all, bits, masks, j))
            }),
        decreases i,
    {
        if i > 0 {
            EventGroup::lemma_kept(all, bits, masks, ids, i - 1);
            let before = EventGroup::kept(all, bits, masks, ids, i - 1);
            let kept = EventGroup::kept(all, bits, masks, ids, i);
            if !EventGroup::fires(all, bits, masks, i - 1) {
                assert(kept[before.len() as int] == ids[i - 1]);
                assert forall|m: int| 0 <= m < kept.len() implies ids.contains(
                    #[trigger] kept[m],
                ) by {
                    if m < before.len() {
                        assert(kept[m] == before[m]);
                    }
                }
                assert forall|j: int| 0 <= j < ids.len() implies (kept.contains(#[trigger] ids[j])
                    <==> j < i && !EventGroup::fires(all, bits, masks, j)) by {
                    if before.contains(ids[j]) {
                        let m = choose|m: int| 0 <= m < before.len() && before[m] == ids[j];
                        assert(kept[m] == ids[j]);
                    }
                    if kept.contains(ids[j]) {
                        let m = choose|m: int| 0 <= m < kept.len() && kept[m] == ids[j];
                        if m < before.len() {
                            assert(before[m] == ids[j]);
                        }
                    }
                }
            }
        }
    }

    /// One more waiter, taken off the list.
    proof fn lemma_release_step(
        all: bool,
        bits: u32,
        before: Seq<Tcb>,
        now: Seq<Tcb>,
        later: Seq<Tcb>,
        ids: Seq<usize>,
        stay: Seq<usize>,
        i: int,
    )
        requires
            0 <= i < ids.len(),
            ids.no_duplicates(),
            forall|j: int| 0 <= j < ids.len() ==> #[trigger] ids[j] < before.len(),
            stay == EventGroup::kept(all, bits, EventGroup::masks(before, ids), ids, i),
            EventGroup::swept_upto(all, bits, before, now, ids, i),
            EventGroup::fires(all, bits, EventGroup::masks(before, ids), i),
            WaitList::same_but_links(
                now.update(
                    ids[i] as int,
                    EventGroup::released(
                        now[ids[i] as int],
                        all,
                        EventGroup::matched(all, bits, EventGroup::masks(before, ids), i),
                    ),
                ),
                later,
                stay + ids.skip(i + 1),
            ),
        ensures
            EventGroup::swept_upto(all, bits, before, later, ids, i + 1),
    {
        let masks = EventGroup::masks(before, ids);
        let rest = stay + ids.skip(i + 1);
        EventGroup::lemma_kept(all, bits, masks, ids, i);
        assert forall|j: int| 0 <= j < ids.len() implies (#[trigger] later[ids[j] as int]) == if j
            < i + 1 && EventGroup::fires(all, bits, masks, j) {
            EventGroup::released(
                before[ids[j] as int],
                all,
                EventGroup::matched(all, bits, masks, j),
            )
        } else {
            Tcb { wait_next: later[ids[j] as int].wait_next, ..before[ids[j] as int] }
        } by {
            assert(now[ids[j] as int].time_slice == before[ids[j] as int].time_slice);
            if j <= i && EventGroup::fires(all, bits, masks, j) {
                assert(!rest.contains(ids[j])) by {
                    if rest.contains(ids[j]) {
                        let m = choose|m: int| 0 <= m < rest.len() && rest[m] == ids[j];
                        if m < stay.len() {
                            assert(stay[m] == ids[j]);
                        } else {
                            assert(rest[m] == ids[m - stay.len() + i + 1]);
                        }
                    }
                }
            }
        }
        assert forall|t: int| 0 <= t < before.len() && !ids.contains(t as usize) implies #[trigger] later[t]
            == before[t] by {
            if rest.contains(t as usize) {
                let m = choose|m: int| 0 <= m < rest.len() && rest[m] == t as usize;
                if m < stay.len() {
                    assert(stay[m] == t as usize);
                } else {
                    assert(rest[m] == ids[m - stay.len() + i + 1]);
                }
            }
            assert(t != ids[i]);
            assert(now[t] == before[t]);
        }
    }

    /// Wake every waiter of `list` that the flags satisfy, front first.
    ///
    /// Returns the flags that are left and whether a woken task outranks the
    /// current one.
    fn sweep(list: &mut WaitList, k: &mut Kernel, bits: u32, all: bool) -> (r: (u32, bool))
        requires
            old(k).wf(),
            old(k).holds(*old(list)),
        ensures
            final(k).wf(),
            final(k).holds(*final(list)),
            final(k).same_but_tasks(*old(k)),
            final(k).pendsv == old(k).pendsv,
            r.0 == EventGroup::bits_left(
                all,
                bits,
                EventGroup::masks(old(k).tasks@, old(list)@),
                old(list)@.len() as int,
            ),
            r.1 == EventGroup::wakes_higher(all, bits, *old(k), old(list)@),
            final(list)@ == EventGroup::kept(
                all,
                bits,
                EventGroup::masks(old(k).tasks@, old(list)@),
                old(list)@,
                old(list)@.len() as int,
            ),
            EventGroup::swept(all, bits, old(k).tasks@, final(k).tasks@, old(list)@),
            forall|t: int|
                0 <= t < old(k).tasks@.len() && !old(list)@.contains(t as usize)
                    ==> #[trigger] final(k).tasks@[t] == old(k).tasks@[t],
    {
        let ghost ids = list@;
        let ghost before = k.tasks@;
        let ghost masks = EventGroup::masks(before, ids);
        let ghost mut i: int = 0;
        let ghost mut stay: Seq<usize> = Seq::empty();
        let mut left: u32 = bits;
        let mut preempt: bool = false;
        let mut prev: Option<usize> = None;
        let mut cur: Option<usize> = list.head;
        assert(stay + ids.skip(0) =~= ids);
        while cur.is_some()
            invariant
                k.wf(),
                k.linked(*list),
                k.same_but_tasks(*old(k)),
                k.pendsv == old(k).pendsv,
                ids == old(list)@,
                before == old(k).tasks@,
                old(k).wf(),
                ids.len() > 0 ==> k.current is Some,
                masks == EventGroup::masks(before, ids),
                0 <= i <= ids.len(),
                stay == EventGroup::kept(all, bits, masks, ids, i),
                list@ == stay + ids.skip(i),
                cur == WaitList::entry(ids, i),
                prev == WaitList::entry(stay, stay.len() - 1),
                left == EventGroup::bits_left(all, bits, masks, i),
                preempt == exists|j: int|
                    0 <= j < i && EventGroup::fires(all, bits, masks, j)
                        && old(k).outranks_current(#[trigger] ids[j]),
                ids.no_duplicates(),
                forall|j: int| 0 <= j < ids.len() ==> #[trigger] ids[j] < before.len(),
                EventGroup::swept_upto(all, bits, before, k.tasks@, ids, i),
            decreases ids.len() - i,
        {
            let c: usize = cur.unwrap();
            let ghost at = stay.len() as int;
            let ghost now = *k;
            proof {
                assert(c == ids[i]);
                assert(list@[at] == c);
                assert(k.tasks@[list@[at] as int].wait_next == WaitList::entry(list@, at + 1));
                assert(WaitList::entry(list@, at + 1) == WaitList::entry(ids, i + 1));
                assert(k.tasks@[ids[i] as int].wait_ptr == before[ids[i] as int].wait_ptr);
                assert(WaitList::entry(stay, at - 1) == WaitList::entry(list@, at - 1));
                assert(list@.remove(at) =~= stay + ids.skip(i + 1));
                assert(stay.push(c) + ids.skip(i + 1) =~= list@);
            }
            let next: Option<usize> = k.tasks[c].wait_next;
            let task_mask: u32 = k.tasks[c].wait_ptr as u32;
            let matched: u32 = left & task_mask;
            let satisfied: bool = if all {
                matched == task_mask
            } else {
                matched != 0
            };
            assert(satisfied == EventGroup::fires(all, bits, masks, i));
            if satisfied {
                left = left & !matched;
                let higher: bool = EventGroup::release(list, k, prev, c, all, matched, Ghost(at));
                if higher {
                    preempt = true;
                }
                proof {
                    EventGroup::lemma_release_step(
                        all,
                        bits,
                        before,
                        now.tasks@,
                        k.tasks@,
                        ids,
                        stay,
                        i,
                    );
                    let cur_id = k.current->0 as int;
                    assert(now.tasks@[cur_id].priority == before[cur_id].priority) by {
                        if ids.contains(cur_id as usize) {
                            let j = choose|j: int| 0 <= j < ids.len() && ids[j] == cur_id as usize;
                            assert(now.tasks@[ids[j] as int].priority == before[ids[j] as int].priority);
                        }
                    }
                    assert(now.outranks_current(ids[i]) == old(k).outranks_current(ids[i]));
                }
            } else {
                prev = cur;
            }
            cur = next;
            proof {
                i = i + 1;
                stay = EventGroup::kept(all, bits, masks, ids, i);
            }
        }
        proof {
            assert(stay + ids.skip(i) =~= stay);
            EventGroup::lemma_kept(all, bits, masks, ids, i);
            assert forall|m: int| 0 <= m < list@.len() implies k.tasks@[#[trigger] list@[m] as int].state is Blocked by {
                assert(list@.contains(list@[m]));
                let j = choose|j: int| 0 <= j < ids.len() && ids[j] == list@[m];
                assert(list@.contains(ids[j]));
                assert(k.tasks@[ids[j] as int].state == before[ids[j] as int].state);
            }
        }
        (left, preempt)
    }

    /// The flags of `a` are among those of `b`.
    pub open spec fn within(a: u32, b: u32) -> bool {
        a & b == a
    }

    /// Flags only leave while waiters are looked at.
    pub proof fn lemma_bits_shrink(all: bool, bits: u32, masks: Seq<u32>, i: int, j: int)
        requires
            0 <= i <= j,
        ensures
            EventGroup::within(
                EventGroup::bits_left(all, bits, masks, j),
                EventGroup::bits_left(all, bits, masks, i),
            ),
        decreases j,
    {
        let bi = EventGroup::bits_left(all, bits, masks, i);
        if i == j {
            assert(bi & bi == bi) by (bit_vector);
        } else {
            EventGroup::lemma_bits_shrink(all, bits, masks, i, j - 1);
            let b = EventGroup::bits_left(all, bits, masks, j - 1);
            let m = masks[j - 1];
            assert((b & !(b & m)) & bi == (b & !(b & m))) by (bit_vector)
                requires
                    b & bi == b,
            ;
        }
    }

    /// Fewer flags satisfy no waiter that more flags did not.
    proof fn lemma_fewer_bits(all: bool, a: u32, b: u32, mask: u32)
        requires
            EventGroup::within(a, b),
            !EventGroup::hit(all, b, mask),
        ensures
            !EventGroup::hit(all, a, mask),
    {
        assert(b & mask == 0 ==> a & mask == 0) by (bit_vector)
            requires
                a & b == a,
        ;
        assert(a & mask == mask ==> b & mask == mask) by (bit_vector)
            requires
                a & b == a,
        ;
    }

    /// After a sweep nobody on the list is satisfied, nor will be by fewer flags.
    proof fn lemma_swept_settled(
        all: bool,
        bits: u32,
        before: Seq<Tcb>,
        after: Seq<Tcb>,
        ids: Seq<usize>,
        fewer: u32,
    )
        requires
            ids.no_duplicates(),
            EventGroup::swept(all, bits, before, after, ids),
            EventGroup::within(
                fewer,
                EventGroup::bits_left(
                    all,
                    bits,
                    EventGroup::masks(before, ids),
                    ids.len() as int,
                ),
            ),
        ensures
            EventGroup::settled(
                all,
                fewer,
                after,
                EventGroup::kept(
                    all,
                    bits,
                    EventGroup::masks(before, ids),
                    ids,
                    ids.len() as int,
                ),
            ),
    {
        let masks = EventGroup::masks(before, ids);
        let n = ids.len() as int;
        let kept = EventGroup::kept(all, bits, masks, ids, n);
        EventGroup::lemma_kept(all, bits, masks, ids, n);
        assert forall|m: int| 0 <= m < kept.len() implies !EventGroup::hit(
            all,
            fewer,
            after[#[trigger] kept[m] as int].wait_ptr as u32,
        ) by {
            let j = choose|j: int| 0 <= j < ids.len() && ids[j] == kept[m];
            assert(kept.contains(ids[j]));
            assert(after[ids[j] as int].wait_ptr == before[ids[j] as int].wait_ptr);
            EventGroup::lemma_bits_shrink(all, bits, masks, j, n);
            let bj = EventGroup::bits_left(all, bits, masks, j);
            let bn = EventGroup::bits_left(all, bits, masks, n);
            assert(fewer & bj == fewer) by (bit_vector)
                requires
                    fewer & bn == fewer,
                    bn & bj == bn,
            ;
            EventGroup::lemma_fewer_bits(all, fewer, bj, masks[j]);
        }
    }

    /// Create an unnamed group with all bits cleared.
    pub fn new() -> (r: EventGroup)
        ensures
            r.bits == 0,
            r.any@.len() == 0,
            r.all@.len() == 0,
            r.name is None,
            forall|k: Kernel| k.wf() ==> #[trigger] r.wf(k),
    {
        EventGroup { bits: 0, any: WaitList::new(), all: WaitList::new(), name: None }
    }

    /// Create a named group with all bits cleared.
    pub fn new_named(name: &'static str) -> (r: EventGroup)
        ensures
            r.bits == 0,
            r.any@.len() == 0,
            r.all@.len() == 0,
            r.name == Some(name),
            forall|k: Kernel| k.wf() ==> #[trigger] r.wf(k),
    {
        EventGroup { bits: 0, any: WaitList::new(), all: WaitList::new(), name: Some(name) }
    }

    /// What setting the bits of `mask` does, short of the request for a
    /// context switch.
    ///
    /// The waiters for any bit are looked at before the waiters for all.
    pub open spec fn set_effect(
        self,
        after: EventGroup,
        k: Kernel,
        k_after: Kernel,
        mask: u32,
    ) -> bool {
        let raised = self.bits | mask;
        let any = self.any@;
        let any_masks = EventGroup::masks(k.tasks@, any);
        let left = EventGroup::bits_left(false, raised, any_masks, any.len() as int);
        let all = self.all@;
        let all_masks = EventGroup::masks(k.tasks@, all);
        &&& after.name == self.name
        &&& after.bits == EventGroup::bits_left(true, left, all_masks, all.len() as int)
        &&& after.any@ == EventGroup::kept(false, raised, any_masks, any, any.len() as int)
        &&& after.all@ == EventGroup::kept(true, left, all_masks, all, all.len() as int)
        &&& k_after.same_but_tasks(k)
        &&& EventGroup::swept(false, raised, k.tasks@, k_after.tasks@, any)
        &&& EventGroup::swept(true, left, k.tasks@, k_after.tasks@, all)
        &&& forall|t: int|
            0 <= t < k.tasks@.len() && !any.contains(t as usize) && !all.contains(t as usize)
                ==> #[trigger] k_after.tasks@[t] == k.tasks@[t]
    }

    /// The sweep of one list leaves the other one as it was.
    proof fn lemma_other_list(
        raised: u32,
        left: u32,
        k0: Kernel,
        k1: Kernel,
        any: Seq<usize>,
        all: WaitList,
    )
        requires
            k0.wf(),
            k0.holds(all),
            k1.same_but_tasks(k0),
            forall|i: int| 0 <= i < any.len() ==> !all@.contains(#[trigger] any[i]),
            EventGroup::swept(false, raised, k0.tasks@, k1.tasks@, any),
            forall|t: int|
                0 <= t < k0.tasks@.len() && !any.contains(t as usize) ==> #[trigger] k1.tasks@[t]
                    == k0.tasks@[t],
        ensures
            k1.holds(all),
            forall|i: int|
                0 <= i < all@.len() ==> k1.tasks@[#[trigger] all@[i] as int]
                    == k0.tasks@[all@[i] as int],
            EventGroup::masks(k1.tasks@, all@) == EventGroup::masks(k0.tasks@, all@),
            EventGroup::wakes_higher(true, left, k1, all@) == EventGroup::wakes_higher(
                true,
                left,
                k0,
                all@,
            ),
    {
        assert forall|i: int| 0 <= i < all@.len() implies k1.tasks@[#[trigger] all@[i] as int]
            == k0.tasks@[all@[i] as int] by {
            if any.contains(all@[i]) {
                let m = choose|m: int| 0 <= m < any.len() && any[m] == all@[i];
                assert(!all@.contains(any[m]));
            }
        }
        k1.lemma_untouched(k0, all);
        assert(EventGroup::masks(k1.tasks@, all@) =~= EventGroup::masks(k0.tasks@, all@));
        if all@.len() > 0 {
            let c = k0.current->0 as int;
            assert(k1.tasks@[c].priority == k0.tasks@[c].priority) by {
                if any.contains(c as usize) {
                    let m = choose|m: int| 0 <= m < any.len() && any[m] == c as usize;
                    assert(k1.tasks@[any[m] as int].priority == k0.tasks@[any[m] as int].priority);
                }
            }
            assert forall|j: int| 0 <= j < all@.len() implies k1.outranks_current(
                #[trigger] all@[j],
            ) == k0.outranks_current(all@[j]) by {}
        }
    }

    /// After both sweeps the lists are sound and nobody on them is satisfied.
    proof fn lemma_both_swept(
        raised: u32,
        left: u32,
        rest: u32,
        k0: Kernel,
        k1: Kernel,
        k2: Kernel,
        any: Seq<usize>,
        all: Seq<usize>,
        any_left: WaitList,
        all_left: Seq<usize>,
    )
        requires
            any.no_duplicates(),
            all.no_duplicates(),
            forall|i: int| 0 <= i < any.len() ==> #[trigger] any[i] < k0.tasks@.len(),
            forall|i: int| 0 <= i < any.len() ==> !all.contains(#[trigger] any[i]),
            k1.same_but_tasks(k0),
            k2.same_but_tasks(k1),
            k1.holds(any_left),
            any_left@ == EventGroup::kept(
                false,
                raised,
                EventGroup::masks(k0.tasks@, any),
                any,
                any.len() as int,
            ),
            all_left == EventGroup::kept(
                true,
                left,
                EventGroup::masks(k1.tasks@, all),
                all,
                all.len() as int,
            ),
            left == EventGroup::bits_left(
                false,
                raised,
                EventGroup::masks(k0.tasks@, any),
                any.len() as int,
            ),
            rest == EventGroup::bits_left(
                true,
                left,
                EventGroup::masks(k1.tasks@, all),
                all.len() as int,
            ),
            EventGroup::swept(false, raised, k0.tasks@, k1.tasks@, any),
            EventGroup::swept(true, left, k1.tasks@, k2.tasks@, all),
            forall|t: int|
                0 <= t < k1.tasks@.len() && !all.contains(t as usize) ==> #[trigger] k2.tasks@[t]
                    == k1.tasks@[t],
        ensures
            k2.holds(any_left),
            forall|i: int| 0 <= i < any_left@.len() ==> !all_left.contains(#[trigger] any_left@[i]),
            forall|i: int|
                0 <= i < any.len() ==> #[trigger] k2.tasks@[any[i] as int]
                    == k1.tasks@[any[i] as int],
            EventGroup::settled(false, rest, k2.tasks@, any_left@),
            EventGroup::settled(true, rest, k2.tasks@, all_left),
    {
        let any_masks = EventGroup::masks(k0.tasks@, any);
        let all_masks = EventGroup::masks(k1.tasks@, all);
        EventGroup::lemma_kept(false, raised, any_masks, any, any.len() as int);
        EventGroup::lemma_kept(true, left, all_masks, all, all.len() as int);
        EventGroup::lemma_bits_shrink(true, left, all_masks, 0, all.len() as int);
        assert(rest & rest == rest) by (bit_vector);
        assert forall|i: int| 0 <= i < any.len() implies #[trigger] k2.tasks@[any[i] as int]
            == k1.tasks@[any[i] as int] by {
            assert(!all.contains(any[i]));
        }
        assert(EventGroup::swept(false, raised, k0.tasks@, k2.tasks@, any));
        EventGroup::lemma_swept_settled(false, raised, k0.tasks@, k2.tasks@, any, rest);
        EventGroup::lemma_swept_settled(true, left, k1.tasks@, k2.tasks@, all, rest);
        assert forall|m: int| 0 <= m < any_left@.len() implies k2.tasks@[#[trigger] any_left@[m] as int]
            == k1.tasks@[any_left@[m] as int] && !all_left.contains(any_left@[m]) by {
            assert(any.contains(any_left@[m]));
            let i = choose|i: int| 0 <= i < any.len() && any[i] == any_left@[m];
            assert(k2.tasks@[any[i] as int] == k1.tasks@[any[i] as int]);
            if all_left.contains(any[i]) {
                let j = choose|j: int| 0 <= j < all_left.len() && all_left[j] == any[i];
                assert(all.contains(all_left[j]));
            }
        }
        k2.lemma_untouched(k1, any_left);
    }

    /// Set the bits of `mask` and wake every task whose condition is now met.
    fn raise(&mut self, k: &mut Kernel, mask: u32) -> (r: bool)
        requires
            old(self).wf(*old(k)),
        ensures
            final(self).wf(*final(k)),
            old(self).set_effect(*final(self), *old(k), *final(k), mask),
            r == old(self).set_wakes_higher(*old(k), mask),
            final(k).pendsv == old(k).pendsv,
    {
        let ghost k0 = *k;
        let ghost any = self.any@;
        let ghost all = self.all@;
        let raised: u32 = self.bits | mask;
        let (left, higher_any) = EventGroup::sweep(&mut self.any, k, raised, false);
        let ghost k1 = *k;
        let ghost any_left = self.any;
        proof {
            EventGroup::lemma_other_list(raised, left, k0, k1, any, self.all);
        }
        let (rest, higher_all) = EventGroup::sweep(&mut self.all, k, left, true);
        self.bits = rest;
        proof {
            EventGroup::lemma_both_swept(
                raised,
                left,
                rest,
                k0,
                k1,
                *k,
                any,
                all,
                any_left,
                self.all@,
            );
        }
        higher_any || higher_all
    }

    /// Set one or more bits, waking blocked tasks whose condition is now met.
    ///
    /// Returns the bit state once every woken task has taken its bits.
    pub fn set(&mut self, k: &mut Kernel, mask: u32) -> (r: u32)
        requires
            old(self).wf(*old(k)),
        ensures
            final(self).wf(*final(k)),
            old(self).set_effect(*final(self), *old(k), *final(k), mask),
            final(k).pendsv == (old(k).pendsv || old(self).set_wakes_higher(*old(k), mask)),
            r == final(self).bits,
    {
        let need_preempt: bool = self.raise(k, mask);
        if need_preempt {
            k.trigger_pendsv();
        }
        self.bits
    }

    /// Set bits from an interrupt handler, without a request for a context
    /// switch.
    ///
    /// Returns `true` if a task was woken that outranks the current one, so
    /// that the caller should request the switch.
    pub fn set_from_isr(&mut self, k: &mut Kernel, mask: u32) -> (r: bool)
        requires
            old(self).wf(*old(k)),
        ensures
            final(self).wf(*final(k)),
            old(self).set_effect(*final(self), *old(k), *final(k), mask),
            r == old(self).set_wakes_higher(*old(k), mask),
            final(k).pendsv == old(k).pendsv,
    {
        self.raise(k, mask)
    }

    /// Setting the bits of `mask` wakes a task that outranks the current one.
    pub open spec fn set_wakes_higher(self, k: Kernel, mask: u32) -> bool {
        let raised = self.bits | mask;
        let left = EventGroup::bits_left(
            false,
            raised,
            EventGroup::masks(k.tasks@, self.any@),
            self.any@.len() as int,
        );
        EventGroup::wakes_higher(false, raised, k, self.any@) || EventGroup::wakes_higher(
            true,
            left,
            k,
            self.all@,
        )
    }

    /// Clear one or more bits without waking anybody.
    pub fn clear(&mut self, mask: u32)
        ensures
            old(self).cleared(*final(self), mask),
            forall|k: Kernel| old(self).wf(k) ==> #[trigger] final(self).wf(k),
    {
        let ghost b = self.bits;
        self.bits = self.bits & !mask;
        proof {
            assert((b & !mask) & b == (b & !mask)) by (bit_vector);
            assert forall|k: Kernel| old(self).wf(k) implies #[trigger] self.wf(k) by {
                self.lemma_fewer_settled(k.tasks@, b);
            }
        }
    }

    /// With fewer flags than `b` the waiters stay unsatisfied.
    proof fn lemma_fewer_settled(self, tasks: Seq<Tcb>, b: u32)
        requires
            EventGroup::within(self.bits, b),
            EventGroup::settled(false, b, tasks, self.any@),
            EventGroup::settled(true, b, tasks, self.all@),
        ensures
            EventGroup::settled(false, self.bits, tasks, self.any@),
            EventGroup::settled(true, self.bits, tasks, self.all@),
    {
        assert forall|i: int| 0 <= i < self.any@.len() implies !EventGroup::hit(
            false,
            self.bits,
            tasks[#[trigger] self.any@[i] as int].wait_ptr as u32,
        ) by {
            EventGroup::lemma_fewer_bits(
                false,
                self.bits,
                b,
                tasks[self.any@[i] as int].wait_ptr as u32,
            );
        }
        assert forall|i: int| 0 <= i < self.all@.len() implies !EventGroup::hit(
            true,
            self.bits,
            tasks[#[trigger] self.all@[i] as int].wait_ptr as u32,
        ) by {
            EventGroup::lemma_fewer_bits(
                true,
                self.bits,
                b,
                tasks[self.all@[i] as int].wait_ptr as u32,
            );
        }
    }

    /// Read the current bit state.
    pub fn get(&self) -> (r: u32)
        ensures
            r == self.bits,
    {
        self.bits
    }

    /// The task table once the current task finds `word` in its `wait_ptr`.
    pub open spec fn with_word(k: Kernel, word: u32) -> Seq<Tcb> {
        k.tasks@.update(
            k.current->0 as int,
            Tcb { wait_ptr: word as usize, ..k.tasks@[k.current->0 as int] },
        )
    }

    /// What clearing the bits of `mask` does.
    pub open spec fn cleared(self, after: EventGroup, mask: u32) -> bool {
        &&& after.bits == self.bits & !mask
        &&& after.any == self.any
        &&& after.all == self.all
        &&& after.name == self.name
    }

    /// The task table once the current task has blocked at the front of `l` with
    /// `mask` for a word.
    pub open spec fn blocked_with(k: Kernel, l: WaitList, mask: u32) -> Seq<Tcb> {
        k.tasks@.update(
            k.current->0 as int,
            Tcb {
                state: TaskState::Blocked,
                wait_next: l.head,
                wait_ptr: mask as usize,
                ..k.tasks@[k.current->0 as int]
            },
        )
    }

    /// What `wait_any` does, and the bits it returns.
    pub open spec fn waited_any(
        self,
        after: EventGroup,
        k: Kernel,
        k_after: Kernel,
        mask: u32,
        r: Option<u32>,
    ) -> bool {
        &&& after.name == self.name
        &&& after.all == self.all
        &&& k_after.same_but_tasks(k)
        &&& if self.bits & mask != 0 {
            &&& r == Some(self.bits & mask)
            &&& after.bits == self.bits & !(self.bits & mask)
            &&& after.any == self.any
            &&& k_after.tasks@ == EventGroup::with_word(k, self.bits & mask)
            &&& k_after.pendsv == k.pendsv
        } else {
            &&& r is None
            &&& after.bits == self.bits
            &&& after.any@ == seq![k.current->0] + self.any@
            &&& k_after.tasks@ == EventGroup::blocked_with(k, self.any, mask)
            &&& k_after.pendsv
        }
    }

    /// What `wait_all` does, and whether it was satisfied at once.
    pub open spec fn waited_all(
        self,
        after: EventGroup,
        k: Kernel,
        k_after: Kernel,
        mask: u32,
        r: bool,
    ) -> bool {
        &&& after.name == self.name
        &&& after.any == self.any
        &&& r == (self.bits & mask == mask)
        &&& if r {
            &&& after.bits == self.bits & !mask
            &&& after.all == self.all
            &&& k_after == k
        } else {
            &&& after.bits == self.bits
            &&& after.all@ == seq![k.current->0] + self.all@
            &&& k_after.same_but_tasks(k)
            &&& k_after.tasks@ == EventGroup::blocked_with(k, self.all, mask)
            &&& k_after.pendsv
        }
    }

    /// Wait until any of the bits of `mask` are set.
    ///
    /// If some are set already, they are cleared and returned. Otherwise the
    /// task has blocked and a context switch is requested; when it runs again,
    /// `woken_bits` tells which bits it was given.
    pub fn wait_any(&mut self, k: &mut Kernel, mask: u32) -> (r: Option<u32>)
        requires
            old(self).wf(*old(k)),
            old(k).running(),
        ensures
            final(self).wf(*final(k)),
            old(self).waited_any(*final(self), *old(k), *final(k), mask, r),
    {
        let c: usize = k.current.unwrap();
        let ghost before = k.tasks@;
        let ghost b = self.bits;
        let ghost any = self.any@;
        proof {
            k.lemma_running_waits_nowhere(self.any);
            k.lemma_running_waits_nowhere(self.all);
        }
        let matched: u32 = self.bits & mask;
        if matched != 0 {
            self.bits = self.bits & !matched;
            k.tasks[c].wait_ptr = matched as usize;
            proof {
                assert((b & !matched) & b == (b & !matched)) by (bit_vector);
                self.lemma_fewer_settled(before, b);
                k.lemma_untouched(*old(k), self.any);
                k.lemma_untouched(*old(k), self.all);
            }
            Some(matched)
        } else {
            k.tasks[c].wait_ptr = mask as usize;
            proof {
                k.lemma_untouched(*old(k), self.any);
            }
            k.block_and_push(&mut self.any);
            k.trigger_pendsv();
            proof {
                assert(k.tasks@ =~= EventGroup::blocked_with(*old(k), old(self).any, mask));
                k.lemma_untouched(*old(k), self.all);
                assert forall|i: int| 0 <= i < self.any@.len() implies !EventGroup::hit(
                    false,
                    self.bits,
                    k.tasks@[#[trigger] self.any@[i] as int].wait_ptr as u32,
                ) && !self.all@.contains(self.any@[i]) by {
                    if i > 0 {
                        assert(self.any@[i] == any[i - 1]);
                        assert(k.tasks@[any[i - 1] as int] == before[any[i - 1] as int]);
                    }
                }
            }
            None
        }
    }

    /// The bits that woke the current task out of `wait_any`.
    pub fn woken_bits(k: &Kernel) -> (r: u32)
        requires
            k.wf(),
            k.current is Some,
        ensures
            r == k.tasks@[k.current->0 as int].wait_ptr as u32,
    {
        k.tasks[k.current.unwrap()].wait_ptr as u32
    }

    /// Wait until all of the bits of `mask` are set.
    ///
    /// Returns `true` when they were set already; they are cleared. Otherwise
    /// the task has blocked and a context switch is requested; the bits are
    /// cleared when it is woken.
    pub fn wait_all(&mut self, k: &mut Kernel, mask: u32) -> (r: bool)
        requires
            old(self).wf(*old(k)),
            old(k).running(),
        ensures
            final(self).wf(*final(k)),
            old(self).waited_all(*final(self), *old(k), *final(k), mask, r),
    {
        let ghost before = k.tasks@;
        let ghost b = self.bits;
        let ghost all = self.all@;
        if self.bits & mask == mask {
            self.bits = self.bits & !mask;
            proof {
                assert((b & !mask) & b == (b & !mask)) by (bit_vector);
                self.lemma_fewer_settled(before, b);
            }
            true
        } else {
            proof {
                k.lemma_running_waits_nowhere(self.any);
                k.lemma_running_waits_nowhere(self.all);
            }
            let c: usize = k.current.unwrap();
            k.tasks[c].wait_ptr = mask as usize;
            proof {
                k.lemma_untouched(*old(k), self.all);
            }
            k.block_and_push(&mut self.all);
            k.trigger_pendsv();
            proof {
                assert(k.tasks@ =~= EventGroup::blocked_with(*old(k), old(self).all, mask));
                k.lemma_untouched(*old(k), self.any);
                assert forall|i: int| 0 <= i < self.all@.len() implies !EventGroup::hit(
                    true,
                    self.bits,
                    k.tasks@[#[trigger] self.all@[i] as int].wait_ptr as u32,
                ) by {
                    if i > 0 {
                        assert(self.all@[i] == all[i - 1]);
                        assert(k.tasks@[all[i - 1] as int] == before[all[i - 1] as int]);
                    }
                }
                assert forall|i: int| 0 <= i < self.any@.len() implies !self.all@.contains(
                    #[trigger] self.any@[i],
                ) by {
                    if self.all@.contains(self.any@[i]) {
                        let m = choose|m: int| 0 <= m < self.all@.len() && self.all@[m] == self.any@[i];
                        if m > 0 {
                            assert(all[m - 1] == self.any@[i]);
                        }
                    }
                }
            }
            false
        }
    }
}

impl EventGroup {
    /// One event never satisfies two waiters: the flags that one of them takes
    /// are neither left over nor taken by a later one.
    pub proof fn law_flags_are_consumed_once(all: bool, bits: u32, masks: Seq<u32>, i: int, j: int)
        requires
            0 <= i < j <= masks.len(),
            EventGroup::fires(all, bits, masks, i),
        ensures
            EventGroup::matched(all, bits, masks, i) & EventGroup::bits_left(all, bits, masks, j)
                == 0,
            j < masks.len() ==> EventGroup::matched(all, bits, masks, i) & EventGroup::matched(
                all,
                bits,
                masks,
                j,
            ) == 0,
    {
        EventGroup::lemma_bits_shrink(all, bits, masks, i + 1, j);
        let b = EventGroup::bits_left(all, bits, masks, i);
        let m = masks[i];
        let c = EventGroup::bits_left(all, bits, masks, j);
        let n = masks[j];
        let rest = b & !(b & m);
        assert(EventGroup::bits_left(all, bits, masks, i + 1) == rest);
        assert((b & m) & c == 0 && (b & m) & (c & n) == 0) by (bit_vector)
            requires
                c & rest == c,
                rest == b & !(b & m),
        ;
    }

    /// A waiter that fires gets flags it asked for: at least one of them, or all
    /// of them.
    pub proof fn law_fired_waiters_get_what_they_asked_for(
        all: bool,
        bits: u32,
        masks: Seq<u32>,
        j: int,
    )
        requires
            0 <= j < masks.len(),
            EventGroup::fires(all, bits, masks, j),
        ensures
            EventGroup::within(EventGroup::matched(all, bits, masks, j), masks[j]),
            all ==> EventGroup::matched(all, bits, masks, j) == masks[j],
            !all ==> EventGroup::matched(all, bits, masks, j) != 0,
    {
        let b = EventGroup::bits_left(all, bits, masks, j);
        let m = masks[j];
        assert((b & m) & m == b & m) by (bit_vector);
    }

    /// The flags that the first `i` waiters take together.
    pub open spec fn taken(all: bool, bits: u32, masks: Seq<u32>, i: int) -> u32
        decreases i,
    {
        if i <= 0 {
            0
        } else if EventGroup::fires(all, bits, masks, i - 1) {
            EventGroup::taken(all, bits, masks, i - 1) | EventGroup::matched(
                all,
                bits,
                masks,
                i - 1,
            )
        } else {
            EventGroup::taken(all, bits, masks, i - 1)
        }
    }

    /// What the waiters of one list take and what is left share no flag, and
    /// make up the flags there were.
    proof fn lemma_taken_and_left(all: bool, bits: u32, masks: Seq<u32>, i: int)
        requires
            0 <= i,
        ensures
            EventGroup::taken(all, bits, masks, i) | EventGroup::bits_left(all, bits, masks, i)
                == bits,
            EventGroup::taken(all, bits, masks, i) & EventGroup::bits_left(all, bits, masks, i)
                == 0,
        decreases i,
    {
        if i == 0 {
            assert(0u32 | bits == bits && 0u32 & bits == 0) by (bit_vector);
        } else {
            EventGroup::lemma_taken_and_left(all, bits, masks, i - 1);
            let t = EventGroup::taken(all, bits, masks, i - 1);
            let b = EventGroup::bits_left(all, bits, masks, i - 1);
            let m = masks[i - 1];
            assert((t | (b & m)) | (b & !(b & m)) == bits && (t | (b & m)) & (b & !(b & m)) == 0)
                by (bit_vector)
                requires
                    t | b == bits,
                    t & b == 0,
            ;
        }
    }

    /// What a waiter takes is among what the first waiters take together.
    proof fn lemma_matched_is_taken(all: bool, bits: u32, masks: Seq<u32>, j: int, i: int)
        requires
            0 <= j < i,
            EventGroup::fires(all, bits, masks, j),
        ensures
            EventGroup::within(
                EventGroup::matched(all, bits, masks, j),
                EventGroup::taken(all, bits, masks, i),
            ),
        decreases i,
    {
        let m = EventGroup::matched(all, bits, masks, j);
        let t = EventGroup::taken(all, bits, masks, i - 1);
        if j < i - 1 {
            EventGroup::lemma_matched_is_taken(all, bits, masks, j, i - 1);
            let n = EventGroup::matched(all, bits, masks, i - 1);
            assert(m & (t | n) == m) by (bit_vector)
                requires
                    m & t == m,
            ;
        } else {
            assert(m & (t | m) == m) by (bit_vector);
        }
    }

    /// Every flag is accounted for: what the waiters for any flag take, what the
    /// waiters for all take and what is left make up the flags that were raised,
    /// and no flag is in two of these places.
    pub proof fn law_every_flag_is_accounted_for(
        self,
        after: EventGroup,
        k: Kernel,
        k_after: Kernel,
        mask: u32,
    )
        requires
            self.wf(k),
            self.set_effect(after, k, k_after, mask),
        ensures
            ({
                let raised = self.bits | mask;
                let any_masks = EventGroup::masks(k.tasks@, self.any@);
                let all_masks = EventGroup::masks(k.tasks@, self.all@);
                let n = self.any@.len() as int;
                let left = EventGroup::bits_left(false, raised, any_masks, n);
                let by_any = EventGroup::taken(false, raised, any_masks, n);
                let by_all = EventGroup::taken(true, left, all_masks, self.all@.len() as int);
                &&& by_any | by_all | after.bits == raised
                &&& by_any & by_all == 0
                &&& by_any & after.bits == 0
                &&& by_all & after.bits == 0
            }),
    {
        let raised = self.bits | mask;
        let any_masks = EventGroup::masks(k.tasks@, self.any@);
        let all_masks = EventGroup::masks(k.tasks@, self.all@);
        let n = self.any@.len() as int;
        let left = EventGroup::bits_left(false, raised, any_masks, n);
        let by_any = EventGroup::taken(false, raised, any_masks, n);
        let by_all = EventGroup::taken(true, left, all_masks, self.all@.len() as int);
        let rest = after.bits;
        EventGroup::lemma_taken_and_left(false, raised, any_masks, n);
        EventGroup::lemma_taken_and_left(true, left, all_masks, self.all@.len() as int);
        assert(by_any | by_all | rest == raised && by_any & by_all == 0 && by_any & rest == 0)
            by (bit_vector)
            requires
                by_any | left == raised,
                by_any & left == 0,
                by_all | rest == left,
        ;
    }

    /// One event never satisfies two waiters, not even one for any and one for
    /// all of their flags.
    pub proof fn law_lists_share_no_flag(
        self,
        after: EventGroup,
        k: Kernel,
        k_after: Kernel,
        mask: u32,
        i: int,
        j: int,
    )
        requires
            self.wf(k),
            self.set_effect(after, k, k_after, mask),
            0 <= i < self.any@.len(),
            0 <= j < self.all@.len(),
        ensures
            ({
                let raised = self.bits | mask;
                let any_masks = EventGroup::masks(k.tasks@, self.any@);
                let all_masks = EventGroup::masks(k.tasks@, self.all@);
                let left = EventGroup::bits_left(
                    false,
                    raised,
                    any_masks,
                    self.any@.len() as int,
                );
                EventGroup::fires(false, raised, any_masks, i) && EventGroup::fires(
                    true,
                    left,
                    all_masks,
                    j,
                ) ==> EventGroup::matched(false, raised, any_masks, i) & EventGroup::matched(
                    true,
                    left,
                    all_masks,
                    j,
                ) == 0
            }),
    {
        let raised = self.bits | mask;
        let any_masks = EventGroup::masks(k.tasks@, self.any@);
        let all_masks = EventGroup::masks(k.tasks@, self.all@);
        let n = self.any@.len() as int;
        let left = EventGroup::bits_left(false, raised, any_masks, n);
        if EventGroup::fires(false, raised, any_masks, i) && EventGroup::fires(
            true,
            left,
            all_masks,
            j,
        ) {
            self.law_every_flag_is_accounted_for(after, k, k_after, mask);
            let by_any = EventGroup::taken(false, raised, any_masks, n);
            let by_all = EventGroup::taken(true, left, all_masks, self.all@.len() as int);
            EventGroup::lemma_matched_is_taken(false, raised, any_masks, i, n);
            EventGroup::lemma_matched_is_taken(true, left, all_masks, j, self.all@.len() as int);
            let x = EventGroup::matched(false, raised, any_masks, i);
            let y = EventGroup::matched(true, left, all_masks, j);
            assert(x & y == 0) by (bit_vector)
                requires
                    x & by_any == x,
                    y & by_all == y,
                    by_any & by_all == 0,
            ;
        }
    }

    /// Setting flags keeps every list that shares nobody with the waiters.
    pub proof fn law_set_keeps_other_lists(
        self,
        after: EventGroup,
        k: Kernel,
        k_after: Kernel,
        mask: u32,
        other: WaitList,
    )
        requires
            self.wf(k),
            self.set_effect(after, k, k_after, mask),
            k.holds(other),
            other.disjoint(self.any),
            other.disjoint(self.all),
        ensures
            k_after.holds(other),
    {
        assert forall|i: int| 0 <= i < other@.len() implies k_after.tasks@[#[trigger] other@[i] as int]
            == k.tasks@[other@[i] as int] by {
            assert(other@.contains(other@[i]));
            assert(!self.any@.contains(other@[i]));
            assert(!self.all@.contains(other@[i]));
        }
        k_after.lemma_untouched(k, other);
    }

    /// With nobody waiting the flags just accumulate.
    pub proof fn law_flags_accumulate(
        self,
        after: EventGroup,
        k: Kernel,
        k_after: Kernel,
        mask: u32,
    )
        requires
            self.wf(k),
            self.any@.len() == 0,
            self.all@.len() == 0,
            self.set_effect(after, k, k_after, mask),
        ensures
            after.bits == self.bits | mask,
            !self.set_wakes_higher(k, mask),
            k_after.tasks@ == k.tasks@,
    {
    }
}

impl EventGroup {
    /// The tasks that wait for all, or for any, of their flags.
    pub open spec fn waiters(self, all: bool) -> Seq<usize> {
        if all {
            self.all@
        } else {
            self.any@
        }
    }

    /// The flags that a task asked for when it blocked.
    pub open spec fn asked(k: Kernel, t: usize) -> u32 {
        k.tasks@[t as int].wait_ptr as u32
    }

    /// The flags that a woken task has been given: all it asked for, or those that
    /// it finds in its word.
    pub open spec fn got(all: bool, k: Kernel, k_after: Kernel, t: usize) -> u32 {
        if all {
            EventGroup::asked(k, t)
        } else {
            k_after.tasks@[t as int].wait_ptr as u32
        }
    }

    /// What becomes of the `i`-th waiter of a list, in terms of the sweep.
    proof fn lemma_waiter(
        self,
        after: EventGroup,
        k: Kernel,
        k_after: Kernel,
        mask: u32,
        all: bool,
        i: int,
    )
        requires
            self.wf(k),
            self.set_effect(after, k, k_after, mask),
            0 <= i < self.waiters(all).len(),
        ensures
            ({
                let t = self.waiters(all)[i];
                let raised = self.bits | mask;
                let any_masks = EventGroup::masks(k.tasks@, self.any@);
                let left = EventGroup::bits_left(false, raised, any_masks, self.any@.len() as int);
                let bits = if all {
                    left
                } else {
                    raised
                };
                let masks = EventGroup::masks(k.tasks@, self.waiters(all));
                let fires = EventGroup::fires(all, bits, masks, i);
                &&& masks[i] == EventGroup::asked(k, t)
                &&& k.tasks@[t as int].state is Blocked
                &&& fires == (k_after.tasks@[t as int].state is Ready)
                &&& fires ==> EventGroup::got(all, k, k_after, t) == EventGroup::matched(
                    all,
                    bits,
                    masks,
                    i,
                )
                &&& fires ==> k_after.tasks@[t as int] == (Tcb {
                    state: TaskState::Ready { slice_remaining: k.tasks@[t as int].time_slice },
                    wait_next: None,
                    wait_ptr: k_after.tasks@[t as int].wait_ptr,
                    ..k.tasks@[t as int]
                })
                &&& !fires ==> k_after.tasks@[t as int] == (Tcb {
                    wait_next: k_after.tasks@[t as int].wait_next,
                    ..k.tasks@[t as int]
                })
                &&& EventGroup::within(left, raised)
                &&& EventGroup::within(after.bits, left)
            }),
    {
        let t = self.waiters(all)[i];
        let raised = self.bits | mask;
        let any_masks = EventGroup::masks(k.tasks@, self.any@);
        let all_masks = EventGroup::masks(k.tasks@, self.all@);
        let n = self.any@.len() as int;
        let left = EventGroup::bits_left(false, raised, any_masks, n);
        EventGroup::lemma_bits_shrink(false, raised, any_masks, 0, n);
        EventGroup::lemma_bits_shrink(true, left, all_masks, 0, self.all@.len() as int);
        assert(k.tasks@[t as int].state is Blocked);
        assert(k_after.tasks@[self.waiters(all)[i] as int] == k_after.tasks@[t as int]);
    }

    /// A task that setting flags wakes gets flags that it asked for and that were
    /// raised: at least one of them, or all of them. They are gone afterwards. It is
    /// ready with a full time slice, and nothing else about it changes; nor does
    /// anything about a task that goes on waiting.
    pub proof fn law_woken_tasks_get_raised_flags(
        self,
        after: EventGroup,
        k: Kernel,
        k_after: Kernel,
        mask: u32,
        all: bool,
        i: int,
    )
        requires
            self.wf(k),
            self.set_effect(after, k, k_after, mask),
            0 <= i < self.waiters(all).len(),
        ensures
            ({
                let t = self.waiters(all)[i];
                let woken = k_after.tasks@[t as int];
                let got = EventGroup::got(all, k, k_after, t);
                &&& woken.state is Ready || woken.state is Blocked
                &&& woken.state is Ready ==> {
                    &&& got & EventGroup::asked(k, t) == got
                    &&& got & (self.bits | mask) == got
                    &&& got & after.bits == 0
                    &&& !all ==> got != 0
                    &&& all ==> got == EventGroup::asked(k, t)
                    &&& woken == (Tcb {
                        state: TaskState::Ready { slice_remaining: k.tasks@[t as int].time_slice },
                        wait_next: None,
                        wait_ptr: woken.wait_ptr,
                        ..k.tasks@[t as int]
                    })
                }
                &&& woken.state is Blocked ==> woken == (Tcb {
                    wait_next: woken.wait_next,
                    ..k.tasks@[t as int]
                })
            }),
    {
        self.lemma_waiter(after, k, k_after, mask, all, i);
        let raised = self.bits | mask;
        let any_masks = EventGroup::masks(k.tasks@, self.any@);
        let left = EventGroup::bits_left(false, raised, any_masks, self.any@.len() as int);
        let bits = if all {
            left
        } else {
            raised
        };
        let ids = self.waiters(all);
        let masks = EventGroup::masks(k.tasks@, ids);
        let n = ids.len() as int;
        let last = EventGroup::bits_left(all, bits, masks, n);
        if EventGroup::fires(all, bits, masks, i) {
            EventGroup::law_fired_waiters_get_what_they_asked_for(all, bits, masks, i);
            EventGroup::law_flags_are_consumed_once(all, bits, masks, i, n);
            EventGroup::lemma_bits_shrink(all, bits, masks, 0, i);
            let b = EventGroup::bits_left(all, bits, masks, i);
            let m = masks[i];
            let rest = after.bits;
            assert((b & m) & m == b & m && (b & m) & raised == b & m) by (bit_vector)
                requires
                    b & bits == b,
                    bits & raised == bits || bits == raised,
            ;
            assert((b & m) & rest == 0) by (bit_vector)
                requires
                    (b & m) & last == 0,
                    rest & last == rest || rest == last,
            ;
        }
    }

    /// One event never satisfies two waiters, whichever lists they are on.
    pub proof fn law_woken_tasks_share_no_flag(
        self,
        after: EventGroup,
        k: Kernel,
        k_after: Kernel,
        mask: u32,
        x_all: bool,
        i: int,
        y_all: bool,
        j: int,
    )
        requires
            self.wf(k),
            self.set_effect(after, k, k_after, mask),
            0 <= i < self.waiters(x_all).len(),
            0 <= j < self.waiters(y_all).len(),
            self.waiters(x_all)[i] != self.waiters(y_all)[j],
            k_after.tasks@[self.waiters(x_all)[i] as int].state is Ready,
            k_after.tasks@[self.waiters(y_all)[j] as int].state is Ready,
        ensures
            EventGroup::got(x_all, k, k_after, self.waiters(x_all)[i]) & EventGroup::got(
                y_all,
                k,
                k_after,
                self.waiters(y_all)[j],
            ) == 0,
    {
        self.lemma_waiter(after, k, k_after, mask, x_all, i);
        self.lemma_waiter(after, k, k_after, mask, y_all, j);
        let raised = self.bits | mask;
        let any_masks = EventGroup::masks(k.tasks@, self.any@);
        let left = EventGroup::bits_left(false, raised, any_masks, self.any@.len() as int);
        let x = EventGroup::got(x_all, k, k_after, self.waiters(x_all)[i]);
        let y = EventGroup::got(y_all, k, k_after, self.waiters(y_all)[j]);
        assert(x & y == y & x) by (bit_vector);
        if x_all == y_all {
            let bits = if x_all {
                left
            } else {
                raised
            };
            let masks = EventGroup::masks(k.tasks@, self.waiters(x_all));
            if i < j {
                EventGroup::law_flags_are_consumed_once(x_all, bits, masks, i, j);
            } else {
                EventGroup::law_flags_are_consumed_once(x_all, bits, masks, j, i);
            }
        } else if x_all {
            self.law_lists_share_no_flag(after, k, k_after, mask, j, i);
        } else {
            self.law_lists_share_no_flag(after, k, k_after, mask, i, j);
        }
    }

    /// Once flags have been set, nobody is left waiting whose condition is met by
    /// the flags that are left.
    pub proof fn law_nobody_waits_in_vain(self, k: Kernel, i: int)
        requires
            self.wf(k),
        ensures
            0 <= i < self.any@.len() ==> self.bits & EventGroup::asked(k, self.any@[i]) == 0,
            0 <= i < self.all@.len() ==> self.bits & EventGroup::asked(k, self.all@[i])
                != EventGroup::asked(k, self.all@[i]),
    {
        if 0 <= i < self.any@.len() {
            assert(!EventGroup::hit(false, self.bits, k.tasks@[self.any@[i] as int].wait_ptr as u32));
        }
        if 0 <= i < self.all@.len() {
            assert(!EventGroup::hit(true, self.bits, k.tasks@[self.all@[i] as int].wait_ptr as u32));
        }
    }

    /// Exactly those who were not woken go on waiting.
    pub proof fn law_the_others_go_on_waiting(
        self,
        after: EventGroup,
        k: Kernel,
        k_after: Kernel,
        mask: u32,
        all: bool,
        i: int,
    )
        requires
            self.wf(k),
            self.set_effect(after, k, k_after, mask),
            0 <= i < self.waiters(all).len(),
        ensures
            after.waiters(all).contains(self.waiters(all)[i]) <==> k_after.tasks@[self.waiters(
                all,
            )[i] as int].state is Blocked,
    {
        self.lemma_waiter(after, k, k_after, mask, all, i);
        let raised = self.bits | mask;
        let any_masks = EventGroup::masks(k.tasks@, self.any@);
        let left = EventGroup::bits_left(false, raised, any_masks, self.any@.len() as int);
        let bits = if all {
            left
        } else {
            raised
        };
        let ids = self.waiters(all);
        EventGroup::lemma_kept(
            all,
            bits,
            EventGroup::masks(k.tasks@, ids),
            ids,
            ids.len() as int,
        );
        assert(ids.contains(ids[i]));
    }

    /// Setting flags calls for a switch exactly when it makes a blocked task ready
    /// that has a higher priority than the current one, whichever list it was on.
    pub proof fn law_set_requests_a_switch_when_due(
        self,
        after: EventGroup,
        k: Kernel,
        k_after: Kernel,
        mask: u32,
    )
        requires
            self.wf(k),
            self.set_effect(after, k, k_after, mask),
        ensures
            self.set_wakes_higher(k, mask) == exists|t: int|
                0 <= t < k.tasks@.len() && (#[trigger] k.tasks@[t]).state is Blocked
                    && k_after.tasks@[t].state is Ready && k_after.tasks@[t].priority
                    < k_after.tasks@[k.current->0 as int].priority,
    {
        let raised = self.bits | mask;
        let any_masks = EventGroup::masks(k.tasks@, self.any@);
        let left = EventGroup::bits_left(false, raised, any_masks, self.any@.len() as int);
        let c = k.current->0 as int;
        assert forall|all: bool, i: int|
            0 <= i < self.waiters(all).len() implies k_after.tasks@[#[trigger] self.waiters(
            all,
        )[i] as int].priority == k.tasks@[self.waiters(all)[i] as int].priority && (
        k_after.tasks@[self.waiters(all)[i] as int].state is Ready) == EventGroup::fires(
            all,
            if all {
                left
            } else {
                raised
            },
            EventGroup::masks(k.tasks@, self.waiters(all)),
            i,
        ) && k.tasks@[self.waiters(all)[i] as int].state is Blocked by {
            self.lemma_waiter(after, k, k_after, mask, all, i);
        }
        if self.any@.len() > 0 || self.all@.len() > 0 {
            assert(k_after.tasks@[c].priority == k.tasks@[c].priority) by {
                if self.any@.contains(c as usize) {
                    let i = choose|i: int| 0 <= i < self.any@.len() && self.any@[i] == c as usize;
                    assert(self.waiters(false)[i] == c as usize);
                } else if self.all@.contains(c as usize) {
                    let i = choose|i: int| 0 <= i < self.all@.len() && self.all@[i] == c as usize;
                    assert(self.waiters(true)[i] == c as usize);
                }
            }
        }
        if EventGroup::wakes_higher(false, raised, k, self.any@) {
            let j = choose|j: int|
                0 <= j < self.any@.len() && EventGroup::fires(false, raised, any_masks, j)
                    && k.outranks_current(#[trigger] self.any@[j]);
            let t = self.waiters(false)[j] as int;
            assert(k.tasks@[t].state is Blocked);
        }
        let all_masks = EventGroup::masks(k.tasks@, self.all@);
        if EventGroup::wakes_higher(true, left, k, self.all@) {
            let j = choose|j: int|
                0 <= j < self.all@.len() && EventGroup::fires(true, left, all_masks, j)
                    && k.outranks_current(#[trigger] self.all@[j]);
            let t = self.waiters(true)[j] as int;
            assert(k.tasks@[t].state is Blocked);
        }
        assert forall|t: int|
            0 <= t < k.tasks@.len() && (#[trigger] k.tasks@[t]).state is Blocked
                && k_after.tasks@[t].state is Ready && k_after.tasks@[t].priority
                < k_after.tasks@[c].priority implies self.set_wakes_higher(k, mask) by {
            if self.any@.contains(t as usize) {
                let i = choose|i: int| 0 <= i < self.any@.len() && self.any@[i] == t as usize;
                assert(self.waiters(false)[i] == t as usize);
                assert(k.outranks_current(self.any@[i]));
            } else if self.all@.contains(t as usize) {
                let i = choose|i: int| 0 <= i < self.all@.len() && self.all@[i] == t as usize;
                assert(self.waiters(true)[i] == t as usize);
                assert(k.outranks_current(self.all@[i]));
            }
        }
    }

    /// What is left once everyone on the list has been looked at holds no flag that
    /// a waiter for any of its flags asked for.
    proof fn lemma_any_asked_for_is_gone(bits: u32, masks: Seq<u32>, i: int, n: int)
        requires
            0 <= i < n <= masks.len(),
        ensures
            EventGroup::bits_left(false, bits, masks, n) & masks[i] == 0,
    {
        EventGroup::lemma_bits_shrink(false, bits, masks, i + 1, n);
        let b = EventGroup::bits_left(false, bits, masks, i);
        let b1 = EventGroup::bits_left(false, bits, masks, i + 1);
        let bn = EventGroup::bits_left(false, bits, masks, n);
        let m = masks[i];
        assert(bn & m == 0) by (bit_vector)
            requires
                bn & b1 == bn,
                b1 == b & !(b & m) || b1 == b && b & m == 0,
        ;
    }

    /// Those who wait for any flag come first: a task that is woken with all of its
    /// flags has asked for none that a waiter for any flag asks for.
    pub proof fn law_waiters_for_any_come_first(
        self,
        after: EventGroup,
        k: Kernel,
        k_after: Kernel,
        mask: u32,
        i: int,
        j: int,
    )
        requires
            self.wf(k),
            self.set_effect(after, k, k_after, mask),
            0 <= i < self.any@.len(),
            0 <= j < self.all@.len(),
            k_after.tasks@[self.all@[j] as int].state is Ready,
        ensures
            EventGroup::asked(k, self.any@[i]) & EventGroup::asked(k, self.all@[j]) == 0,
    {
        self.lemma_waiter(after, k, k_after, mask, true, j);
        self.lemma_waiter(after, k, k_after, mask, false, i);
        let raised = self.bits | mask;
        let any_masks = EventGroup::masks(k.tasks@, self.any@);
        let all_masks = EventGroup::masks(k.tasks@, self.all@);
        let n = self.any@.len() as int;
        let left = EventGroup::bits_left(false, raised, any_masks, n);
        EventGroup::lemma_any_asked_for_is_gone(raised, any_masks, i, n);
        EventGroup::lemma_bits_shrink(true, left, all_masks, 0, j);
        let b = EventGroup::bits_left(true, left, all_masks, j);
        let x = any_masks[i];
        let y = all_masks[j];
        assert(x & y == 0) by (bit_vector)
            requires
                left & x == 0,
                b & left == b,
                b & y == y,
        ;
    }

    /// The foremost of those who wait for any flag, which is the latest to have
    /// joined them, gets every raised flag that it asks for, and is woken exactly
    /// when there is one.
    pub proof fn law_the_foremost_is_served_first(
        self,
        after: EventGroup,
        k: Kernel,
        k_after: Kernel,
        mask: u32,
    )
        requires
            self.wf(k),
            self.set_effect(after, k, k_after, mask),
            self.any@.len() > 0,
        ensures
            ({
                let t = self.any@[0];
                let due = (self.bits | mask) & EventGroup::asked(k, t);
                &&& k_after.tasks@[t as int].state is Ready <==> due != 0
                &&& due != 0 ==> k_after.tasks@[t as int].wait_ptr as u32 == due
            }),
    {
        self.lemma_waiter(after, k, k_after, mask, false, 0);
    }

    /// All flags that the first `i` of the tasks `ids` ask for.
    pub open spec fn asked_in_front(k: Kernel, ids: Seq<usize>, i: int) -> u32
        decreases i,
    {
        if i <= 0 {
            0
        } else {
            EventGroup::asked_in_front(k, ids, i - 1) | EventGroup::asked(k, ids[i - 1])
        }
    }

    /// What is left for the `i`-th waiter for any flag is what none in front asks for.
    proof fn lemma_left_for_any(bits: u32, k: Kernel, ids: Seq<usize>, i: int)
        requires
            0 <= i <= ids.len(),
        ensures
            EventGroup::bits_left(false, bits, EventGroup::masks(k.tasks@, ids), i) == bits
                & !EventGroup::asked_in_front(k, ids, i),
        decreases i,
    {
        if i == 0 {
            assert(bits & !0u32 == bits) by (bit_vector);
        } else {
            EventGroup::lemma_left_for_any(bits, k, ids, i - 1);
            let u = EventGroup::asked_in_front(k, ids, i - 1);
            let m = EventGroup::asked(k, ids[i - 1]);
            let b = bits & !u;
            assert(b & !(b & m) == bits & !(u | m) && (b & m == 0 ==> b == bits & !(u | m)))
                by (bit_vector)
                requires
                    b == bits & !u,
            ;
        }
    }

    /// Those who wait for any flag are served front first: each is woken exactly when
    /// a flag is raised that it asks for and nobody in front of it does, and gets all
    /// such flags.
    pub proof fn law_waiters_for_any_are_served_front_first(
        self,
        after: EventGroup,
        k: Kernel,
        k_after: Kernel,
        mask: u32,
        i: int,
    )
        requires
            self.wf(k),
            self.set_effect(after, k, k_after, mask),
            0 <= i < self.any@.len(),
        ensures
            ({
                let t = self.any@[i];
                let due = (self.bits | mask) & !EventGroup::asked_in_front(k, self.any@, i)
                    & EventGroup::asked(k, t);
                &&& k_after.tasks@[t as int].state is Ready <==> due != 0
                &&& due != 0 ==> k_after.tasks@[t as int].wait_ptr as u32 == due
            }),
    {
        self.lemma_waiter(after, k, k_after, mask, false, i);
        EventGroup::lemma_left_for_any(self.bits | mask, k, self.any@, i);
    }

    /// Tasks that wait for no flag of the group are left alone when flags are set, and
    /// so are the current task and the time.
    pub proof fn law_set_touches_waiters_only(
        self,
        after: EventGroup,
        k: Kernel,
        k_after: Kernel,
        mask: u32,
        t: usize,
    )
        requires
            self.wf(k),
            self.set_effect(after, k, k_after, mask),
            t < k.tasks@.len(),
            !self.any@.contains(t),
            !self.all@.contains(t),
        ensures
            k_after.tasks@[t as int] == k.tasks@[t as int],
            k_after.current == k.current,
            k_after.tick == k.tick,
            k_after.all_tasks == k.all_tasks,
            after.name == self.name,
    {
    }

    /// A waiter for all of its flags is woken exactly when they are all raised, unless
    /// a waiter for any flag asks for one of them, or a task in front of it has been
    /// woken with one of them.
    pub proof fn law_unrivalled_waiters_for_all_are_served(
        self,
        after: EventGroup,
        k: Kernel,
        k_after: Kernel,
        mask: u32,
        j: int,
    )
        requires
            self.wf(k),
            self.set_effect(after, k, k_after, mask),
            0 <= j < self.all@.len(),
            forall|i: int|
                0 <= i < self.any@.len() ==> EventGroup::asked(k, #[trigger] self.any@[i])
                    & EventGroup::asked(k, self.all@[j]) == 0,
            forall|i: int|
                0 <= i < j && k_after.tasks@[#[trigger] self.all@[i] as int].state is Ready
                    ==> EventGroup::asked(k, self.all@[i]) & EventGroup::asked(k, self.all@[j])
                    == 0,
        ensures
            k_after.tasks@[self.all@[j] as int].state is Ready <==> (self.bits | mask)
                & EventGroup::asked(k, self.all@[j]) == EventGroup::asked(k, self.all@[j]),
    {
        self.lemma_waiter(after, k, k_after, mask, true, j);
        let raised = self.bits | mask;
        let any_masks = EventGroup::masks(k.tasks@, self.any@);
        let all_masks = EventGroup::masks(k.tasks@, self.all@);
        let n = self.any@.len() as int;
        let left = EventGroup::bits_left(false, raised, any_masks, n);
        let m = EventGroup::asked(k, self.all@[j]);
        assert forall|i: int| 0 <= i < n implies #[trigger] any_masks[i] & m == 0 by {
            assert(EventGroup::asked(k, self.any@[i]) & m == 0);
        }
        assert forall|i: int|
            0 <= i < j && EventGroup::fires(true, left, all_masks, i) implies #[trigger] all_masks[i]
            & m == 0 by {
            self.lemma_waiter(after, k, k_after, mask, true, i);
            assert(k_after.tasks@[self.all@[i] as int].state is Ready);
        }
        EventGroup::lemma_untouched_flags(false, raised, any_masks, m, n);
        EventGroup::lemma_untouched_flags(true, left, all_masks, m, j);
    }

    /// Flags that none of those among the first `n` waiters asks for that fire stay as
    /// they are.
    proof fn lemma_untouched_flags(all: bool, bits: u32, masks: Seq<u32>, m: u32, n: int)
        requires
            0 <= n <= masks.len(),
            forall|i: int|
                0 <= i < n && EventGroup::fires(all, bits, masks, i) ==> #[trigger] masks[i] & m
                    == 0,
        ensures
            EventGroup::bits_left(all, bits, masks, n) & m == bits & m,
        decreases n,
    {
        if n > 0 {
            EventGroup::lemma_untouched_flags(all, bits, masks, m, n - 1);
            let b = EventGroup::bits_left(all, bits, masks, n - 1);
            let x = masks[n - 1];
            if EventGroup::fires(all, bits, masks, n - 1) {
                assert((b & !(b & x)) & m == b & m) by (bit_vector)
                    requires
                        x & m == 0,
                ;
            }
        }
    }

    /// Flags that nobody asks for are kept for later.
    pub proof fn law_unwanted_flags_are_kept(
        self,
        after: EventGroup,
        k: Kernel,
        k_after: Kernel,
        mask: u32,
        flags: u32,
    )
        requires
            self.wf(k),
            self.set_effect(after, k, k_after, mask),
            forall|i: int|
                0 <= i < self.any@.len() ==> EventGroup::asked(k, #[trigger] self.any@[i]) & flags
                    == 0,
            forall|i: int|
                0 <= i < self.all@.len() ==> EventGroup::asked(k, #[trigger] self.all@[i]) & flags
                    == 0,
        ensures
            after.bits & flags == (self.bits | mask) & flags,
    {
        let raised = self.bits | mask;
        let any_masks = EventGroup::masks(k.tasks@, self.any@);
        let all_masks = EventGroup::masks(k.tasks@, self.all@);
        let n = self.any@.len() as int;
        let left = EventGroup::bits_left(false, raised, any_masks, n);
        assert forall|i: int| 0 <= i < n implies #[trigger] any_masks[i] & flags == 0 by {
            assert(EventGroup::asked(k, self.any@[i]) & flags == 0);
        }
        assert forall|i: int| 0 <= i < self.all@.len() implies #[trigger] all_masks[i] & flags
            == 0 by {
            assert(EventGroup::asked(k, self.all@[i]) & flags == 0);
        }
        EventGroup::lemma_untouched_flags(false, raised, any_masks, flags, n);
        EventGroup::lemma_untouched_flags(true, left, all_masks, flags, self.all@.len() as int);
    }

    /// A waiter that fires took part in every flag that is gone.
    proof fn lemma_gone_flags_were_taken(
        all: bool,
        bits: u32,
        masks: Seq<u32>,
        flag: u32,
        n: int,
    ) -> (i: int)
        requires
            0 <= n <= masks.len(),
            bits & flag != 0,
            EventGroup::bits_left(all, bits, masks, n) & flag == 0,
        ensures
            0 <= i < n,
            EventGroup::fires(all, bits, masks, i),
            EventGroup::matched(all, bits, masks, i) & flag != 0,
        decreases n,
    {
        if n > 0 && EventGroup::bits_left(all, bits, masks, n - 1) & flag == 0 {
            EventGroup::lemma_gone_flags_were_taken(all, bits, masks, flag, n - 1)
        } else {
            let b = EventGroup::bits_left(all, bits, masks, n - 1);
            let m = masks[n - 1];
            assert((b & m) & flag != 0) by (bit_vector)
                requires
                    b & flag != 0,
                    (b & !(b & m)) & flag == 0,
            ;
            n - 1
        }
    }

    /// No flag is lost: one that was raised and is not left has been given to a task
    /// that was woken for it.
    pub proof fn law_no_flag_is_lost(
        self,
        after: EventGroup,
        k: Kernel,
        k_after: Kernel,
        mask: u32,
        flag: u32,
    )
        requires
            self.wf(k),
            self.set_effect(after, k, k_after, mask),
            (self.bits | mask) & flag != 0,
            after.bits & flag == 0,
        ensures
            exists|all: bool, i: int|
                0 <= i < self.waiters(all).len() && k_after.tasks@[#[trigger] self.waiters(
                    all,
                )[i] as int].state is Ready && EventGroup::got(
                    all,
                    k,
                    k_after,
                    self.waiters(all)[i],
                ) & flag != 0,
    {
        let raised = self.bits | mask;
        let any_masks = EventGroup::masks(k.tasks@, self.any@);
        let all_masks = EventGroup::masks(k.tasks@, self.all@);
        let n = self.any@.len() as int;
        let left = EventGroup::bits_left(false, raised, any_masks, n);
        if left & flag == 0 {
            let i = EventGroup::lemma_gone_flags_were_taken(false, raised, any_masks, flag, n);
            self.lemma_waiter(after, k, k_after, mask, false, i);
            assert(k_after.tasks@[self.waiters(false)[i] as int].state is Ready);
        } else {
            let i = EventGroup::lemma_gone_flags_were_taken(
                true,
                left,
                all_masks,
                flag,
                self.all@.len() as int,
            );
            self.lemma_waiter(after, k, k_after, mask, true, i);
            assert(k_after.tasks@[self.waiters(true)[i] as int].state is Ready);
        }
    }

    /// A wait for any flag and a later set: a task that has blocked for `mask` is
    /// woken by the next set that raises one of its flags, and finds just the raised
    /// ones of them; a set that raises none of them leaves it blocked.
    pub proof fn law_set_wakes_who_waits_for_any(
        self,
        mid: EventGroup,
        k: Kernel,
        k_mid: Kernel,
        mask: u32,
        r: Option<u32>,
        after: EventGroup,
        k_set: Kernel,
        k_after: Kernel,
        flags: u32,
    )
        requires
            k.running(),
            self.waited_any(mid, k, k_mid, mask, r),
            r is None,
            mid.wf(k_set),
            k_set.tasks@[k.current->0 as int].wait_ptr == k_mid.tasks@[k.current->0 as int].wait_ptr,
            mid.set_effect(after, k_set, k_after, flags),
        ensures
            k_mid.tasks@[k.current->0 as int].state is Blocked,
            k_after.tasks@[k.current->0 as int].state is Ready <==> flags & mask != 0,
            flags & mask != 0 ==> k_after.tasks@[k.current->0 as int].wait_ptr as u32 == flags
                & mask,
    {
        let c = k.current->0;
        assert(mid.any@[0] == c);
        mid.law_the_foremost_is_served_first(after, k_set, k_after, flags);
        let b = self.bits;
        assert((b | flags) & mask == flags & mask) by (bit_vector)
            requires
                b & mask == 0,
        ;
    }

    /// A wait for all flags and a later set: a task that has blocked for `mask` and
    /// that no waiter for any flag rivals is woken by the first set after which all
    /// of them are raised.
    pub proof fn law_set_wakes_who_waits_for_all(
        self,
        mid: EventGroup,
        k: Kernel,
        k_mid: Kernel,
        mask: u32,
        r: bool,
        after: EventGroup,
        k_set: Kernel,
        k_after: Kernel,
        flags: u32,
    )
        requires
            k.running(),
            self.waited_all(mid, k, k_mid, mask, r),
            !r,
            mid.wf(k_set),
            mid.any@.len() == 0,
            k_set.tasks@[k.current->0 as int].wait_ptr == k_mid.tasks@[k.current->0 as int].wait_ptr,
            mid.set_effect(after, k_set, k_after, flags),
        ensures
            k_mid.tasks@[k.current->0 as int].state is Blocked,
            k_after.tasks@[k.current->0 as int].state is Ready <==> (self.bits | flags) & mask
                == mask,
    {
        assert(mid.all@[0] == k.current->0);
        mid.law_unrivalled_waiters_for_all_are_served(after, k_set, k_after, flags, 0);
    }

    /// Flags that are set are there for whoever asks later: a wait that comes after
    /// a set finds what was raised and is left, takes it and does not block.
    pub proof fn law_flags_wait_for_tasks(
        self,
        after: EventGroup,
        k: Kernel,
        k_after: Kernel,
        mask: u32,
        r: Option<u32>,
    )
        requires
            k.running(),
            self.waited_any(after, k, k_after, mask, r),
            self.bits & mask != 0,
        ensures
            r == Some(self.bits & mask),
            after.bits & mask == 0,
            after.bits | (self.bits & mask) == self.bits,
            forall|t: int|
                0 <= t < k.tasks@.len() ==> (#[trigger] k_after.tasks@[t]).state
                    == k.tasks@[t].state,
    {
        let b = self.bits;
        assert((b & !(b & mask)) & mask == 0 && (b & !(b & mask)) | (b & mask) == b)
            by (bit_vector);
    }

    /// A wait for all flags takes them when they are all there, and takes none of
    /// them otherwise.
    pub proof fn law_wait_for_all_takes_all_or_nothing(
        self,
        after: EventGroup,
        k: Kernel,
        k_after: Kernel,
        mask: u32,
        r: bool,
    )
        requires
            k.running(),
            self.waited_all(after, k, k_after, mask, r),
        ensures
            r <==> self.bits & mask == mask,
            r ==> after.bits & mask == 0 && after.bits | mask == self.bits && k_after == k,
            !r ==> after.bits == self.bits && k_after.tasks@[k.current->0 as int].state is Blocked
                && k_after.pendsv,
    {
        let b = self.bits;
        if r {
            assert((b & !mask) & mask == 0 && (b & !mask) | mask == b) by (bit_vector)
                requires
                    b & mask == mask,
            ;
        }
    }

    /// Clearing takes away the flags of `mask` and no others.
    pub proof fn law_clear_takes_away_the_mask(self, after: EventGroup, mask: u32, flags: u32)
        requires
            self.cleared(after, mask),
        ensures
            after.bits & mask == 0,
            flags & mask == 0 ==> after.bits & flags == self.bits & flags,
            after.any == self.any,
            after.all == self.all,
    {
        let b = self.bits;
        assert((b & !mask) & mask == 0) by (bit_vector);
        if flags & mask == 0 {
            assert((b & !mask) & flags == b & flags) by (bit_vector)
                requires
                    flags & mask == 0,
            ;
        }
    }
}

impl Default for EventGroup {
    fn default() -> (r: EventGroup)
        ensures
            r.bits == 0,
            r.any@.len() == 0,
            r.all@.len() == 0,
            r.name is None,
            forall|k: Kernel| k.wf() ==> #[trigger] r.wf(k),
    {
        EventGroup::new()
    }
}

} // verus!
