use crate::arch::ArchContext;
use crate::kernel::tcb::TaskState;
use crate::kernel::wait_list::WaitList;
use crate::kernel::Kernel;
use vstd::prelude::*;

verus! {

/// The four lowest words of a task's stack.
pub type StackBottom = [u32; 4];

/// One less than the clock cycles of a millisecond: the counter takes one cycle to
/// start over.
pub open spec fn reload_value(cpu_freq_hz: u32) -> int {
    cpu_freq_hz / 1000 - 1
}

/// A tick takes a millisecond, to the whole clock cycle below.
pub proof fn law_a_tick_takes_a_millisecond(cpu_freq_hz: u32)
    requires
        cpu_freq_hz >= 1000,
    ensures
        0 <= reload_value(cpu_freq_hz) <= u32::MAX,
        (reload_value(cpu_freq_hz) + 1) * 1000 <= cpu_freq_hz,
        cpu_freq_hz < (reload_value(cpu_freq_hz) + 2) * 1000,
{
}

/// Counter reload value for a tick of one millisecond at `cpu_freq_hz`.
pub fn systick_reload(cpu_freq_hz: u32) -> (r: u32)
    requires
        cpu_freq_hz >= 1000,
    ensures
        r == reload_value(cpu_freq_hz),
{
    cpu_freq_hz / 1000 - 1
}

impl Kernel {
    /// The task `i` is alive and has overwritten the canary at the bottom of its
    /// stack.
    pub open spec fn overflowed(self, bottoms: Seq<StackBottom>, i: int) -> bool {
        &&& !(self.tasks@[i].state is Dead)
        &&& !(self.tasks@[i].state is Uninit)
        &&& !crate::arch::intact(bottoms[i]@)
    }

    /// The first task on the list of all tasks whose stack has overflowed.
    ///
    /// `bottoms` holds the lowest words of each task's stack, by task.
    pub fn find_overflow<A: ArchContext>(&self, bottoms: &Vec<StackBottom>) -> (r: Option<usize>)
        requires
            self.wf(),
            bottoms@.len() == self.tasks@.len(),
        ensures
            r is None ==> forall|i: int|
                0 <= i < self.tasks@.len() ==> !#[trigger] self.overflowed(bottoms@, i),
            r is None ==> self.all_canaries_stand(bottoms@),
            r matches Some(t) ==> {
                &&& t < self.tasks@.len()
                &&& self.overflowed(bottoms@, t as int)
                &&& forall|i: int|
                    t < i < self.tasks@.len() ==> !#[trigger] self.overflowed(bottoms@, i)
            },
    {
        let mut t: Option<usize> = self.all_tasks;
        while t.is_some()
            invariant
                self.wf(),
                bottoms@.len() == self.tasks@.len(),
                t matches Some(x) ==> {
                    &&& x < self.tasks@.len()
                    &&& forall|i: int|
                        x < i < self.tasks@.len() ==> !#[trigger] self.overflowed(bottoms@, i)
                },
                t is None ==> forall|i: int|
                    0 <= i < self.tasks@.len() ==> !#[trigger] self.overflowed(bottoms@, i),
            decreases
                    (match t {
                        Some(x) => x + 1,
                        None => 0,
                    }),
        {
            let x: usize = t.unwrap();
            if !matches!(self.tasks[x].state, TaskState::Dead | TaskState::Uninit)
                && !A::canary_check(&bottoms[x]) {
                return Some(x);
            }
            t = self.tasks[x].all_next;
        }
        proof {
            self.law_unreported_canaries_stand(bottoms@);
        }
        None
    }

    /// Every task that is neither dead nor uninitialised, whether it runs, is ready,
    /// sleeps or is blocked, has the canary in all four of its lowest stack words.
    pub open spec fn all_canaries_stand(self, bottoms: Seq<StackBottom>) -> bool {
        forall|i: int, w: int|
            0 <= i < self.tasks@.len() && 0 <= w < 4 && self.tasks@[i].state != TaskState::Dead
                && self.tasks@[i].state != TaskState::Uninit ==> #[trigger] bottoms[i]@[w]
                == 0xDEAD_BEEFu32
    }

    /// Where no overflow is reported, all canaries stand.
    pub proof fn law_unreported_canaries_stand(self, bottoms: Seq<StackBottom>)
        requires
            forall|i: int| 0 <= i < self.tasks@.len() ==> !#[trigger] self.overflowed(bottoms, i),
        ensures
            forall|i: int, w: int|
                0 <= i < self.tasks@.len() && 0 <= w < 4 && self.tasks@[i].state
                    != TaskState::Dead && self.tasks@[i].state != TaskState::Uninit
                    ==> #[trigger] bottoms[i]@[w] == 0xDEAD_BEEFu32,
            self.all_canaries_stand(bottoms),
    {
        assert forall|i: int, w: int|
            0 <= i < self.tasks@.len() && 0 <= w < 4 && self.tasks@[i].state != TaskState::Dead
                && self.tasks@[i].state != TaskState::Uninit implies #[trigger] bottoms[i]@[w]
            == 0xDEAD_BEEFu32 by {
            assert(!self.overflowed(bottoms, i));
        }
    }

    /// A broken canary is never passed over, whatever the task does that has broken
    /// it, and an intact one is never reported.
    pub proof fn law_broken_canaries_are_reported(self, bottoms: Seq<StackBottom>, i: int)
        requires
            0 <= i < self.tasks@.len(),
        ensures
            self.overflowed(bottoms, i) <==> self.tasks@[i].state != TaskState::Dead
                && self.tasks@[i].state != TaskState::Uninit && exists|w: int|
                0 <= w < 4 && #[trigger] bottoms[i]@[w] != 0xDEAD_BEEFu32,
    {
    }

    /// Drive the scheduler from the tick interrupt.
    ///
    /// Requests a context switch when one is due. Returns the first task whose
    /// stack has overflowed, if there is one.
    pub fn systick_handler<A: ArchContext>(&mut self, bottoms: &Vec<StackBottom>) -> (r: Option<
        usize,
    >)
        requires
            old(self).wf(),
            bottoms@.len() == old(self).tasks@.len(),
        ensures
            final(self).wf(),
            final(self).tick == crate::kernel::scheduler::next_tick(old(self).tick),
            final(self).current == old(self).current,
            final(self).all_tasks == old(self).all_tasks,
            final(self).tasks@ == old(self).ticked(),
            final(self).pendsv == (old(self).pendsv || old(self).switch_due()),
            forall|l: WaitList| old(self).holds(l) ==> #[trigger] final(self).holds(l),
            r is None ==> forall|i: int|
                0 <= i < final(self).tasks@.len() ==> !#[trigger] final(self).overflowed(
                    bottoms@,
                    i,
                ),
            r is None ==> final(self).all_canaries_stand(bottoms@),
            r matches Some(t) ==> {
                &&& t < final(self).tasks@.len()
                &&& final(self).overflowed(bottoms@, t as int)
                &&& forall|i: int|
                    t < i < final(self).tasks@.len() ==> !#[trigger] final(self).overflowed(
                        bottoms@,
                        i,
                    )
            },
    {
        if self.tick() {
            self.trigger_pendsv();
        }
        self.find_overflow::<A>(bottoms)
    }
}

} // verus!
