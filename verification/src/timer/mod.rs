use crate::kernel::wait_list::WaitList;
use crate::kernel::Kernel;
use crate::task::sleep_until;
use core::ops::{Add, AddAssign, Sub};
use vstd::prelude::*;
use vstd::std_specs::ops::{AddSpecImpl, SubSpecImpl};

verus! {

/// Number of ticks per second: one tick is one millisecond.
pub const TICKS_PER_SEC: u64 = 1000;

/// A span of time measured in ticks.
#[derive(Copy, Clone, PartialEq, Eq, PartialOrd, Ord, Debug, Structural)]
pub struct Duration(pub u64);

impl Duration {
    /// Zero duration.
    pub fn zero() -> (r: Duration)
        ensures
            r.0 == 0,
    {
        Duration(0)
    }

    /// Construct from a raw tick count.
    pub fn from_ticks(ticks: u64) -> (r: Duration)
        ensures
            r.0 == ticks,
    {
        Duration(ticks)
    }

    /// Construct from milliseconds, rounded down to the nearest tick.
    pub fn from_millis(ms: u64) -> (r: Duration)
        requires
            ms * TICKS_PER_SEC <= u64::MAX,
        ensures
            r.0 == ms * TICKS_PER_SEC / 1000,
    {
        Duration(ms * TICKS_PER_SEC / 1000)
    }

    /// Construct from whole seconds.
    pub fn from_secs(secs: u64) -> (r: Duration)
        requires
            secs * TICKS_PER_SEC <= u64::MAX,
        ensures
            r.0 == secs * TICKS_PER_SEC,
    {
        Duration(secs * TICKS_PER_SEC)
    }

    /// Return the raw tick count.
    pub fn as_ticks(self) -> (r: u64)
        ensures
            r == self.0,
    {
        self.0
    }

    /// Return the duration in whole milliseconds, rounded down.
    pub fn as_millis(self) -> (r: u64)
        requires
            self.0 * 1000 <= u64::MAX,
        ensures
            r == self.0 * 1000 / TICKS_PER_SEC as int,
    {
        self.0 * 1000 / TICKS_PER_SEC
    }

    /// Return the duration in whole seconds, rounded down.
    pub fn as_secs(self) -> (r: u64)
        ensures
            r == self.0 / TICKS_PER_SEC,
    {
        self.0 / TICKS_PER_SEC
    }
}

impl Add for Duration {
    type Output = Duration;

    fn add(self, rhs: Duration) -> (r: Duration) {
        Duration(self.0 + rhs.0)
    }
}

impl AddSpecImpl for Duration {
    open spec fn obeys_add_spec() -> bool {
        true
    }

    open spec fn add_req(self, rhs: Duration) -> bool {
        self.0 + rhs.0 <= u64::MAX
    }

    open spec fn add_spec(self, rhs: Duration) -> Duration {
        Duration((self.0 + rhs.0) as u64)
    }
}

impl Sub for Duration {
    type Output = Duration;

    /// The difference of two durations, zero where it would be negative.
    fn sub(self, rhs: Duration) -> (r: Duration) {
        Duration(self.0.saturating_sub(rhs.0))
    }
}

impl SubSpecImpl for Duration {
    open spec fn obeys_sub_spec() -> bool {
        true
    }

    open spec fn sub_req(self, rhs: Duration) -> bool {
        true
    }

    open spec fn sub_spec(self, rhs: Duration) -> Duration {
        Duration(
            if self.0 < rhs.0 {
                0
            } else {
                (self.0 - rhs.0) as u64
            },
        )
    }
}

impl AddAssign for Duration {
    fn add_assign(&mut self, rhs: Duration)
        requires
            old(self).0 + rhs.0 <= u64::MAX,
        ensures
            final(self).0 == old(self).0 + rhs.0,
    {
        self.0 = self.0 + rhs.0;
    }
}

/// A point in time, as a tick count since boot.
#[derive(Copy, Clone, PartialEq, Eq, PartialOrd, Ord, Debug, Structural)]
pub struct Instant(pub u64);

impl Instant {
    /// Return the current time.
    pub fn now(k: &Kernel) -> (r: Instant)
        ensures
            r.0 == k.tick,
    {
        Instant(k.tick)
    }

    /// Return the duration elapsed since this instant, zero if it lies ahead.
    pub fn elapsed(self, k: &Kernel) -> (r: Duration)
        ensures
            r.0 == if k.tick < self.0 {
                0
            } else {
                k.tick - self.0
            },
    {
        Instant::now(k).saturating_duration_since(self)
    }

    /// Return the duration from `earlier` to `self`, or `None` if `self` is
    /// before `earlier`.
    pub fn checked_duration_since(self, earlier: Instant) -> (r: Option<Duration>)
        ensures
            r is None == (self.0 < earlier.0),
            r matches Some(d) ==> d.0 == self.0 - earlier.0,
    {
        match self.0.checked_sub(earlier.0) {
            Some(ticks) => Some(Duration(ticks)),
            None => None,
        }
    }

    /// Return the duration from `earlier` to `self`, zero if `self` is before
    /// `earlier`.
    pub fn saturating_duration_since(self, earlier: Instant) -> (r: Duration)
        ensures
            r.0 == if self.0 < earlier.0 {
                0
            } else {
                self.0 - earlier.0
            },
    {
        Duration(self.0.saturating_sub(earlier.0))
    }
}

impl Sub for Instant {
    type Output = Duration;

    /// The duration between two instants, zero where it would be negative.
    fn sub(self, rhs: Instant) -> (r: Duration) {
        self.saturating_duration_since(rhs)
    }
}

impl SubSpecImpl for Instant {
    open spec fn obeys_sub_spec() -> bool {
        true
    }

    open spec fn sub_req(self, rhs: Instant) -> bool {
        true
    }

    open spec fn sub_spec(self, rhs: Instant) -> Duration {
        Duration(
            if self.0 < rhs.0 {
                0
            } else {
                (self.0 - rhs.0) as u64
            },
        )
    }
}

/// A one-shot or periodic timer that blocks the calling task until a deadline.
///
/// It tracks an absolute deadline, so that the intervals of a periodic timer do
/// not drift.
pub struct Timer {
    /// Tick count of the next deadline.
    pub next: u64,
    /// Period in ticks, or `None` for a one-shot timer.
    pub period: Option<u64>,
    /// Whether it has been waited for.
    pub waited: bool,
}

impl Timer {
    /// Create a one-shot timer that fires once after `delay`.
    pub fn after(k: &Kernel, delay: Duration) -> (r: Timer)
        ensures
            r.next == crate::task::deadline_after(k.tick, delay),
            r.period is None,
            !r.waited,
    {
        Timer { next: k.tick.wrapping_add(delay.as_ticks()), period: None, waited: false }
    }

    /// Create a periodic timer that fires every `period`, for the first time
    /// one `period` from now.
    pub fn every(k: &Kernel, period: Duration) -> (r: Timer)
        ensures
            r.next == crate::task::deadline_after(k.tick, period),
            r.period == Some(period.0),
            !r.waited,
    {
        let ticks: u64 = period.as_ticks();
        Timer { next: k.tick.wrapping_add(ticks), period: Some(ticks), waited: false }
    }

    /// The timer once it has been waited for.
    pub open spec fn advanced(self) -> Timer {
        Timer {
            next: match self.period {
                Some(p) => crate::task::deadline_after(self.next, Duration(p)),
                None => self.next,
            },
            period: self.period,
            waited: true,
        }
    }

    /// What `wait` does, and whether it returned at once.
    pub open spec fn waited_for(self, after: Timer, k: Kernel, k_after: Kernel, r: bool) -> bool {
        &&& after == self.advanced()
        &&& r == (self.period is None && self.waited && self.next <= k.tick)
        &&& if r {
            k_after == k
        } else {
            &&& k_after.tasks@ == crate::task::asleep(k, self.next)
            &&& k_after.same_but_tasks(k)
            &&& k_after.pendsv
        }
    }

    /// Block until the next deadline, and advance a periodic timer by one
    /// period.
    ///
    /// Returns `true` when a one-shot timer that has been waited for before has
    /// reached its deadline. Otherwise the calling task sleeps, until the next
    /// tick at least, and a context switch is requested.
    pub fn wait(&mut self, k: &mut Kernel) -> (r: bool)
        requires
            old(k).wf(),
            old(k).running(),
        ensures
            final(k).wf(),
            old(self).waited_for(*final(self), *old(k), *final(k), r),
            forall|l: WaitList| old(k).holds(l) ==> #[trigger] final(k).holds(l),
    {
        if self.period.is_none() && self.waited && self.next <= k.tick {
            return true;
        }
        sleep_until(k, self.next);
        if let Some(p) = self.period {
            self.next = self.next.wrapping_add(p);
        }
        self.waited = true;
        false
    }

    /// The timer after it has been waited for `n` times.
    pub open spec fn after_waits(self, n: nat) -> Timer
        decreases n,
    {
        if n == 0 {
            self
        } else {
            self.after_waits((n - 1) as nat).advanced()
        }
    }

    /// A periodic timer does not drift: however late its deadlines are served,
    /// the deadline after `n` more waits lies exactly `n` periods ahead, on a tick
    /// counter that starts over after 64 bits.
    pub proof fn law_no_drift(self, n: nat)
        requires
            self.period is Some,
        ensures
            self.after_waits(n).next == (self.next + n * self.period->0) % (u64::MAX + 1),
            self.after_waits(n).period == self.period,
        decreases n,
    {
        let p = self.period->0 as int;
        let m = u64::MAX + 1;
        if n == 0 {
            assert(n * p == 0) by (nonlinear_arith)
                requires
                    n == 0,
            ;
            vstd::arithmetic::div_mod::lemma_small_mod(self.next as nat, m as nat);
        } else {
            assert(n * p == (n - 1) * p + p) by (nonlinear_arith);
            self.law_no_drift((n - 1) as nat);
            let last = self.after_waits((n - 1) as nat).next as int;
            vstd::arithmetic::div_mod::lemma_add_mod_noop(self.next + (n - 1) * p, p, m);
            vstd::arithmetic::div_mod::lemma_add_mod_noop(last, p, m);
            vstd::arithmetic::div_mod::lemma_small_mod(last as nat, m as nat);
            if last + p < m {
                vstd::arithmetic::div_mod::lemma_small_mod((last + p) as nat, m as nat);
            } else {
                vstd::arithmetic::div_mod::lemma_mod_sub_multiples_vanish(last + p, m);
                vstd::arithmetic::div_mod::lemma_small_mod((last + p - m) as nat, m as nat);
            }
        }
    }

    /// A wait puts the caller to sleep until the deadline, it alone, unless the timer
    /// is a one-shot timer that has been waited for and has reached it.
    pub proof fn law_wait_sleeps_until_the_deadline(
        self,
        after: Timer,
        k: Kernel,
        k_after: Kernel,
        r: bool,
        t: usize,
    )
        requires
            k.wf(),
            k.running(),
            self.waited_for(after, k, k_after, r),
            t < k.tasks@.len(),
        ensures
            r <==> self.period is None && self.waited && self.next <= k.tick,
            k_after.tasks@[t as int] == (if !r && k.current == Some(t) {
                crate::kernel::tcb::Tcb {
                    state: crate::kernel::tcb::TaskState::Sleeping(self.next),
                    ..k.tasks@[t as int]
                }
            } else {
                k.tasks@[t as int]
            }),
            !r ==> k_after.pendsv,
            r ==> k_after == k,
    {
    }

    /// Two waits for a periodic timer sleep until deadlines that lie exactly one
    /// period apart, whenever the second comes.
    pub proof fn law_waits_lie_one_period_apart(
        self,
        mid: Timer,
        k: Kernel,
        k_mid: Kernel,
        r: bool,
        after: Timer,
        k_before: Kernel,
        k_after: Kernel,
        q: bool,
    )
        requires
            self.period is Some,
            k.running(),
            k_before.running(),
            self.waited_for(mid, k, k_mid, r),
            mid.waited_for(after, k_before, k_after, q),
        ensures
            k_mid.tasks@[k.current->0 as int].state == crate::kernel::tcb::TaskState::Sleeping(
                self.next,
            ),
            k_after.tasks@[k_before.current->0 as int].state
                == crate::kernel::tcb::TaskState::Sleeping(
                ((self.next + self.period->0) % (u64::MAX + 1)) as u64,
            ),
    {
        crate::task::law_deadlines_wrap(self.next, Duration(self.period->0));
    }

    /// A second wait for a one-shot timer returns at once when the deadline has been
    /// reached, and sleeps on until it otherwise; the first always sleeps.
    pub proof fn law_one_shot_fires_once(
        self,
        mid: Timer,
        k: Kernel,
        k_mid: Kernel,
        r: bool,
        after: Timer,
        k_before: Kernel,
        k_after: Kernel,
        q: bool,
    )
        requires
            self.period is None,
            !self.waited,
            k.running(),
            k_before.running(),
            self.waited_for(mid, k, k_mid, r),
            mid.waited_for(after, k_before, k_after, q),
        ensures
            !r,
            k_mid.tasks@[k.current->0 as int].state == crate::kernel::tcb::TaskState::Sleeping(
                self.next,
            ),
            q <==> self.next <= k_before.tick,
            q ==> k_after == k_before,
            !q ==> k_after.tasks@[k_before.current->0 as int].state
                == crate::kernel::tcb::TaskState::Sleeping(self.next),
    {
    }

    /// A one-shot timer keeps its deadline.
    pub proof fn law_one_shot_keeps_its_deadline(self, n: nat)
        requires
            self.period is None,
        ensures
            self.after_waits(n).next == self.next,
            self.after_waits(n).period is None,
        decreases n,
    {
        if n > 0 {
            self.law_one_shot_keeps_its_deadline((n - 1) as nat);
        }
    }
}

impl Duration {
    /// Whole milliseconds and whole seconds come back unchanged.
    pub proof fn law_conversions_round_trip(n: u64)
        requires
            n * TICKS_PER_SEC <= u64::MAX,
        ensures
            (n * TICKS_PER_SEC / 1000) * 1000 / TICKS_PER_SEC as int == n,
            n * TICKS_PER_SEC / TICKS_PER_SEC as int == n,
    {
    }

    /// A tick is a millisecond, and a second has a thousand of them.
    pub proof fn law_a_tick_is_a_millisecond(n: u64)
        ensures
            n * TICKS_PER_SEC == n * 1000,
            n * TICKS_PER_SEC / 1000 == n,
            n * 1000 / TICKS_PER_SEC as int == n,
    {
    }

    /// Durations add up in ticks, and a difference that would be negative is zero; so
    /// is the time between an instant and an earlier one.
    pub proof fn law_time_is_counted_in_ticks(a: Duration, b: Duration, from: Instant, to: Instant)
        requires
            a.0 + b.0 <= u64::MAX,
        ensures
            vstd::std_specs::ops::AddSpec::add_req(a, b),
            vstd::std_specs::ops::AddSpec::add_spec(a, b).0 == a.0 + b.0,
            vstd::std_specs::ops::SubSpec::sub_spec(a, b).0 == vstd::math::max(a.0 - b.0, 0),
            vstd::std_specs::ops::SubSpec::sub_spec(to, from).0 == vstd::math::max(
                to.0 - from.0,
                0,
            ),
    {
    }

    /// Subtraction undoes addition.
    pub proof fn law_sub_undoes_add(a: Duration, b: Duration)
        requires
            vstd::std_specs::ops::AddSpec::add_req(a, b),
        ensures
            vstd::std_specs::ops::SubSpec::sub_spec(
                vstd::std_specs::ops::AddSpec::add_spec(a, b),
                b,
            ) == a,
    {
    }
}

} // verus!
