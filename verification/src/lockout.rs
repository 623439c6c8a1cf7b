//! Wrong-PIN throttling.
//!
//! Each attempt is one online guess. The first few failures cost nothing;
//! after that the host refuses every attempt for a window that doubles with
//! each further failure. A correct PIN resets the count.
//!
//! Times and lengths of time are nanoseconds on a clock that does not go back.

use vstd::arithmetic::power2::*;
use vstd::prelude::*;

verus! {

pub const FREE_FAILURES: u32 = 5;

/// 30 seconds.
pub const BASE_LOCK: u64 = 30_000_000_000;

/// 15 minutes.
pub const MAX_LOCK: u64 = 900_000_000_000;

/// How long attempts are refused after so many failures in a row, from
/// [`FREE_FAILURES`] on: [`BASE_LOCK`], and twice as long after each further one,
/// up to [`MAX_LOCK`].
pub open spec fn lock_length(failures: nat) -> nat
    decreases failures,
{
    if failures <= FREE_FAILURES {
        BASE_LOCK as nat
    } else {
        let doubled = 2 * lock_length((failures - 1) as nat);
        if doubled < MAX_LOCK {
            doubled
        } else {
            MAX_LOCK as nat
        }
    }
}

/// A length of time in whole seconds, rounded up.
pub open spec fn seconds(nanos: u64) -> u64 {
    ((nanos + 999_999_999) / 1_000_000_000) as u64
}

/// A length of time in whole seconds, rounded up.
pub fn whole_seconds(nanos: u64) -> (r: u64)
    ensures
        r == seconds(nanos),
{
    let whole: u64 = nanos / 1_000_000_000;
    if nanos % 1_000_000_000 == 0 {
        whole
    } else {
        whole + 1
    }
}

/// The second of the wall clock at which attempts are accepted again, where it is `wall`
/// now, if the clock goes as far.
pub open spec fn wall_of(left: Option<u64>, wall: u64) -> Option<u64> {
    match left {
        Some(left) if wall + seconds(left) <= u64::MAX => Some((wall + seconds(left)) as u64),
        Some(_) => Some(u64::MAX),
        None => None,
    }
}

/// The failures in a row, and until when attempts are refused.
#[derive(Debug)]
pub struct Lockout {
    failures: u32,
    until: Option<u64>,
}

/// What a [`Lockout`] holds.
pub struct LockoutView {
    pub failures: u32,
    pub until: Option<u64>,
}

impl View for Lockout {
    type V = LockoutView;

    closed spec fn view(&self) -> LockoutView {
        LockoutView { failures: self.failures, until: self.until }
    }
}

impl LockoutView {
    /// Time left before another attempt is accepted.
    pub open spec fn remaining(self, now: u64) -> Option<u64> {
        match self.until {
            Some(until) if until > now => Some((until - now) as u64),
            _ => None,
        }
    }

    pub open spec fn counted(self) -> nat {
        if self.failures < u32::MAX {
            (self.failures + 1) as nat
        } else {
            u32::MAX as nat
        }
    }

    /// The state after a failure.
    pub open spec fn failed(self, now: u64) -> LockoutView {
        LockoutView {
            failures: self.counted() as u32,
            until: match self.lock() {
                Some(lock) => Some((now + lock) as u64),
                None => self.until,
            },
        }
    }

    /// The lock that the next failure brings.
    pub open spec fn lock(self) -> Option<u64> {
        if self.counted() < FREE_FAILURES {
            None
        } else {
            Some(lock_length(self.counted()) as u64)
        }
    }

    /// The state before any failure.
    pub open spec fn fresh() -> LockoutView {
        LockoutView { failures: 0, until: None }
    }
}

impl Default for Lockout {
    fn default() -> (r: Lockout)
        ensures
            r@ == LockoutView::fresh(),
    {
        Lockout { failures: 0, until: None }
    }
}

proof fn lock_length_bounds(n: nat)
    ensures
        BASE_LOCK <= lock_length(n) <= MAX_LOCK,
    decreases n,
{
    if n > FREE_FAILURES {
        lock_length_bounds((n - 1) as nat);
    }
}

proof fn lock_length_settles(n: nat)
    requires
        n >= 10,
    ensures
        lock_length(n) == MAX_LOCK,
    decreases n,
{
    if n == 10 {
        reveal_with_fuel(lock_length, 6);
    } else {
        lock_length_settles((n - 1) as nat);
    }
}

impl Lockout {
    /// Time left before another attempt is accepted.
    pub fn remaining(&self, now: u64) -> (r: Option<u64>)
        ensures
            r == self@.remaining(now),
    {
        match self.until {
            Some(until) => if until > now {
                Some(until - now)
            } else {
                None
            },
            None => None,
        }
    }

    /// The second of the wall clock at which attempts are accepted again, where it is
    /// `wall` now.
    pub fn wall_until(&self, now: u64, wall: u64) -> (r: Option<u64>)
        ensures
            r == match self@.remaining(now) {
                Some(left) if wall + seconds(left) <= u64::MAX => Some(
                    (wall + seconds(left)) as u64,
                ),
                Some(_) => Some(u64::MAX),
                None => None,
            },
            r == wall_of(self@.remaining(now), wall),
    {
        match self.remaining(now) {
            Some(left) => {
                let secs: u64 = whole_seconds(left);
                if secs <= u64::MAX - wall {
                    Some(wall + secs)
                } else {
                    Some(u64::MAX)
                }
            },
            None => None,
        }
    }

    /// Counts a failure. Returns how long attempts are refused from now on.
    pub fn fail(&mut self, now: u64) -> (r: Option<u64>)
        requires
            now + MAX_LOCK <= u64::MAX,
        ensures
            r == old(self)@.lock(),
            final(self)@ == old(self)@.failed(now),
    {
        if self.failures < u32::MAX {
            self.failures = self.failures + 1;
        }
        if self.failures < FREE_FAILURES {
            return None;
        }
        let further: u32 = self.failures - FREE_FAILURES;
        let doublings: u32 = if further < 10 {
            further
        } else {
            10
        };
        let mut lock: u64 = BASE_LOCK;
        for i in 0..doublings
            invariant
                lock <= MAX_LOCK,
                lock == lock_length((FREE_FAILURES + i) as nat),
        {
            lock = if 2 * lock < MAX_LOCK {
                2 * lock
            } else {
                MAX_LOCK
            };
        }
        proof {
            if further > 10 {
                lock_length_settles(15);
                lock_length_settles(self.failures as nat);
            }
        }
        self.until = Some(now + lock);
        Some(lock)
    }

    /// Forgets the failures.
    pub fn succeed(&mut self)
        ensures
            final(self)@ == LockoutView::fresh(),
    {
        self.failures = 0;
        self.until = None;
    }
}

/// A lock holds for its whole length and no longer.
pub proof fn lock_holds_for_its_length(s: LockoutView, now: u64, t: u64)
    requires
        s.lock() is Some,
        now + MAX_LOCK <= u64::MAX,
        now <= t,
    ensures
        s.failed(now).remaining(t) is Some <==> t < now + s.lock()->0,
        BASE_LOCK <= s.lock()->0 <= MAX_LOCK,
{
    lock_length_bounds(s.counted());
}

/// The first failures lock nothing, and each later one locks twice as long as
/// the one before it, up to [`MAX_LOCK`].
pub proof fn locks_double(n: nat)
    requires
        n >= FREE_FAILURES,
    ensures
        lock_length(n + 1) == if 2 * lock_length(n) < MAX_LOCK {
            2 * lock_length(n)
        } else {
            MAX_LOCK as nat
        },
        lock_length(FREE_FAILURES as nat) == BASE_LOCK,
{
}

/// The state after failures in a row, at these times.
pub open spec fn after_failures(times: Seq<u64>) -> LockoutView
    decreases times.len(),
{
    if times.len() == 0 {
        LockoutView::fresh()
    } else {
        after_failures(times.drop_last()).failed(times.last())
    }
}

/// Fewer than [`FREE_FAILURES`] failures in a row lock nothing. From then on, all
/// attempts are refused after each failure: for [`BASE_LOCK`] at first, twice as
/// long each time, up to [`MAX_LOCK`].
pub proof fn failures_in_a_row(times: Seq<u64>, t: u64)
    requires
        times.len() <= u32::MAX,
        forall|i: int| 0 <= i < times.len() ==> #[trigger] times[i] + MAX_LOCK <= u64::MAX,
    ensures
        after_failures(times).failures == times.len(),
        times.len() < FREE_FAILURES ==> after_failures(times).until is None,
        times.len() >= FREE_FAILURES ==> (after_failures(times).remaining(t) is Some <==> t
            < times.last() + lock_length(times.len())),
    decreases times.len(),
{
    if times.len() > 0 {
        let before = times.drop_last();
        assert forall|i: int| 0 <= i < before.len() implies #[trigger] before[i] + MAX_LOCK
            <= u64::MAX by {
            assert(before[i] == times[i]);
        }
        failures_in_a_row(before, t);
        lock_length_bounds(times.len());
        assert(times[times.len() - 1] + MAX_LOCK <= u64::MAX);
    }
}

/// The lock after so many failures in a row, in one formula: none up to the fourth, and
/// then 30 seconds times two for each failure after the fifth, but never more than 15
/// minutes. A failure is counted once, and what it locks starts when it happens.
pub proof fn locks_by_formula(s: LockoutView, now: u64)
    requires
        now + 900_000_000_000 <= u64::MAX,
        s.failures < u32::MAX,
    ensures
        s.failed(now).failures == s.failures + 1,
        s.failures + 1 < 5 ==> s.lock() is None && s.failed(now).until == s.until,
        s.failures + 1 >= 5 ==> {
            let whole = 30_000_000_000 * pow2((s.failures - 4) as nat);
            let lock = if whole < 900_000_000_000 {
                whole as u64
            } else {
                900_000_000_000u64
            };
            s.lock() == Some(lock) && s.failed(now).remaining(now) == Some(lock)
        },
{
    if s.failures + 1 >= 5 {
        lock_by_formula((s.failures + 1) as nat);
        lock_length_bounds(s.counted());
    }
}

proof fn lock_by_formula(n: nat)
    requires
        n >= 5,
    ensures
        lock_length(n) == if 30_000_000_000 * pow2((n - 5) as nat) < 900_000_000_000 {
            (30_000_000_000 * pow2((n - 5) as nat)) as nat
        } else {
            900_000_000_000
        },
    decreases n,
{
    if n == 5 {
        lemma2_to64();
    } else {
        lock_by_formula((n - 1) as nat);
        lemma_pow2_unfold((n - 5) as nat);
    }
}

/// The time that is left runs down with the clock, until none is left.
pub proof fn time_left_runs_down(s: LockoutView, now: u64, later: u64)
    requires
        now <= later,
    ensures
        s.remaining(later) is Some <==> (s.remaining(now) is Some && s.remaining(now)->0 > later
            - now),
        s.remaining(later) is Some ==> s.remaining(later)->0 + (later - now) == s.remaining(now)->0,
        s.remaining(now) is Some ==> s.remaining(now)->0 > 0,
        s.until is None ==> s.remaining(now) is None,
{
}

/// Whole seconds are the fewest that are not shorter than the time.
pub proof fn seconds_are_rounded_up(nanos: u64)
    ensures
        nanos <= seconds(nanos) * 1_000_000_000,
        nanos > 0 ==> (seconds(nanos) - 1) * 1_000_000_000 < nanos,
        nanos == 0 ==> seconds(nanos) == 0,
{
}

/// The wall clock shows a second at which the lock is over, and the one before it is still
/// in the lock.
pub proof fn wall_clock_shows_the_end(left: u64, wall: u64)
    requires
        left > 0,
        wall + left <= u64::MAX,
    ensures
        wall_of(None, wall) is None,
        wall_of(Some(left), wall) matches Some(end) && left <= (end - wall) * 1_000_000_000 && (end
            - wall - 1) * 1_000_000_000 < left,
{
}

} // verus!
