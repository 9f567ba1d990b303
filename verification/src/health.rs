//! The health of a backend: its failures in a row, and its cooldown.

use crate::balance::next_count;
use crate::clock::{elapsed, instant_now};
use crate::duration::{Duration, MAX_NANOS};
use vstd::prelude::*;

verus! {

/// The health of one backend.
pub struct BackendHealth {
    /// The instant from which times are counted.
    time_base: std::time::Instant,
    /// The failures in a row.
    failure_count: usize,
    /// When the cooldown ends, in nanoseconds from the time base; 0 for no cooldown.
    cooldown_until: u128,
}

/// What [`BackendHealth`] holds.
pub struct HealthView {
    /// The instant from which times are counted.
    pub time_base: std::time::Instant,
    /// The failures in a row.
    pub failure_count: usize,
    /// When the cooldown ends, in nanoseconds from the time base; 0 for no cooldown.
    pub cooldown_until: nat,
}

impl View for BackendHealth {
    type V = HealthView;

    closed spec fn view(&self) -> HealthView {
        HealthView {
            time_base: self.time_base,
            failure_count: self.failure_count,
            cooldown_until: self.cooldown_until as nat,
        }
    }
}

impl DeepView for BackendHealth {
    type V = HealthView;

    open spec fn deep_view(&self) -> HealthView {
        self@
    }
}

impl HealthView {
    /// The health of a backend of which nothing is known, with times counted from
    /// `time_base`.
    pub open spec fn fresh(time_base: std::time::Instant) -> HealthView {
        HealthView { time_base, failure_count: 0, cooldown_until: 0 }
    }

    /// The health after a success: nothing is held against the backend.
    pub open spec fn succeeded(self) -> HealthView {
        HealthView::fresh(self.time_base)
    }

    /// Whether the backend is healthy at a time: it has no cooldown, or the cooldown
    /// is over.
    pub open spec fn healthy(self, now: nat) -> bool {
        self.cooldown_until == 0 || now >= self.cooldown_until
    }

    /// The health after one more failure.
    pub open spec fn failed(self) -> HealthView {
        HealthView { failure_count: next_count(self.failure_count), ..self }
    }

    /// Whether one more failure calls for a cooldown: it is at least the
    /// `max_retries`th in a row, and no cooldown was set since the last success.
    pub open spec fn due(self, max_retries: usize) -> bool {
        next_count(self.failure_count) >= max_retries && self.cooldown_until == 0
    }

    /// The health after a cooldown was set.
    pub open spec fn cooled(self, now: nat, duration: nat) -> HealthView {
        HealthView { cooldown_until: now + duration, ..self }
    }

    /// What is left of the cooldown, which is no longer than the longest span.
    pub open spec fn remaining(self, now: nat) -> Option<nat> {
        if self.cooldown_until == 0 || self.cooldown_until < now {
            None
        } else if self.cooldown_until - now > MAX_NANOS {
            Some(MAX_NANOS as nat)
        } else {
            Some((self.cooldown_until - now) as nat)
        }
    }

    /// The health after a failure of a backend that is given `max_retries` and
    /// `cooldown`, with the cooldown set where it is due.
    pub open spec fn after_failure(self, max_retries: usize, cooldown: nat, now: nat) -> HealthView {
        if self.due(max_retries) {
            self.failed().cooled(now, cooldown)
        } else {
            self.failed()
        }
    }
}

impl BackendHealth {
    /// The health of a backend of which nothing is known.
    pub fn new() -> (r: Self)
        ensures
            r@ == HealthView::fresh(r@.time_base),
    {
        Self::counted_from(instant_now())
    }

    /// The health of a backend of which nothing is known, with times counted from
    /// `time_base`.
    pub(crate) fn counted_from(time_base: std::time::Instant) -> (r: Self)
        ensures
            r@ == HealthView::fresh(time_base),
    {
        BackendHealth { time_base, failure_count: 0, cooldown_until: 0 }
    }

    /// Notes a request that succeeded.
    pub fn record_success(&mut self)
        ensures
            final(self)@ == old(self)@.succeeded(),
    {
        self.failure_count = 0;
        self.cooldown_until = 0;
    }

    /// Notes a request that failed. Says whether the backend should be given a
    /// cooldown.
    pub fn record_failure(&mut self, max_retries: usize) -> (r: bool)
        ensures
            r == old(self)@.due(max_retries),
            final(self)@ == old(self)@.failed(),
    {
        let count: usize = self.failure_count.wrapping_add(1);
        self.failure_count = count;
        count >= max_retries && self.cooldown_until == 0
    }

    /// Gives the backend a cooldown that begins now.
    pub fn set_cooldown(&mut self, duration: Duration)
        ensures
            exists|now: nat|
                now <= MAX_NANOS && final(self)@ == #[trigger] old(self)@.cooled(now, duration@),
    {
        let now: u128 = elapsed(&self.time_base);
        self.set_cooldown_at(now, duration);
    }

    /// Gives the backend a cooldown that begins at `now`, in nanoseconds from the
    /// time base.
    pub fn set_cooldown_at(&mut self, now: u128, duration: Duration)
        requires
            now <= MAX_NANOS,
        ensures
            final(self)@ == old(self)@.cooled(now as nat, duration@),
    {
        let span: u128 = duration.as_nanos();
        self.cooldown_until = now + span;
    }

    /// Whether the backend is healthy now.
    pub fn is_healthy(&self) -> (r: bool)
        ensures
            exists|now: nat| now <= MAX_NANOS && r == #[trigger] self@.healthy(now),
    {
        let now: u128 = elapsed(&self.time_base);
        self.is_healthy_at(now)
    }

    /// Whether the backend is healthy at `now`, in nanoseconds from the time base.
    pub fn is_healthy_at(&self, now: u128) -> (r: bool)
        ensures
            r == self@.healthy(now as nat),
    {
        self.cooldown_until == 0 || now >= self.cooldown_until
    }

    /// What is left of the cooldown now.
    pub fn remaining_cooldown(&self) -> (r: Option<Duration>)
        ensures
            exists|now: nat| now <= MAX_NANOS && r.deep_view() == #[trigger] self@.remaining(now),
    {
        let now: u128 = elapsed(&self.time_base);
        let r = self.remaining_cooldown_at(now);
        assert(r.deep_view() == self@.remaining(now as nat));
        r
    }

    /// What is left of the cooldown at `now`, in nanoseconds from the time base.
    pub fn remaining_cooldown_at(&self, now: u128) -> (r: Option<Duration>)
        ensures
            r.deep_view() == self@.remaining(now as nat),
    {
        if self.cooldown_until == 0 || self.cooldown_until < now {
            None
        } else {
            let left: u128 = self.cooldown_until - now;
            if left > MAX_NANOS {
                Some(Duration::from_nanos(MAX_NANOS))
            } else {
                Some(Duration::from_nanos(left))
            }
        }
    }
}

impl Default for BackendHealth {
    fn default() -> (r: Self)
        ensures
            r@ == HealthView::fresh(r@.time_base),
    {
        Self::new()
    }
}

/// The health after `n` failures in a row, without a cooldown.
pub open spec fn after_failures(health: HealthView, n: nat) -> HealthView
    decreases n,
{
    if n == 0 {
        health
    } else {
        after_failures(health, (n - 1) as nat).failed()
    }
}

/// A fresh backend is healthy at all times, has nothing left of a cooldown, and
/// failures alone do not make it unhealthy.
pub proof fn law_failures_alone_do_no_harm(time_base: std::time::Instant, n: nat, now: nat)
    ensures
        after_failures(HealthView::fresh(time_base), n).healthy(now),
        after_failures(HealthView::fresh(time_base), n).cooldown_until == 0,
        after_failures(HealthView::fresh(time_base), n).remaining(now) is None,
    decreases n,
{
    if n > 0 {
        law_failures_alone_do_no_harm(time_base, (n - 1) as nat, now);
    }
}

/// After a success, a cooldown is due with the `max_retries`th failure in a row and
/// not before. (With no failure allowed, the first one is enough.)
pub proof fn law_cooldown_is_due_at_the_threshold(
    time_base: std::time::Instant,
    max_retries: usize,
    n: nat,
)
    requires
        n < usize::MAX,
    ensures
        after_failures(HealthView::fresh(time_base), n).failure_count == n,
        after_failures(HealthView::fresh(time_base), n).due(max_retries) <==> n + 1 >= max_retries,
    decreases n,
{
    law_failures_alone_do_no_harm(time_base, n, 0);
    if n > 0 {
        law_cooldown_is_due_at_the_threshold(time_base, max_retries, (n - 1) as nat);
    }
}

/// A backend with a cooldown is unhealthy until it is over and healthy from then on.
pub proof fn law_cooldown_lasts_as_long_as_it_says(
    health: HealthView,
    start: nat,
    duration: nat,
    now: nat,
)
    requires
        start + duration > 0,
    ensures
        health.cooled(start, duration).healthy(now) <==> now >= start + duration,
        start <= now <= start + duration && duration <= MAX_NANOS ==> health.cooled(
            start,
            duration,
        ).remaining(now) == Some((start + duration - now) as nat),
        now > start + duration ==> health.cooled(start, duration).remaining(now) is None,
{
}

/// Once a cooldown is set, no failure calls for another before there was a success.
pub proof fn law_no_second_cooldown_without_success(
    health: HealthView,
    start: nat,
    duration: nat,
    n: nat,
    max_retries: usize,
)
    requires
        start + duration > 0,
    ensures
        after_failures(health.cooled(start, duration), n).cooldown_until == start + duration,
        !after_failures(health.cooled(start, duration), n).due(max_retries),
    decreases n,
{
    if n > 0 {
        law_no_second_cooldown_without_success(
            health,
            start,
            duration,
            (n - 1) as nat,
            max_retries,
        );
    }
}

/// A call that changes the health of a backend.
pub enum Call {
    /// A success was noted.
    Success,
    /// A failure was noted.
    Failure,
    /// A cooldown was set at a time, for a duration.
    Cooldown(nat, nat),
}

/// The health after calls, one after the other.
pub open spec fn after_calls(health: HealthView, calls: Seq<Call>) -> HealthView
    decreases calls.len(),
{
    if calls.len() == 0 {
        health
    } else {
        let before = after_calls(health, calls.drop_last());
        match calls.last() {
            Call::Success => before.succeeded(),
            Call::Failure => before.failed(),
            Call::Cooldown(now, duration) => before.cooled(now, duration),
        }
    }
}

/// The latest cooldown since the last success: when it was set, and for how long.
pub open spec fn latest_cooldown(calls: Seq<Call>) -> Option<(nat, nat)>
    decreases calls.len(),
{
    if calls.len() == 0 {
        None
    } else {
        match calls.last() {
            Call::Success => None,
            Call::Failure => latest_cooldown(calls.drop_last()),
            Call::Cooldown(now, duration) => Some((now, duration)),
        }
    }
}

/// The number of failures since the last success.
pub open spec fn failures_since_success(calls: Seq<Call>) -> nat
    decreases calls.len(),
{
    if calls.len() == 0 {
        0
    } else {
        match calls.last() {
            Call::Success => 0,
            Call::Failure => failures_since_success(calls.drop_last()) + 1,
            Call::Cooldown(_, _) => failures_since_success(calls.drop_last()),
        }
    }
}

/// A backend is healthy exactly if no cooldown was set since the last success, or the
/// latest one that was is over, whatever the calls before: only the latest counts, also
/// where it is the shorter one. No call changes the instant from which times are
/// counted.
pub proof fn law_only_the_latest_cooldown_counts(
    time_base: std::time::Instant,
    calls: Seq<Call>,
    now: nat,
)
    ensures
        after_calls(HealthView::fresh(time_base), calls).time_base == time_base,
        after_calls(HealthView::fresh(time_base), calls).cooldown_until == (match latest_cooldown(
            calls,
        ) {
            Some((start, duration)) => start + duration,
            None => 0,
        }),
        after_calls(HealthView::fresh(time_base), calls).healthy(now) == (match latest_cooldown(
            calls,
        ) {
            Some((start, duration)) => now >= start + duration,
            None => true,
        }),
    decreases calls.len(),
{
    if calls.len() > 0 {
        law_only_the_latest_cooldown_counts(time_base, calls.drop_last(), now);
    }
}

/// A failure calls for a cooldown exactly if it is at least the `max_retries`th since
/// the last success and no cooldown was set since then, whatever the calls before. (A
/// cooldown that ends at the time base itself is none.)
pub proof fn law_when_a_failure_calls_for_a_cooldown(
    time_base: std::time::Instant,
    calls: Seq<Call>,
    max_retries: usize,
)
    requires
        failures_since_success(calls) < usize::MAX,
    ensures
        after_calls(HealthView::fresh(time_base), calls).failure_count == failures_since_success(
            calls,
        ),
        after_calls(HealthView::fresh(time_base), calls).due(max_retries) <==> {
            &&& failures_since_success(calls) + 1 >= max_retries
            &&& latest_cooldown(calls) matches Some((start, duration)) ==> start + duration == 0
        },
    decreases calls.len(),
{
    law_only_the_latest_cooldown_counts(time_base, calls, 0);
    if calls.len() > 0 && !(calls.last() is Success) {
        law_when_a_failure_calls_for_a_cooldown(time_base, calls.drop_last(), max_retries);
    }
}

/// A backend that was healthy once stays so until a cooldown is set: successes and
/// failures alone do not make it unhealthy.
pub proof fn law_healthy_until_a_cooldown_is_set(
    health: HealthView,
    calls: Seq<Call>,
    then: nat,
    now: nat,
)
    requires
        health.healthy(then),
        then <= now,
        forall|i: int| 0 <= i < calls.len() ==> !((#[trigger] calls[i]) is Cooldown),
    ensures
        after_calls(health, calls).healthy(now),
    decreases calls.len(),
{
    if calls.len() > 0 {
        let before = calls.drop_last();
        assert forall|i: int| 0 <= i < before.len() implies !((#[trigger] before[i]) is Cooldown) by {
            assert(before[i] == calls[i]);
        }
        assert(!(calls[calls.len() - 1] is Cooldown));
        law_healthy_until_a_cooldown_is_set(health, before, then, now);
    }
}

/// Of a cooldown that is set, what is left is the time to its end, none once it is over,
/// and never more than it was set for. Of a backend that is not healthy, something is
/// left.
pub proof fn law_what_is_left_of_a_cooldown(
    health: HealthView,
    start: nat,
    duration: nat,
    now: nat,
)
    ensures
        !health.healthy(now) ==> (health.remaining(now) matches Some(left) && left > 0),
        health.cooldown_until != 0 && now <= health.cooldown_until <= now + MAX_NANOS
            ==> health.remaining(now) == Some((health.cooldown_until - now) as nat),
        now > health.cooldown_until ==> health.remaining(now) is None,
        start <= now ==> (health.cooled(start, duration).remaining(now) matches Some(left) ==> left
            <= duration),
{
}

} // verus!
