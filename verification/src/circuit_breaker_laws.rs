//! What holds of every circuit breaker, whatever it has been through.

use crate::circuit_breaker::{BreakerView, CircuitBreakerState};
use crate::clock::elapsed_between;
use vstd::prelude::*;

verus! {

/// The breaker after failures at each of `times`, in order, with nothing in
/// between.
pub open spec fn after_failures(start: BreakerView, times: Seq<nat>) -> BreakerView
    decreases times.len(),
{
    if times.len() == 0 {
        start
    } else {
        after_failures(start, times.drop_last()).after_failure(times.last())
    }
}

/// Every step keeps the counters within what the thresholds allow.
pub proof fn lemma_steps_keep_bounds(before: BreakerView, now: nat)
    requires
        before.bounded(),
    ensures
        before.after_probe(now).bounded(),
        before.after_success().bounded(),
        before.after_failure(now).failure_count <= before.failure_count + 1,
        before.after_failure(now).state != CircuitBreakerState::Closed || before.after_failure(
            now,
        ).failure_count < before.failure_threshold,
        before.after_failure(now).state != CircuitBreakerState::HalfOpen,
{
}

/// A new breaker is closed and has counted nothing.
pub proof fn lemma_fresh_is_closed(failure_threshold: nat)
    ensures
        BreakerView::fresh(failure_threshold).state == CircuitBreakerState::Closed,
        BreakerView::fresh(failure_threshold).failure_count == 0,
        BreakerView::fresh(failure_threshold).success_count == 0,
        BreakerView::fresh(failure_threshold).bounded(),
{
}

/// A breaker enters the closed state only through a success while half-open,
/// and then both counters are zero.
pub proof fn lemma_entry_to_closed_resets(before: BreakerView, now: nat)
    requires
        before.state != CircuitBreakerState::Closed,
    ensures
        before.after_probe(now).state != CircuitBreakerState::Closed,
        before.after_failure(now).state != CircuitBreakerState::Closed,
        before.after_success().state == CircuitBreakerState::Closed ==> before.state
            == CircuitBreakerState::HalfOpen && before.after_success().failure_count == 0
            && before.after_success().success_count == 0,
{
}

/// A breaker enters the half-open state only through a probe while open,
/// and then the success count is zero.
pub proof fn lemma_entry_to_half_open_resets(before: BreakerView, now: nat)
    requires
        before.state != CircuitBreakerState::HalfOpen,
    ensures
        before.after_success().state != CircuitBreakerState::HalfOpen,
        before.after_failure(now).state != CircuitBreakerState::HalfOpen,
        before.after_probe(now).state == CircuitBreakerState::HalfOpen ==> before.state
            == CircuitBreakerState::Open && before.reset_due(now) && before.after_probe(
            now,
        ).success_count == 0,
{
}

/// A breaker enters the open state only through a failure, and then the
/// success count is zero and the failure's time is on record.
pub proof fn lemma_entry_to_open_resets(before: BreakerView, now: nat)
    requires
        before.state != CircuitBreakerState::Open,
    ensures
        before.after_success().state != CircuitBreakerState::Open,
        before.after_probe(now).state != CircuitBreakerState::Open,
        before.after_failure(now).state == CircuitBreakerState::Open ==> before.after_failure(
            now,
        ).success_count == 0 && before.after_failure(now).last_failure_time == Some(now),
{
}

/// A success while closed clears the failure count.
pub proof fn lemma_success_clears_failures(before: BreakerView)
    requires
        before.state == CircuitBreakerState::Closed,
    ensures
        before.after_success().state == CircuitBreakerState::Closed,
        before.after_success().failure_count == 0,
{
}

/// Fewer failures in a row than the threshold leave a closed breaker closed,
/// with the failures counted.
pub proof fn lemma_stays_closed_below_threshold(start: BreakerView, times: Seq<nat>)
    requires
        start.state == CircuitBreakerState::Closed,
        start.failure_count == 0,
        times.len() < start.failure_threshold,
    ensures
        after_failures(start, times).state == CircuitBreakerState::Closed,
        after_failures(start, times).failure_count == times.len(),
        after_failures(start, times).failure_threshold == start.failure_threshold,
        after_failures(start, times).timeout == start.timeout,
    decreases times.len(),
{
    if times.len() > 0 {
        lemma_stays_closed_below_threshold(start, times.drop_last());
    }
}

/// After `failure_threshold` failures in a row a closed breaker is open, and
/// a probe answers "open" until the timeout has run out since the last of
/// them. This needs a threshold of at least one: with a threshold of zero no
/// failure has happened yet and the breaker is still closed.
pub proof fn lemma_opens_at_threshold(start: BreakerView, times: Seq<nat>, now: nat)
    requires
        start.state == CircuitBreakerState::Closed,
        start.failure_count == 0,
        start.failure_threshold >= 1,
        times.len() == start.failure_threshold,
        elapsed_between(times.last(), now) < start.timeout,
    ensures
        after_failures(start, times).state == CircuitBreakerState::Open,
        after_failures(start, times).last_failure_time == Some(times.last()),
        after_failures(start, times).is_open_at(now),
        after_failures(start, times).after_probe(now) == after_failures(start, times),
{
    lemma_stays_closed_below_threshold(start, times.drop_last());
}

/// Once the timeout has run out, a probe of an open breaker answers "not
/// open" and makes it half-open with no successes; a further probe, at
/// whatever time, answers "not open" again and changes nothing.
pub proof fn lemma_half_open_once(open: BreakerView, now: nat, later: nat)
    requires
        open.state == CircuitBreakerState::Open,
        open.reset_due(now),
    ensures
        !open.is_open_at(now),
        open.after_probe(now).state == CircuitBreakerState::HalfOpen,
        open.after_probe(now).success_count == 0,
        !open.after_probe(now).is_open_at(later),
        open.after_probe(now).after_probe(later) == open.after_probe(now),
{
}

/// Three successes in a row close a half-open breaker that has counted none,
/// and leave no failure on the count.
pub proof fn lemma_three_successes_close(half_open: BreakerView)
    requires
        half_open.state == CircuitBreakerState::HalfOpen,
        half_open.success_count == 0,
        half_open.bounded(),
    ensures
        half_open.after_success().state == CircuitBreakerState::HalfOpen,
        half_open.after_success().after_success().state == CircuitBreakerState::HalfOpen,
        half_open.after_success().after_success().after_success().state
            == CircuitBreakerState::Closed,
        half_open.after_success().after_success().after_success().failure_count == 0,
{
}

} // verus!
