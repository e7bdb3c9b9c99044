//! A three-state failure gate, one per upstream service.
//!
//! Times are readings of one monotonic clock, in nanoseconds.

use crate::clock::{elapsed, elapsed_between, Clock};
use vstd::prelude::*;

verus! {

/// How long an open breaker rejects calls before it admits a trial: 60 s.
pub const DEFAULT_TIMEOUT: u64 = 60_000_000_000;

/// The successes that close a half-open breaker.
pub const HALF_OPEN_SUCCESS_THRESHOLD: u32 = 3;

/// The trial calls a half-open breaker is meant to admit at a time.
pub const HALF_OPEN_MAX_CALLS: u32 = 5;

#[derive(Debug, Clone, Copy, PartialEq, Eq, Structural)]
pub enum CircuitBreakerState {
    Closed,
    Open,
    HalfOpen,
}

/// A breaker as mathematical values.
pub struct BreakerView {
    pub state: CircuitBreakerState,
    pub failure_count: nat,
    pub success_count: nat,
    pub last_failure_time: Option<nat>,
    pub failure_threshold: nat,
    pub timeout: nat,
    pub half_open_max_calls: nat,
    pub half_open_success_threshold: nat,
}

impl BreakerView {
    /// A closed breaker with no failures on record.
    pub open spec fn fresh(failure_threshold: nat) -> BreakerView {
        BreakerView {
            state: CircuitBreakerState::Closed,
            failure_count: 0,
            success_count: 0,
            last_failure_time: None,
            failure_threshold,
            timeout: DEFAULT_TIMEOUT as nat,
            half_open_max_calls: HALF_OPEN_MAX_CALLS as nat,
            half_open_success_threshold: HALF_OPEN_SUCCESS_THRESHOLD as nat,
        }
    }

    /// The timeout has run out since the last failure.
    pub open spec fn reset_due(self, now: nat) -> bool {
        match self.last_failure_time {
            Some(at) => elapsed_between(at, now) >= self.timeout,
            None => false,
        }
    }

    /// What a probe at `now` answers: open while the breaker is open and the
    /// timeout has not run out.
    pub open spec fn is_open_at(self, now: nat) -> bool {
        self.state == CircuitBreakerState::Open && !self.reset_due(now)
    }

    /// The breaker after a probe at `now`: an open breaker whose timeout has
    /// run out becomes half-open with no successes; any other stays as it is.
    pub open spec fn after_probe(self, now: nat) -> BreakerView {
        if self.state == CircuitBreakerState::Open && self.reset_due(now) {
            BreakerView { state: CircuitBreakerState::HalfOpen, success_count: 0, ..self }
        } else {
            self
        }
    }

    /// The breaker after a success.
    pub open spec fn after_success(self) -> BreakerView {
        match self.state {
            CircuitBreakerState::Closed => BreakerView { failure_count: 0, ..self },
            CircuitBreakerState::HalfOpen => {
                if self.success_count + 1 >= self.half_open_success_threshold {
                    BreakerView {
                        state: CircuitBreakerState::Closed,
                        failure_count: 0,
                        success_count: 0,
                        ..self
                    }
                } else {
                    BreakerView { success_count: self.success_count + 1, ..self }
                }
            },
            CircuitBreakerState::Open => self,
        }
    }

    /// The breaker after a failure at `now`.
    pub open spec fn after_failure(self, now: nat) -> BreakerView {
        match self.state {
            CircuitBreakerState::Closed => {
                if self.failure_count + 1 >= self.failure_threshold {
                    BreakerView {
                        state: CircuitBreakerState::Open,
                        failure_count: self.failure_count + 1,
                        success_count: 0,
                        last_failure_time: Some(now),
                        ..self
                    }
                } else {
                    BreakerView {
                        failure_count: self.failure_count + 1,
                        last_failure_time: Some(now),
                        ..self
                    }
                }
            },
            CircuitBreakerState::HalfOpen => BreakerView {
                state: CircuitBreakerState::Open,
                success_count: 0,
                last_failure_time: Some(now),
                ..self
            },
            CircuitBreakerState::Open => BreakerView { last_failure_time: Some(now), ..self },
        }
    }

    /// The counters stay within what the thresholds allow, and the half-open
    /// limits are the fixed ones.
    pub open spec fn bounded(self) -> bool {
        &&& self.state == CircuitBreakerState::Closed ==> self.failure_count == 0
            || self.failure_count < self.failure_threshold
        &&& self.state == CircuitBreakerState::HalfOpen ==> self.success_count
            < self.half_open_success_threshold
        &&& self.half_open_success_threshold == HALF_OPEN_SUCCESS_THRESHOLD
        &&& self.half_open_max_calls == HALF_OPEN_MAX_CALLS
    }
}

#[derive(Clone, Copy)]
pub struct CircuitBreaker {
    state: CircuitBreakerState,
    failure_count: u32,
    success_count: u32,
    last_failure_time: Option<u64>,
    failure_threshold: u32,
    timeout: u64,
    half_open_max_calls: u32,
    half_open_success_threshold: u32,
    clock: Clock,
}

impl View for CircuitBreaker {
    type V = BreakerView;

    closed spec fn view(&self) -> BreakerView {
        BreakerView {
            state: self.state,
            failure_count: self.failure_count as nat,
            success_count: self.success_count as nat,
            last_failure_time: match self.last_failure_time {
                Some(at) => Some(at as nat),
                None => None,
            },
            failure_threshold: self.failure_threshold as nat,
            timeout: self.timeout as nat,
            half_open_max_calls: self.half_open_max_calls as nat,
            half_open_success_threshold: self.half_open_success_threshold as nat,
        }
    }
}

impl CircuitBreaker {
    /// The counters stay within what the thresholds allow.
    #[verifier::type_invariant]
    pub closed spec fn wf(&self) -> bool {
        self@.bounded()
    }

    /// A well-formed breaker has bounded counters.
    pub proof fn lemma_bounded(&self)
        requires
            self.wf(),
        ensures
            self@.bounded(),
    {
    }

    /// A closed breaker that opens after `failure_threshold` failures in a
    /// row and rejects calls for a minute.
    pub fn new(failure_threshold: u32) -> (breaker: Self)
        ensures
            breaker@ == BreakerView::fresh(failure_threshold as nat),
    {
        CircuitBreaker {
            state: CircuitBreakerState::Closed,
            failure_count: 0,
            success_count: 0,
            last_failure_time: None,
            failure_threshold,
            timeout: DEFAULT_TIMEOUT,
            half_open_max_calls: HALF_OPEN_MAX_CALLS,
            half_open_success_threshold: HALF_OPEN_SUCCESS_THRESHOLD,
            clock: Clock::new(),
        }
    }

    /// The same breaker with another timeout, in nanoseconds.
    pub fn with_timeout(self, timeout: u64) -> (breaker: Self)
        ensures
            breaker@ == (BreakerView { timeout: timeout as nat, ..self@ }),
    {
        proof {
            use_type_invariant(&self);
        }
        CircuitBreaker {
            state: self.state,
            failure_count: self.failure_count,
            success_count: self.success_count,
            last_failure_time: self.last_failure_time,
            failure_threshold: self.failure_threshold,
            timeout,
            half_open_max_calls: self.half_open_max_calls,
            half_open_success_threshold: self.half_open_success_threshold,
            clock: self.clock,
        }
    }

    /// The reading of this breaker's own clock.
    pub fn now(&self) -> u64 {
        self.clock.now()
    }

    /// Whether the timeout has run out since the last failure.
    fn should_attempt_reset(&self, now: u64) -> (due: bool)
        ensures
            due == self@.reset_due(now as nat),
    {
        match self.last_failure_time {
            Some(at) => elapsed(at, now) >= self.timeout,
            None => false,
        }
    }

    fn transition_to_open(&mut self)
        ensures
            final(self)@ == (if old(self)@.state == CircuitBreakerState::Open {
                old(self)@
            } else {
                BreakerView { state: CircuitBreakerState::Open, success_count: 0, ..old(self)@ }
            }),
    {
        proof {
            use_type_invariant(&*self);
        }
        if self.state != CircuitBreakerState::Open {
            self.success_count = 0;
            self.state = CircuitBreakerState::Open;
        }
    }

    fn transition_to_half_open(&mut self)
        ensures
            final(self)@ == (if old(self)@.state == CircuitBreakerState::Open {
                BreakerView { state: CircuitBreakerState::HalfOpen, success_count: 0, ..old(self)@ }
            } else {
                old(self)@
            }),
    {
        proof {
            use_type_invariant(&*self);
        }
        if self.state == CircuitBreakerState::Open {
            self.success_count = 0;
            self.state = CircuitBreakerState::HalfOpen;
        }
    }

    fn transition_to_closed(&mut self)
        ensures
            final(self)@ == (BreakerView {
                state: CircuitBreakerState::Closed,
                failure_count: 0,
                success_count: 0,
                ..old(self)@
            }),
    {
        proof {
            use_type_invariant(&*self);
        }
        self.failure_count = 0;
        self.success_count = 0;
        self.state = CircuitBreakerState::Closed;
    }

    /// Probes the breaker at `now`: tells whether calls are rejected, and
    /// lets an open breaker whose timeout has run out become half-open.
    pub fn is_open_at(&mut self, now: u64) -> (open: bool)
        ensures
            open == old(self)@.is_open_at(now as nat),
            final(self)@ == old(self)@.after_probe(now as nat),
    {
        match self.state {
            CircuitBreakerState::Open => {
                if self.should_attempt_reset(now) {
                    self.transition_to_half_open();
                    false
                } else {
                    true
                }
            },
            CircuitBreakerState::HalfOpen => false,
            CircuitBreakerState::Closed => false,
        }
    }

    /// Probes the breaker at the present reading of its clock.
    pub fn is_open(&mut self) -> (open: bool)
        ensures
            exists|now: nat|
                open == old(self)@.is_open_at(now) && final(self)@ == #[trigger] old(
                    self,
                )@.after_probe(now),
    {
        let now = self.clock.now();
        self.is_open_at(now)
    }

    /// Counts a success.
    pub fn record_success(&mut self)
        ensures
            final(self)@ == old(self)@.after_success(),
    {
        proof {
            use_type_invariant(&*self);
        }
        match self.state {
            CircuitBreakerState::Closed => {
                self.failure_count = 0;
            },
            CircuitBreakerState::HalfOpen => {
                if self.success_count + 1 >= self.half_open_success_threshold {
                    self.transition_to_closed();
                } else {
                    self.success_count = self.success_count + 1;
                }
            },
            CircuitBreakerState::Open => {},
        }
    }

    /// Counts a failure that happened at `now`.
    pub fn record_failure_at(&mut self, now: u64)
        ensures
            final(self)@ == old(self)@.after_failure(now as nat),
    {
        proof {
            use_type_invariant(&*self);
        }
        match self.state {
            CircuitBreakerState::Closed => {
                let failures: u32 = self.failure_count + 1;
                if failures >= self.failure_threshold {
                    self.success_count = 0;
                    self.state = CircuitBreakerState::Open;
                    self.failure_count = failures;
                    self.last_failure_time = Some(now);
                } else {
                    self.failure_count = failures;
                    self.last_failure_time = Some(now);
                }
            },
            CircuitBreakerState::HalfOpen => {
                self.transition_to_open();
                self.last_failure_time = Some(now);
            },
            CircuitBreakerState::Open => {
                self.last_failure_time = Some(now);
            },
        }
    }

    /// Counts a failure that happened just now by this breaker's clock.
    pub fn record_failure(&mut self)
        ensures
            exists|now: nat| final(self)@ == #[trigger] old(self)@.after_failure(now),
    {
        let now = self.clock.now();
        self.record_failure_at(now);
    }

    pub fn get_state(&self) -> (state: CircuitBreakerState)
        ensures
            state == self@.state,
    {
        self.state
    }

    pub fn get_failure_count(&self) -> (count: u32)
        ensures
            count == self@.failure_count,
    {
        self.failure_count
    }

    pub fn get_success_count(&self) -> (count: u32)
        ensures
            count == self@.success_count,
    {
        self.success_count
    }
}

} // verus!
