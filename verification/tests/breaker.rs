use ai_sidecar_proxy::circuit_breaker::{CircuitBreaker, CircuitBreakerState, DEFAULT_TIMEOUT};

const SECOND: u64 = 1_000_000_000;

#[test]
fn circuit_opens_then_half_opens_then_closes() {
    let mut breaker = CircuitBreaker::new(3);
    assert_eq!(breaker.get_state(), CircuitBreakerState::Closed);
    breaker.record_failure_at(1 * SECOND);
    breaker.record_failure_at(2 * SECOND);
    assert_eq!(breaker.get_state(), CircuitBreakerState::Closed);
    assert_eq!(breaker.get_failure_count(), 2);
    breaker.record_failure_at(3 * SECOND);
    assert_eq!(breaker.get_state(), CircuitBreakerState::Open);
    assert!(breaker.is_open_at(3 * SECOND));
    assert!(breaker.is_open_at(62 * SECOND));
    assert_eq!(breaker.get_state(), CircuitBreakerState::Open);
    // 60 s after the last failure
    assert!(!breaker.is_open_at(63 * SECOND));
    assert_eq!(breaker.get_state(), CircuitBreakerState::HalfOpen);
    assert_eq!(breaker.get_success_count(), 0);
    breaker.record_success();
    breaker.record_success();
    assert_eq!(breaker.get_state(), CircuitBreakerState::HalfOpen);
    assert_eq!(breaker.get_success_count(), 2);
    breaker.record_success();
    assert_eq!(breaker.get_state(), CircuitBreakerState::Closed);
    assert_eq!(breaker.get_failure_count(), 0);
    assert_eq!(breaker.get_success_count(), 0);
}

#[test]
fn half_open_is_entered_once() {
    let mut breaker = CircuitBreaker::new(1);
    breaker.record_failure_at(0);
    assert!(!breaker.is_open_at(DEFAULT_TIMEOUT));
    assert_eq!(breaker.get_state(), CircuitBreakerState::HalfOpen);
    breaker.record_success();
    assert_eq!(breaker.get_success_count(), 1);
    // a second probe neither answers "open" nor starts the trial over
    assert!(!breaker.is_open_at(DEFAULT_TIMEOUT + 1));
    assert_eq!(breaker.get_state(), CircuitBreakerState::HalfOpen);
    assert_eq!(breaker.get_success_count(), 1);
}

#[test]
fn failure_while_half_open_reopens_from_now() {
    let mut breaker = CircuitBreaker::new(2);
    breaker.record_failure_at(0);
    breaker.record_failure_at(0);
    assert!(!breaker.is_open_at(60 * SECOND));
    breaker.record_success();
    breaker.record_failure_at(61 * SECOND);
    assert_eq!(breaker.get_state(), CircuitBreakerState::Open);
    assert_eq!(breaker.get_success_count(), 0);
    assert!(breaker.is_open_at(120 * SECOND));
    assert!(!breaker.is_open_at(121 * SECOND));
    assert_eq!(breaker.get_state(), CircuitBreakerState::HalfOpen);
}

#[test]
fn success_while_closed_clears_failures() {
    let mut breaker = CircuitBreaker::new(3);
    breaker.record_failure_at(0);
    breaker.record_failure_at(0);
    breaker.record_success();
    assert_eq!(breaker.get_failure_count(), 0);
    breaker.record_failure_at(0);
    breaker.record_failure_at(0);
    assert_eq!(breaker.get_state(), CircuitBreakerState::Closed);
    assert!(!breaker.is_open_at(0));
}

#[test]
fn failure_while_open_restarts_the_timeout() {
    let mut breaker = CircuitBreaker::new(1).with_timeout(10 * SECOND);
    breaker.record_failure_at(0);
    breaker.record_failure_at(5 * SECOND);
    assert_eq!(breaker.get_failure_count(), 1);
    assert!(breaker.is_open_at(10 * SECOND));
    assert!(!breaker.is_open_at(15 * SECOND));
}

#[test]
fn success_while_open_changes_nothing() {
    let mut breaker = CircuitBreaker::new(1);
    breaker.record_failure_at(7);
    breaker.record_success();
    assert_eq!(breaker.get_state(), CircuitBreakerState::Open);
    assert_eq!(breaker.get_failure_count(), 1);
    assert!(breaker.is_open_at(8));
}

#[test]
fn clock_going_backwards_counts_as_no_time() {
    let mut breaker = CircuitBreaker::new(1);
    breaker.record_failure_at(100 * SECOND);
    assert!(breaker.is_open_at(10 * SECOND));
}

#[test]
fn breaker_reads_its_own_clock() {
    let mut breaker = CircuitBreaker::new(1).with_timeout(3600 * SECOND);
    assert!(!breaker.is_open());
    breaker.record_failure();
    assert_eq!(breaker.get_state(), CircuitBreakerState::Open);
    assert!(breaker.is_open());
    let mut quick = CircuitBreaker::new(1).with_timeout(0);
    quick.record_failure();
    assert!(!quick.is_open());
    assert_eq!(quick.get_state(), CircuitBreakerState::HalfOpen);
}
