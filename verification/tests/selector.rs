use ai_sidecar_proxy::ai::{
    calculate_endpoint_score, AIEngine, RequestMetrics, ServiceHealth, NEUTRAL_SCORE, UNIT,
};

fn sample(endpoint: &str, latency_ms: u64, success: bool) -> RequestMetrics {
    RequestMetrics {
        latency_ms,
        status_code: if success { 200 } else { 503 },
        endpoint: endpoint.to_string(),
        timestamp: 1_700_000_000,
        success,
    }
}

fn names(list: &[&str]) -> Vec<String> {
    list.iter().map(|s| s.to_string()).collect()
}

fn as_real(billionths: u64) -> f64 {
    billionths as f64 / 1e9
}

#[test]
fn selector_prefers_lower_latency() {
    let mut engine = AIEngine::new();
    // One sample of 1000 ms gives an average of 100 ms, one of 5000 ms gives 500 ms.
    engine.record_request(sample("A", 1000, true));
    engine.record_request(sample("B", 5000, true));
    let a = engine.get_service_health("A").unwrap();
    let b = engine.get_service_health("B").unwrap();
    assert_eq!(a.avg_latency_us, 100_000);
    assert_eq!(b.avg_latency_us, 500_000);
    assert_eq!(a.success_rate, UNIT);
    assert_eq!(b.success_rate, UNIT);
    let decision = engine.select_endpoint("svc", &names(&["A", "B"]));
    assert_eq!(decision.selected_endpoint, "A");
    assert_eq!(decision.confidence, 963_636_363);
    assert!((as_real(decision.confidence) - 0.964).abs() < 0.001);
    assert_eq!(decision.fallback_endpoints, names(&["B"]));
    assert_eq!(
        decision.reasoning,
        "Selected A with score 0.964 based on success rate and latency analysis"
    );
}

#[test]
fn selector_prefers_success_rate_over_speed() {
    let a = ServiceHealth {
        endpoint: "A".to_string(),
        success_rate: UNIT / 2,
        avg_latency_us: 50_000,
        error_count: 1,
        total_requests: 2,
        last_updated: 0,
    };
    let b = ServiceHealth {
        endpoint: "B".to_string(),
        success_rate: UNIT,
        avg_latency_us: 500_000,
        error_count: 0,
        total_requests: 2,
        last_updated: 0,
    };
    let score_a = calculate_endpoint_score(&a);
    let score_b = calculate_endpoint_score(&b);
    assert!((as_real(score_a) - 0.681).abs() < 0.001);
    assert!((as_real(score_b) - 0.867).abs() < 0.001);
    assert_eq!(score_a, 680_952_380);
    assert_eq!(score_b, 866_666_666);

    // The same two records, reached through observations.
    let mut engine = AIEngine::new();
    engine.record_request(sample("A", 0, false));
    engine.record_request(sample("A", 500, true));
    engine.record_request(sample("B", 5000, true));
    let a = engine.get_service_health("A").unwrap();
    assert_eq!(a.success_rate, UNIT / 2);
    assert_eq!(a.avg_latency_us, 50_000);
    let decision = engine.select_endpoint("svc", &names(&["A", "B"]));
    assert_eq!(decision.selected_endpoint, "B");
    assert_eq!(decision.confidence, 866_666_666);
    assert_eq!(decision.fallback_endpoints, names(&["A"]));
}

#[test]
fn selector_prefers_unknown_to_known_bad() {
    let bad = ServiceHealth {
        endpoint: "B".to_string(),
        success_rate: UNIT / 10,
        avg_latency_us: 2_000_000,
        error_count: 9,
        total_requests: 10,
        last_updated: 0,
    };
    let score = calculate_endpoint_score(&bad);
    assert!((as_real(score) - 0.193).abs() < 0.001);
    assert_eq!(score, 193_333_333);

    let mut engine = AIEngine::new();
    for _ in 0..9 {
        engine.record_request(sample("B", 20_000, false));
    }
    engine.record_request(sample("B", 20_000, true));
    let b = engine.get_service_health("B").unwrap();
    assert_eq!(b.error_count, 9);
    assert_eq!(b.total_requests, 10);
    assert_eq!(b.success_rate, UNIT / 10);
    let decision = engine.select_endpoint("svc", &names(&["B", "A"]));
    assert_eq!(decision.selected_endpoint, "A");
    assert_eq!(decision.confidence, NEUTRAL_SCORE);
    assert_eq!(decision.fallback_endpoints, names(&["B"]));
}

#[test]
fn selector_answers_empty_input_with_empty_decision() {
    let engine = AIEngine::new();
    let decision = engine.select_endpoint("svc", &[]);
    assert_eq!(decision.selected_endpoint, "");
    assert_eq!(decision.confidence, 0);
    assert_eq!(decision.reasoning, "No available endpoints");
    assert!(decision.fallback_endpoints.is_empty());
}

#[test]
fn selector_breaks_ties_by_input_order() {
    let engine = AIEngine::new();
    let decision = engine.select_endpoint("svc", &names(&["x", "y", "z"]));
    assert_eq!(decision.selected_endpoint, "x");
    assert_eq!(decision.confidence, NEUTRAL_SCORE);
    assert_eq!(decision.fallback_endpoints, names(&["y", "z"]));
    assert_eq!(
        decision.reasoning,
        "Selected x with score 0.500 based on success rate and latency analysis"
    );
}

#[test]
fn selector_sorts_fallbacks_by_descending_score() {
    let mut engine = AIEngine::new();
    engine.record_request(sample("slow", 9000, true));
    engine.record_request(sample("fast", 10, true));
    engine.record_request(sample("mid", 3000, true));
    engine.record_request(sample("down", 10, false));
    let input = names(&["down", "slow", "new", "mid", "fast"]);
    let decision = engine.select_endpoint("svc", &input);
    assert_eq!(decision.selected_endpoint, "fast");
    assert_eq!(decision.fallback_endpoints, names(&["mid", "slow", "new", "down"]));
    // The chosen endpoint and the fallbacks together are the input.
    let mut all = decision.fallback_endpoints.clone();
    all.push(decision.selected_endpoint.clone());
    all.sort();
    let mut expected = input.clone();
    expected.sort();
    assert_eq!(all, expected);
}

#[test]
fn selector_lists_a_repeated_endpoint_once() {
    let mut engine = AIEngine::new();
    engine.record_request(sample("b", 100, true));
    let decision = engine.select_endpoint("svc", &names(&["a", "b", "a", "b", "c"]));
    assert_eq!(decision.selected_endpoint, "b");
    assert_eq!(decision.fallback_endpoints, names(&["a", "c"]));
}

#[test]
fn selector_gives_the_same_answer_twice() {
    let mut engine = AIEngine::new();
    engine.record_request(sample("A", 120, true));
    engine.record_request(sample("B", 80, false));
    let input = names(&["B", "A", "C"]);
    let first = engine.select_endpoint("svc", &input);
    let second = engine.select_endpoint("svc", &input);
    assert_eq!(first.selected_endpoint, second.selected_endpoint);
    assert_eq!(first.confidence, second.confidence);
    assert_eq!(first.fallback_endpoints, second.fallback_endpoints);
    assert_eq!(first.reasoning, second.reasoning);
}

#[test]
fn health_record_keeps_rate_in_step_with_counters() {
    let mut engine = AIEngine::new();
    let outcomes = [true, false, true, true, false, false, true];
    let mut errors = 0u32;
    for (i, ok) in outcomes.iter().enumerate() {
        engine.record_request(sample("e", 10 * i as u64, *ok));
        if !ok {
            errors += 1;
        }
        let record = engine.get_service_health("e").unwrap();
        assert_eq!(record.total_requests, i as u32 + 1);
        assert_eq!(record.error_count, errors);
        assert!(record.error_count <= record.total_requests);
        let exact = 1.0 - record.error_count as f64 / record.total_requests as f64;
        assert!((as_real(record.success_rate) - exact).abs() < 1e-9);
    }
    let record = engine.get_service_health("e").unwrap();
    assert_eq!(record.success_rate, 571_428_571);
}

#[test]
fn first_observation_gives_a_tenth_of_the_sample() {
    let mut engine = AIEngine::new();
    engine.record_request(sample("e", 250, true));
    let record = engine.get_service_health("e").unwrap();
    assert_eq!(record.avg_latency_us, 25_000);
    engine.record_request(sample("e", 1000, true));
    let record = engine.get_service_health("e").unwrap();
    // 0.1 * 1000 ms + 0.9 * 25 ms = 122.5 ms
    assert_eq!(record.avg_latency_us, 122_500);
    assert_eq!(record.last_updated, 1_700_000_000);
}

#[test]
fn first_observation_is_exact_for_the_largest_sample() {
    let mut engine = AIEngine::new();
    engine.record_request(sample("e", u64::MAX, false));
    let record = engine.get_service_health("e").unwrap();
    assert_eq!(record.avg_latency_us, 100 * u64::MAX as u128);
    assert_eq!(record.total_requests, 1);
    assert_eq!(record.error_count, 1);
    assert_eq!(record.last_updated, 1_700_000_000);
    engine.record_request(sample("e", u64::MAX, true));
    let record = engine.get_service_health("e").unwrap();
    assert_eq!(record.avg_latency_us, 190 * u64::MAX as u128);
    assert_eq!(engine.adaptive_timeout("e"), 30_000);
    let decision = engine.select_endpoint("svc", &names(&["e"]));
    assert_eq!(decision.confidence, 300_000_000);
}

#[test]
fn adaptive_timeout_is_twice_the_average_within_limits() {
    let mut engine = AIEngine::new();
    assert_eq!(engine.adaptive_timeout("unknown"), 5000);
    // average 100 ms: twice that is under the base timeout
    engine.record_request(sample("quick", 1000, true));
    assert_eq!(engine.adaptive_timeout("quick"), 5000);
    // average 4000 ms: 8000 ms
    engine.record_request(sample("slow", 40_000, true));
    assert_eq!(engine.adaptive_timeout("slow"), 8000);
    // average 20 s: capped at 30 s
    engine.record_request(sample("stuck", 200_000, true));
    assert_eq!(engine.adaptive_timeout("stuck"), 30_000);
    // an average of zero counts as no latency known
    engine.record_request(sample("zero", 0, true));
    assert_eq!(engine.adaptive_timeout("zero"), 5000);
}

#[test]
fn circuit_break_hint_needs_errors_and_low_rate() {
    let mut engine = AIEngine::new();
    assert!(!engine.should_circuit_break("e", 0));
    engine.record_request(sample("e", 10, false));
    engine.record_request(sample("e", 10, false));
    engine.record_request(sample("e", 10, true));
    assert!(engine.should_circuit_break("e", 2));
    assert!(!engine.should_circuit_break("e", 3));
    engine.record_request(sample("e", 10, true));
    // rate is exactly one half now, which is not under one half
    assert!(!engine.should_circuit_break("e", 2));
}

#[test]
fn all_records_come_in_order_of_first_observation() {
    let mut engine = AIEngine::new();
    engine.record_request(sample("b", 10, true));
    engine.record_request(sample("a", 10, true));
    engine.record_request(sample("b", 10, false));
    let all = engine.get_all_service_health();
    let listed: Vec<&str> = all.iter().map(|h| h.endpoint.as_str()).collect();
    assert_eq!(listed, vec!["b", "a"]);
    assert_eq!(all[0].total_requests, 2);
    assert_eq!(all[0].error_count, 1);
    assert!(engine.get_service_health("c").is_none());
}
