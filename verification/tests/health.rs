use ai_sidecar_proxy::ai::AIEngine;
use ai_sidecar_proxy::config::{Config, UpstreamService};
use ai_sidecar_proxy::health_checker::{probe_is_healthy, HealthChecker};
use ai_sidecar_proxy::table::Table;

fn service(name: &str, endpoints: &[&str], path: &str) -> UpstreamService {
    UpstreamService {
        name: name.to_string(),
        endpoints: endpoints.iter().map(|e| e.to_string()).collect(),
        health_check_path: path.to_string(),
        timeout_ms: 5000,
        max_retries: 3,
        circuit_breaker_threshold: 5,
    }
}

fn checker() -> HealthChecker {
    let mut services = Table::new();
    services.insert("one", service("one", &["http://a", "http://b"], "/health"));
    services.insert("two", service("two", &["http://c"], "/ping"));
    services.insert("none", service("none", &[], "/health"));
    HealthChecker::new(services)
}

#[test]
fn probes_of_a_round_visit_every_endpoint_in_order() {
    let checker = checker();
    let targets = checker.start_health_checks();
    let listed: Vec<(String, String)> = targets
        .iter()
        .map(|t| (t.endpoint.clone(), t.url.clone()))
        .collect();
    assert_eq!(
        listed,
        vec![
            ("http://a".to_string(), "http://a/health".to_string()),
            ("http://b".to_string(), "http://b/health".to_string()),
            ("http://c".to_string(), "http://c/ping".to_string()),
        ]
    );
    let forced = checker.force_health_check("two");
    assert_eq!(forced.len(), 1);
    assert_eq!(forced[0].url, "http://c/ping");
    assert!(checker.force_health_check("unknown").is_empty());
    assert!(checker.force_health_check("none").is_empty());
}

#[test]
fn only_a_2xx_answer_counts_as_healthy() {
    assert!(probe_is_healthy(Some(200)));
    assert!(probe_is_healthy(Some(204)));
    assert!(probe_is_healthy(Some(299)));
    assert!(!probe_is_healthy(Some(199)));
    assert!(!probe_is_healthy(Some(300)));
    assert!(!probe_is_healthy(Some(404)));
    assert!(!probe_is_healthy(Some(503)));
    assert!(!probe_is_healthy(None));
}

#[test]
fn probe_outcomes_build_runs_and_feed_the_health_table() {
    let mut checker = checker();
    let mut engine = AIEngine::new();
    assert!(checker.get_health_status("http://a").is_none());
    assert!(checker.is_endpoint_healthy("http://a"));

    checker.record_probe(&mut engine, "http://a", true, 20, 1000);
    checker.record_probe(&mut engine, "http://a", true, 30, 1030);
    let status = checker.get_health_status("http://a").unwrap();
    assert!(status.is_healthy);
    assert_eq!(status.endpoint, "http://a");
    assert_eq!(status.last_check, 1030);
    assert_eq!(status.response_time_ms, 30);
    assert_eq!(status.consecutive_successes, 2);
    assert_eq!(status.consecutive_failures, 0);

    checker.record_probe(&mut engine, "http://a", false, 10_000, 1060);
    let status = checker.get_health_status("http://a").unwrap();
    assert!(!status.is_healthy);
    assert_eq!(status.consecutive_successes, 0);
    assert_eq!(status.consecutive_failures, 1);
    assert!(!checker.is_endpoint_healthy("http://a"));

    let record = engine.get_service_health("http://a").unwrap();
    assert_eq!(record.total_requests, 3);
    assert_eq!(record.error_count, 1);
    assert_eq!(record.last_updated, 1060);
    // 0.1 * 20 ms, then 0.1 * 30 + 0.9 * 2, then 0.1 * 10000 + 0.9 * 4.8
    assert_eq!(record.avg_latency_us, 1_004_320);
}

#[test]
fn healthy_endpoints_include_the_ones_never_probed() {
    let mut checker = checker();
    let mut engine = AIEngine::new();
    assert_eq!(checker.get_healthy_endpoints("one"), vec!["http://a", "http://b"]);
    checker.record_probe(&mut engine, "http://a", false, 5, 1);
    assert_eq!(checker.get_healthy_endpoints("one"), vec!["http://b"]);
    checker.record_probe(&mut engine, "http://b", true, 5, 1);
    assert_eq!(checker.get_healthy_endpoints("one"), vec!["http://b"]);
    checker.record_probe(&mut engine, "http://a", true, 5, 2);
    assert_eq!(checker.get_healthy_endpoints("one"), vec!["http://a", "http://b"]);
    assert!(checker.get_healthy_endpoints("unknown").is_empty());
    assert!(checker.get_healthy_endpoints("none").is_empty());
}

#[test]
fn forced_probe_is_booked_like_a_periodic_one() {
    let mut checker = checker();
    let mut engine = AIEngine::new();
    checker.record_probe(&mut engine, "http://c", true, 5, 10);
    checker.record_forced_probe(&mut engine, "two", "http://c", false, 77, 20);
    let status = checker.get_health_status("http://c").unwrap();
    assert!(!status.is_healthy);
    assert_eq!(status.last_check, 20);
    assert_eq!(status.response_time_ms, 77);
    assert_eq!(status.consecutive_successes, 0);
    assert_eq!(status.consecutive_failures, 1);
    let record = engine.get_service_health("http://c").unwrap();
    assert_eq!(record.total_requests, 2);
    assert_eq!(record.error_count, 1);
    assert_eq!(record.last_updated, 20);

    checker.record_forced_probe(&mut engine, "one", "http://a", true, 3, 30);
    let status = checker.get_health_status("http://a").unwrap();
    assert!(status.is_healthy);
    assert_eq!(status.consecutive_successes, 1);
    assert_eq!(status.consecutive_failures, 0);
    assert_eq!(engine.get_service_health("http://a").unwrap().total_requests, 1);
    assert!(checker.get_health_status("http://b").is_none());
}

#[test]
fn forced_probe_of_an_unknown_service_changes_nothing() {
    let mut checker = checker();
    let mut engine = AIEngine::new();
    checker.record_forced_probe(&mut engine, "unknown", "http://a", false, 1, 1);
    checker.record_forced_probe(&mut engine, "two", "http://a", false, 1, 1);
    checker.record_forced_probe(&mut engine, "none", "http://a", false, 1, 1);
    assert!(checker.get_all_health_status().is_empty());
    assert!(engine.get_all_service_health().is_empty());
    assert!(checker.lists_endpoint("one", "http://a"));
    assert!(!checker.lists_endpoint("one", "http://c"));
    assert!(!checker.lists_endpoint("unknown", "http://a"));
}

#[test]
fn marking_unhealthy_counts_as_a_failure() {
    let mut checker = checker();
    let mut engine = AIEngine::new();
    checker.mark_endpoint_unhealthy("http://a");
    assert!(checker.get_health_status("http://a").is_none());
    assert!(checker.is_endpoint_healthy("http://a"));
    checker.record_probe(&mut engine, "http://a", true, 5, 10);
    checker.mark_endpoint_unhealthy("http://a");
    let status = checker.get_health_status("http://a").unwrap();
    assert!(!status.is_healthy);
    assert_eq!(status.consecutive_failures, 1);
    assert_eq!(status.consecutive_successes, 0);
    assert_eq!(status.last_check, 10);
    checker.mark_endpoint_unhealthy("http://a");
    assert_eq!(checker.get_health_status("http://a").unwrap().consecutive_failures, 2);
}

#[test]
fn at_most_one_run_is_under_way() {
    let mut checker = checker();
    let mut engine = AIEngine::new();
    let outcomes = [true, true, false, true, false, false, false, true];
    for (i, healthy) in outcomes.iter().enumerate() {
        checker.record_probe(&mut engine, "http://a", *healthy, 1, i as u64);
        if i % 3 == 0 {
            checker.mark_endpoint_unhealthy("http://a");
        }
        for status in checker.get_all_health_status() {
            assert!(status.consecutive_failures == 0 || status.consecutive_successes == 0);
        }
    }
    let all = checker.get_all_health_status();
    assert_eq!(all.len(), 1);
    assert_eq!(all[0].endpoint, "http://a");
}

#[test]
fn built_in_configuration_has_two_local_services() {
    let config = Config::new();
    assert_eq!(config.upstream_services.len(), 2);
    let a = config.upstream_services.get("service-a").unwrap();
    assert_eq!(a.name, "service-a");
    assert_eq!(a.endpoints, vec!["http://localhost:3001"]);
    assert_eq!(a.health_check_path, "/health");
    assert_eq!(a.timeout_ms, 5000);
    assert_eq!(a.max_retries, 3);
    assert_eq!(a.circuit_breaker_threshold, 5);
    let b = config.upstream_services.get("service-b").unwrap();
    assert_eq!(b.name, "service-b");
    assert_eq!(b.endpoints, vec!["http://localhost:3002"]);
    assert_eq!(config.upstream_services.key_at(0), "service-a");
    assert_eq!(config.upstream_services.key_at(1), "service-b");
    assert!(config.ai_config.enabled);
    assert_eq!(config.ai_config.decision_threshold, 700_000_000);
    assert_eq!(config.ai_config.learning_rate, 10_000_000);
    assert_eq!(config.ai_config.model_update_interval_ms, 60000);
    assert_eq!(config.proxy_config.max_connections, 10000);
    assert_eq!(config.proxy_config.connection_timeout_ms, 30000);
    assert_eq!(config.proxy_config.request_timeout_ms, 30000);
    assert_eq!(config.proxy_config.buffer_size, 8192);
    assert!(config.metrics_config.enabled);
    assert_eq!(config.metrics_config.port, 9090);
    assert_eq!(config.metrics_config.path, "/metrics");
    let copy = a.clone();
    assert_eq!(copy.endpoints, a.endpoints);
}
