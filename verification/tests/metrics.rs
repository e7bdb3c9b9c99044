use ai_sidecar_proxy::metrics::{bucket_index, success_share, EndpointMetrics, MetricsCollector};

#[test]
fn unbounded_bucket_shows_as_many_samples_as_requests() {
    let mut metrics = MetricsCollector::new();
    assert_eq!(metrics.get_request_count(), 0);
    assert_eq!(metrics.get_bucket_count(12), 0);
    let latencies = [0u64, 1, 2, 5, 7, 10, 25, 26, 100, 999, 1000, 1001, 10_000, 10_001, u64::MAX];
    for (i, latency) in latencies.iter().enumerate() {
        metrics.record_request_at("e", *latency, i % 2 == 0, 100 + i as u64);
        assert_eq!(metrics.get_request_count(), i as u64 + 1);
        assert_eq!(metrics.get_bucket_count(12), metrics.get_request_count());
    }
    // cumulative counts per bound: 1, 5, 10, 25, 50, 100, 250, 500, 1000, 2500, 5000, 10000 ms
    let shown: Vec<u64> = (0..13).map(|b| metrics.get_bucket_count(b)).collect();
    assert_eq!(shown, vec![2, 4, 6, 7, 8, 9, 9, 9, 11, 12, 12, 13, 15]);
    assert_eq!(metrics.get_bucket_count(13), 0);
}

#[test]
fn durations_fall_into_the_first_bucket_that_holds_them() {
    assert_eq!(bucket_index(0), 0);
    assert_eq!(bucket_index(1), 0);
    assert_eq!(bucket_index(2), 1);
    assert_eq!(bucket_index(5), 1);
    assert_eq!(bucket_index(6), 2);
    assert_eq!(bucket_index(25), 3);
    assert_eq!(bucket_index(50), 4);
    assert_eq!(bucket_index(100), 5);
    assert_eq!(bucket_index(250), 6);
    assert_eq!(bucket_index(500), 7);
    assert_eq!(bucket_index(1000), 8);
    assert_eq!(bucket_index(2500), 9);
    assert_eq!(bucket_index(5000), 10);
    assert_eq!(bucket_index(10_000), 11);
    assert_eq!(bucket_index(10_001), 12);
}

#[test]
fn endpoint_counters_take_each_request_in() {
    let mut metrics = MetricsCollector::new();
    metrics.record_request_at("a", 100, true, 10);
    metrics.record_request_at("b", 50, false, 11);
    metrics.record_request_at("a", 200, false, 12);
    metrics.record_request_at("a", 300, true, 13);
    let stats = metrics.get_endpoint_stats();
    assert_eq!(stats.len(), 2);
    assert_eq!(stats[0].0, "a");
    assert_eq!(stats[1].0, "b");
    let a = stats[0].1;
    assert_eq!(a.total_requests, 3);
    assert_eq!(a.successful_requests, 2);
    assert_eq!(a.failed_requests, 1);
    assert_eq!(a.last_request_time, 13);
    // 10 ms, then 0.1 * 200 + 0.9 * 10 = 29 ms, then 0.1 * 300 + 0.9 * 29 = 56.1 ms
    assert_eq!(a.avg_latency_us, 56_100);
    let b = stats[1].1;
    assert_eq!(b.total_requests, 1);
    assert_eq!(b.successful_requests, 0);
    assert_eq!(b.failed_requests, 1);
    assert_eq!(b.avg_latency_us, 5_000);
    for (_, m) in &stats {
        assert_eq!(m.successful_requests + m.failed_requests, m.total_requests);
    }
}

#[test]
fn exposition_appends_three_families_per_endpoint() {
    let mut metrics = MetricsCollector::new();
    assert_eq!(metrics.get_prometheus_metrics("# registry\n"), "# registry\n");
    metrics.record_request_at("http://a:1", 123, true, 10);
    metrics.record_request_at("http://a:1", 77, true, 10);
    metrics.record_request_at("http://a:1", 5, false, 10);
    metrics.record_request_at("b", 0, false, 10);
    let text = metrics.get_prometheus_metrics("# registry\n");
    let expected = "# registry\n\
# HELP proxy_endpoint_requests_total Total requests per endpoint\n\
# TYPE proxy_endpoint_requests_total counter\n\
proxy_endpoint_requests_total{endpoint=\"http://a:1\"} 3\n\
# HELP proxy_endpoint_success_rate Success rate per endpoint\n\
# TYPE proxy_endpoint_success_rate gauge\n\
proxy_endpoint_success_rate{endpoint=\"http://a:1\"} 0.6667\n\
# HELP proxy_endpoint_avg_latency_ms Average latency per endpoint in milliseconds\n\
# TYPE proxy_endpoint_avg_latency_ms gauge\n\
proxy_endpoint_avg_latency_ms{endpoint=\"http://a:1\"} 17.39\n\
# HELP proxy_endpoint_requests_total Total requests per endpoint\n\
# TYPE proxy_endpoint_requests_total counter\n\
proxy_endpoint_requests_total{endpoint=\"b\"} 1\n\
# HELP proxy_endpoint_success_rate Success rate per endpoint\n\
# TYPE proxy_endpoint_success_rate gauge\n\
proxy_endpoint_success_rate{endpoint=\"b\"} 0.0000\n\
# HELP proxy_endpoint_avg_latency_ms Average latency per endpoint in milliseconds\n\
# TYPE proxy_endpoint_avg_latency_ms gauge\n\
proxy_endpoint_avg_latency_ms{endpoint=\"b\"} 0.00\n";
    assert_eq!(text, expected);
}

#[test]
fn success_share_rounds_to_the_nearest_ten_thousandth() {
    let share = |successes: u64, total: u64| {
        success_share(&EndpointMetrics {
            total_requests: total,
            successful_requests: successes,
            failed_requests: total.saturating_sub(successes),
            avg_latency_us: 0,
            last_request_time: 0,
        })
    };
    assert_eq!(share(0, 0), 0);
    assert_eq!(share(1, 1), 10000);
    assert_eq!(share(1, 3), 3333);
    assert_eq!(share(2, 3), 6667);
    assert_eq!(share(1, 32), 313);
    assert_eq!(share(5, 3), 10000);
    assert_eq!(share(u64::MAX, u64::MAX), 10000);
}

#[test]
fn connection_gauge_goes_up_and_down() {
    let mut metrics = MetricsCollector::new();
    metrics.increment_connections();
    metrics.increment_connections();
    metrics.decrement_connections();
    assert_eq!(metrics.get_active_connections(), 1);
    metrics.decrement_connections();
    metrics.decrement_connections();
    assert_eq!(metrics.get_active_connections(), -1);
}

#[test]
fn recording_by_the_wall_clock_stamps_a_recent_time() {
    let mut metrics = MetricsCollector::new();
    metrics.record_request("e", 10, true);
    let stats = metrics.get_endpoint_stats();
    assert_eq!(stats[0].1.total_requests, 1);
    // after 2020 and before 2100
    assert!(stats[0].1.last_request_time > 1_577_836_800);
    assert!(stats[0].1.last_request_time < 4_102_444_800);
    assert_eq!(metrics.get_request_count(), 1);
}

#[test]
fn durations_add_up() {
    let mut metrics = MetricsCollector::new();
    assert_eq!(metrics.get_duration_sum_ms(), 0);
    metrics.record_request_at("a", 120, true, 1);
    metrics.record_request_at("b", 30, false, 2);
    metrics.record_request_at("a", u64::MAX, true, 3);
    assert_eq!(metrics.get_duration_sum_ms(), 150 + u64::MAX as u128);
    assert_eq!(metrics.get_request_count(), 3);
    assert_eq!(metrics.get_bucket_count(12), 3);
}
