use ai_sidecar_proxy::load_balancer::{select_by_hash, LoadBalancer, LoadBalancingStrategy};

fn names(list: &[&str]) -> Vec<String> {
    list.iter().map(|s| s.to_string()).collect()
}

#[test]
fn round_robin_takes_turns_per_service() {
    let mut balancer = LoadBalancer::new();
    let endpoints = names(&["a", "b", "c"]);
    let picks: Vec<String> = (0..7)
        .map(|_| balancer.select_endpoint("svc", &endpoints).unwrap())
        .collect();
    assert_eq!(picks, names(&["a", "b", "c", "a", "b", "c", "a"]));
    // another service has a counter of its own
    assert_eq!(balancer.select_endpoint("other", &endpoints).unwrap(), "a");
    // the counter goes on when the list changes
    assert_eq!(balancer.select_endpoint("svc", &names(&["x", "y"])).unwrap(), "y");
    assert!(balancer.select_endpoint("svc", &[]).is_none());
    assert_eq!(balancer.select_endpoint("svc", &names(&["x", "y"])).unwrap(), "x");
}

#[test]
fn weighted_round_robin_is_round_robin() {
    let mut balancer = LoadBalancer::with_strategy(LoadBalancingStrategy::WeightedRoundRobin);
    let endpoints = names(&["a", "b"]);
    let picks: Vec<String> = (0..4)
        .map(|_| balancer.select_endpoint("svc", &endpoints).unwrap())
        .collect();
    assert_eq!(picks, names(&["a", "b", "a", "b"]));
}

#[test]
fn least_connections_picks_the_first_minimum() {
    let mut balancer = LoadBalancer::with_strategy(LoadBalancingStrategy::LeastConnections);
    let endpoints = names(&["a", "b", "c"]);
    assert_eq!(balancer.select_endpoint("svc", &endpoints).unwrap(), "a");
    balancer.increment_connections("a");
    balancer.increment_connections("a");
    balancer.increment_connections("b");
    assert_eq!(balancer.get_connection_count("a"), 2);
    assert_eq!(balancer.get_connection_count("b"), 1);
    assert_eq!(balancer.get_connection_count("c"), 0);
    assert_eq!(balancer.select_endpoint("svc", &endpoints).unwrap(), "c");
    balancer.increment_connections("c");
    assert_eq!(balancer.select_endpoint("svc", &endpoints).unwrap(), "b");
    balancer.decrement_connections("a");
    balancer.decrement_connections("a");
    assert_eq!(balancer.select_endpoint("svc", &endpoints).unwrap(), "a");
    assert!(balancer.select_endpoint("svc", &[]).is_none());
}

#[test]
fn decrement_ignores_unknown_endpoints_and_stops_at_zero() {
    let mut balancer = LoadBalancer::new();
    balancer.decrement_connections("never");
    assert_eq!(balancer.get_connection_count("never"), 0);
    balancer.increment_connections("e");
    balancer.decrement_connections("e");
    assert_eq!(balancer.get_connection_count("e"), 0);
    balancer.decrement_connections("e");
    assert_eq!(balancer.get_connection_count("e"), 0);
    balancer.increment_connections("e");
    assert_eq!(balancer.get_connection_count("e"), 1);
}

#[test]
fn random_picks_a_member() {
    let mut balancer = LoadBalancer::with_strategy(LoadBalancingStrategy::Random);
    let endpoints = names(&["a", "b", "c"]);
    for _ in 0..50 {
        let pick = balancer.select_endpoint("svc", &endpoints).unwrap();
        assert!(endpoints.contains(&pick));
    }
    assert!(balancer.select_endpoint("svc", &[]).is_none());
}

#[test]
fn hash_picks_by_remainder() {
    let endpoints = names(&["a", "b", "c"]);
    assert_eq!(select_by_hash(&endpoints, 0).unwrap(), "a");
    assert_eq!(select_by_hash(&endpoints, 1).unwrap(), "b");
    assert_eq!(select_by_hash(&endpoints, 5).unwrap(), "c");
    assert_eq!(select_by_hash(&endpoints, 300).unwrap(), "a");
    assert!(select_by_hash(&[], 7).is_none());
}
