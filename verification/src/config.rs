//! The static configuration that the proxy is started with.

use crate::table::Table;
use crate::text::clone_strings;
use vstd::prelude::*;

verus! {

/// One upstream service: a name and the interchangeable endpoints behind it.
pub struct UpstreamService {
    pub name: String,
    pub endpoints: Vec<String>,
    pub health_check_path: String,
    pub timeout_ms: u64,
    pub max_retries: u32,
    pub circuit_breaker_threshold: u32,
}

/// An upstream service as mathematical values.
pub struct ServiceView {
    pub name: Seq<char>,
    pub endpoints: Seq<Seq<char>>,
    pub health_check_path: Seq<char>,
    pub timeout_ms: u64,
    pub max_retries: u32,
    pub circuit_breaker_threshold: u32,
}

impl View for UpstreamService {
    type V = ServiceView;

    open spec fn view(&self) -> ServiceView {
        ServiceView {
            name: self.name@,
            endpoints: Seq::new(self.endpoints@.len(), |i: int| self.endpoints@[i]@),
            health_check_path: self.health_check_path@,
            timeout_ms: self.timeout_ms,
            max_retries: self.max_retries,
            circuit_breaker_threshold: self.circuit_breaker_threshold,
        }
    }
}

impl Clone for UpstreamService {
    fn clone(&self) -> (copy: Self)
        ensures
            copy@ == self@,
    {
        UpstreamService {
            name: self.name.clone(),
            endpoints: clone_strings(&self.endpoints),
            health_check_path: self.health_check_path.clone(),
            timeout_ms: self.timeout_ms,
            max_retries: self.max_retries,
            circuit_breaker_threshold: self.circuit_breaker_threshold,
        }
    }
}

/// Settings of the selector. The threshold and the rate are in billionths.
#[derive(Debug, Clone, Copy)]
pub struct AIConfig {
    pub enabled: bool,
    pub decision_threshold: u64,
    pub learning_rate: u64,
    pub model_update_interval_ms: u64,
}

#[derive(Debug, Clone, Copy)]
pub struct ProxyConfig {
    pub max_connections: usize,
    pub connection_timeout_ms: u64,
    pub request_timeout_ms: u64,
    pub buffer_size: usize,
}

pub struct MetricsConfig {
    pub enabled: bool,
    pub port: u16,
    pub path: String,
}

pub struct Config {
    pub upstream_services: Table<UpstreamService>,
    pub ai_config: AIConfig,
    pub proxy_config: ProxyConfig,
    pub metrics_config: MetricsConfig,
}

/// A service with one endpoint and the default limits.
pub open spec fn default_service(name: Seq<char>, endpoint: Seq<char>) -> ServiceView {
    ServiceView {
        name,
        endpoints: seq![endpoint],
        health_check_path: "/health"@,
        timeout_ms: 5000,
        max_retries: 3,
        circuit_breaker_threshold: 5,
    }
}

fn make_default_service(name: &str, endpoint: &str) -> (service: UpstreamService)
    ensures
        service@ == default_service(name@, endpoint@),
{
    let mut endpoints: Vec<String> = Vec::new();
    endpoints.push(endpoint.to_owned());
    let service = UpstreamService {
        name: name.to_owned(),
        endpoints,
        health_check_path: "/health".to_owned(),
        timeout_ms: 5000,
        max_retries: 3,
        circuit_breaker_threshold: 5,
    };
    assert(service@.endpoints =~= seq![endpoint@]);
    service
}

impl Config {
    /// The built-in configuration: two services on the local machine, each
    /// with one endpoint.
    pub fn new() -> (config: Self)
        ensures
            config.upstream_services.keys() == seq!["service-a"@, "service-b"@],
            config.upstream_services.values().len() == 2,
            config.upstream_services.values()[0]@ == default_service(
                "service-a"@,
                "http://localhost:3001"@,
            ),
            config.upstream_services.values()[1]@ == default_service(
                "service-b"@,
                "http://localhost:3002"@,
            ),
            config.ai_config.enabled,
            config.ai_config.decision_threshold == 700_000_000,
            config.ai_config.learning_rate == 10_000_000,
            config.ai_config.model_update_interval_ms == 60000,
            config.proxy_config.max_connections == 10000,
            config.proxy_config.connection_timeout_ms == 30000,
            config.proxy_config.request_timeout_ms == 30000,
            config.proxy_config.buffer_size == 8192,
            config.metrics_config.enabled,
            config.metrics_config.port == 9090,
            config.metrics_config.path@ == "/metrics"@,
    {
        let mut upstream_services: Table<UpstreamService> = Table::new();
        upstream_services.insert(
            "service-a",
            make_default_service("service-a", "http://localhost:3001"),
        );
        proof {
            reveal_strlit("service-a");
            reveal_strlit("service-b");
            assert("service-a"@[8] != "service-b"@[8]);
            assert(!upstream_services@.contains_key("service-b"@));
        }
        upstream_services.insert(
            "service-b",
            make_default_service("service-b", "http://localhost:3002"),
        );
        assert(upstream_services.keys() =~= seq!["service-a"@, "service-b"@]);
        Config {
            upstream_services,
            ai_config: AIConfig {
                enabled: true,
                decision_threshold: 700_000_000,
                learning_rate: 10_000_000,
                model_update_interval_ms: 60000,
            },
            proxy_config: ProxyConfig {
                max_connections: 10000,
                connection_timeout_ms: 30000,
                request_timeout_ms: 30000,
                buffer_size: 8192,
            },
            metrics_config: MetricsConfig { enabled: true, port: 9090, path: "/metrics".to_owned() },
        }
    }
}

} // verus!
