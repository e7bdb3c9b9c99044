//! Decision core of a reverse-proxy sidecar: endpoint scoring, circuit
//! breaking, health tracking, rate limiting and request dispatch planning.
//!
//! The crate decides and keeps the books; it opens no socket. A driver reads
//! requests, sends what `proxy::ProxyServer` plans and hands the outcomes
//! back. Every function has a contract over mathematical views of the data,
//! and the modules whose names end in `_laws` state what holds of those
//! views in general.
//!
//! Numbers are integers throughout. Rates, scores and confidences count
//! billionths, latency averages microseconds, tokens billionths of a token,
//! monotonic times nanoseconds and wall-clock times seconds since the epoch.

pub mod ai;
pub mod ai_laws;
pub mod circuit_breaker;
pub mod circuit_breaker_laws;
pub mod clock;
pub mod config;
pub mod health_checker;
pub mod http;
pub mod load_balancer;
pub mod metrics;
pub mod middleware;
pub mod proxy;
pub mod rate_limiter;
pub mod rate_limiter_laws;
pub mod table;
pub mod text;
