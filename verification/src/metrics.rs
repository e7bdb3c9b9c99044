//! Counters of the proxy as a whole and of each endpoint, and the text that
//! exposes the per-endpoint ones.

use crate::ai::{ewma, next_average};
use crate::clock::unix_seconds;
use crate::table::Table;
use crate::text::{decimal, padded_decimal, push_decimal, push_padded_decimal};
use vstd::prelude::*;
use vstd::string::*;

verus! {

/// The number of duration buckets with an upper bound; one more counts what
/// exceeds the last bound.
pub const BOUNDED_BUCKETS: usize = 12;

/// The upper bound, in milliseconds, of duration bucket `i`.
pub open spec fn bucket_bound_ms(i: int) -> nat {
    if i == 0 {
        1
    } else if i == 1 {
        5
    } else if i == 2 {
        10
    } else if i == 3 {
        25
    } else if i == 4 {
        50
    } else if i == 5 {
        100
    } else if i == 6 {
        250
    } else if i == 7 {
        500
    } else if i == 8 {
        1000
    } else if i == 9 {
        2500
    } else if i == 10 {
        5000
    } else {
        10000
    }
}

/// `bucket` is the first bucket whose bound a duration does not exceed, or
/// the unbounded one where it exceeds them all.
pub open spec fn is_bucket_of(latency_ms: nat, bucket: int) -> bool {
    &&& 0 <= bucket <= BOUNDED_BUCKETS
    &&& bucket < BOUNDED_BUCKETS ==> latency_ms <= bucket_bound_ms(bucket)
    &&& forall|j: int| 0 <= j < bucket ==> latency_ms > bucket_bound_ms(j)
}

/// The samples counted in buckets `0..=upto`: what the bucket with the
/// bound of `upto` shows, since buckets are cumulative.
pub open spec fn cumulative(hits: Seq<u64>, upto: int) -> nat
    decreases upto + 1,
{
    if upto < 0 {
        0
    } else {
        cumulative(hits, upto - 1) + hits[upto] as nat
    }
}

/// What is counted for one endpoint.
#[derive(Debug, Clone, Copy)]
pub struct EndpointMetrics {
    pub total_requests: u64,
    pub successful_requests: u64,
    pub failed_requests: u64,
    /// Exponentially weighted average latency, in microseconds.
    pub avg_latency_us: u128,
    /// Seconds since the epoch of the last request.
    pub last_request_time: u64,
}

impl EndpointMetrics {
    /// The counters of an endpoint before its first request.
    pub open spec fn zero() -> EndpointMetrics {
        EndpointMetrics {
            total_requests: 0,
            successful_requests: 0,
            failed_requests: 0,
            avg_latency_us: 0,
            last_request_time: 0,
        }
    }

    /// Every request counted is counted as a success or as a failure.
    pub open spec fn balanced(self) -> bool {
        self.successful_requests + self.failed_requests == self.total_requests
    }

    /// The counters after one more request. They stop at the largest 64-bit
    /// value; the average and the time always move.
    pub open spec fn recorded(self, latency_ms: u64, success: bool, now: u64) -> EndpointMetrics {
        let counted = self.total_requests < u64::MAX;
        EndpointMetrics {
            total_requests: if counted {
                (self.total_requests + 1) as u64
            } else {
                self.total_requests
            },
            successful_requests: if counted && success {
                (self.successful_requests + 1) as u64
            } else {
                self.successful_requests
            },
            failed_requests: if counted && !success {
                (self.failed_requests + 1) as u64
            } else {
                self.failed_requests
            },
            avg_latency_us: ewma(self.avg_latency_us as nat, latency_ms as nat) as u128,
            last_request_time: now,
        }
    }

    /// The share of successes in ten-thousandths, rounded to the nearest,
    /// halves upward; zero while nothing was counted. Successes beyond the
    /// total count as the total.
    pub open spec fn success_ten_thousandths(self) -> nat {
        let successes = if self.successful_requests <= self.total_requests {
            self.successful_requests
        } else {
            self.total_requests
        };
        if self.total_requests > 0 {
            ((20000 * successes + self.total_requests) / (2 * self.total_requests)) as nat
        } else {
            0
        }
    }

    /// The average latency in hundredths of a millisecond, rounded to the
    /// nearest, halves upward.
    pub open spec fn latency_hundredths(self) -> nat {
        ((self.avg_latency_us + 5) / 10) as nat
    }
}

/// `value` written with `decimals` digits behind the point, where `value`
/// counts units of the last digit.
pub open spec fn fixed_text(value: nat, scale: nat, decimals: nat) -> Seq<char> {
    decimal(value / scale) + "."@ + padded_decimal(value % scale, decimals)
}

/// One metric family with one sample, labelled with the endpoint.
pub open spec fn family_lines(
    name: Seq<char>,
    help: Seq<char>,
    kind: Seq<char>,
    endpoint: Seq<char>,
    value: Seq<char>,
) -> Seq<char> {
    "# HELP "@ + name + " "@ + help + "\n# TYPE "@ + name + " "@ + kind + "\n"@ + name
        + "{endpoint=\""@ + endpoint + "\"} "@ + value + "\n"@
}

/// The lines that expose one endpoint: its requests, its success rate with
/// four decimals and its average latency in milliseconds with two.
pub open spec fn endpoint_block(endpoint: Seq<char>, metrics: EndpointMetrics) -> Seq<char> {
    family_lines(
        "proxy_endpoint_requests_total"@,
        "Total requests per endpoint"@,
        "counter"@,
        endpoint,
        decimal(metrics.total_requests as nat),
    ) + family_lines(
        "proxy_endpoint_success_rate"@,
        "Success rate per endpoint"@,
        "gauge"@,
        endpoint,
        fixed_text(metrics.success_ten_thousandths(), 10000, 4),
    ) + family_lines(
        "proxy_endpoint_avg_latency_ms"@,
        "Average latency per endpoint in milliseconds"@,
        "gauge"@,
        endpoint,
        fixed_text(metrics.latency_hundredths(), 100, 2),
    )
}

/// The blocks of all endpoints, in order.
pub open spec fn endpoint_blocks(endpoints: Seq<Seq<char>>, metrics: Seq<EndpointMetrics>) -> Seq<char>
    decreases endpoints.len(),
{
    if endpoints.len() == 0 || metrics.len() == 0 {
        Seq::empty()
    } else {
        endpoint_blocks(endpoints.drop_last(), metrics.drop_last()) + endpoint_block(
            endpoints.last(),
            metrics.last(),
        )
    }
}

/// The counters that an observation for `endpoint` starts from.
pub open spec fn metrics_before(
    endpoints: Map<Seq<char>, EndpointMetrics>,
    endpoint: Seq<char>,
) -> EndpointMetrics {
    if endpoints.contains_key(endpoint) {
        endpoints[endpoint]
    } else {
        EndpointMetrics::zero()
    }
}

/// The first bucket whose bound `latency_ms` does not exceed.
pub fn bucket_index(latency_ms: u64) -> (bucket: usize)
    ensures
        is_bucket_of(latency_ms as nat, bucket as int),
{
    if latency_ms <= 1 {
        0
    } else if latency_ms <= 5 {
        1
    } else if latency_ms <= 10 {
        2
    } else if latency_ms <= 25 {
        3
    } else if latency_ms <= 50 {
        4
    } else if latency_ms <= 100 {
        5
    } else if latency_ms <= 250 {
        6
    } else if latency_ms <= 500 {
        7
    } else if latency_ms <= 1000 {
        8
    } else if latency_ms <= 2500 {
        9
    } else if latency_ms <= 5000 {
        10
    } else if latency_ms <= 10000 {
        11
    } else {
        12
    }
}

/// Counting one more sample in bucket `at` adds one to every cumulative
/// count from `at` on and leaves the earlier ones alone.
pub proof fn lemma_count_in_bucket(hits: Seq<u64>, at: int, upto: int)
    requires
        0 <= at < hits.len(),
        upto < hits.len(),
        hits[at] < u64::MAX,
    ensures
        cumulative(hits.update(at, (hits[at] + 1) as u64), upto) == cumulative(hits, upto) + (if at
            <= upto {
            1nat
        } else {
            0nat
        }),
    decreases upto + 1,
{
    if upto >= 0 {
        lemma_count_in_bucket(hits, at, upto - 1);
    }
}

/// A cumulative count is at least each of the counts it adds up.
pub proof fn lemma_cumulative_bounds(hits: Seq<u64>, at: int, upto: int)
    requires
        0 <= at <= upto < hits.len(),
    ensures
        hits[at] <= cumulative(hits, upto),
        cumulative(hits, at) <= cumulative(hits, upto),
    decreases upto + 1,
{
    if at < upto {
        lemma_cumulative_bounds(hits, at, upto - 1);
    }
}

/// The share of successes in ten-thousandths.
pub fn success_share(metrics: &EndpointMetrics) -> (share: u64)
    ensures
        share == metrics.success_ten_thousandths(),
        share <= 10000,
{
    if metrics.total_requests == 0 {
        return 0;
    }
    let successes: u64 = if metrics.successful_requests <= metrics.total_requests {
        metrics.successful_requests
    } else {
        metrics.total_requests
    };
    let total = metrics.total_requests as u128;
    let share: u128 = (20000 * (successes as u128) + total) / (2 * total);
    assert(share <= 10000) by (nonlinear_arith)
        requires
            share == (20000 * (successes as int) + total as int) / (2 * (total as int)),
            0 <= successes <= total,
            total > 0,
    ;
    share as u64
}

/// Writes `value` with its last `decimals` digits behind the point.
fn fixed_string(value: u128, scale: u64, decimals: u32) -> (text: String)
    requires
        scale > 0,
    ensures
        text@ == fixed_text(value as nat, scale as nat, decimals as nat),
{
    let mut text = String::new();
    push_decimal(&mut text, value / scale as u128);
    text.append(".");
    push_padded_decimal(&mut text, (value % scale as u128) as u64, decimals);
    assert(text@ =~= fixed_text(value as nat, scale as nat, decimals as nat));
    text
}

/// Appends one metric family with one sample.
fn push_family(out: &mut String, name: &str, help: &str, kind: &str, endpoint: &str, value: &str)
    ensures
        final(out)@ == old(out)@ + family_lines(name@, help@, kind@, endpoint@, value@),
{
    let mut lines = String::new();
    lines.append("# HELP ");
    lines.append(name);
    lines.append(" ");
    lines.append(help);
    lines.append("\n# TYPE ");
    lines.append(name);
    lines.append(" ");
    lines.append(kind);
    lines.append("\n");
    lines.append(name);
    lines.append("{endpoint=\"");
    lines.append(endpoint);
    lines.append("\"} ");
    lines.append(value);
    lines.append("\n");
    assert(lines@ =~= family_lines(name@, help@, kind@, endpoint@, value@));
    out.append(lines.as_str());
}

/// Appends the lines that expose one endpoint.
fn push_endpoint_block(out: &mut String, endpoint: &str, metrics: &EndpointMetrics)
    ensures
        final(out)@ == old(out)@ + endpoint_block(endpoint@, *metrics),
{
    let total = crate::text::decimal_string(metrics.total_requests);
    let rate = fixed_string(success_share(metrics) as u128, 10000, 4);
    let hundredths: u128 = if metrics.avg_latency_us % 10 >= 5 {
        metrics.avg_latency_us / 10 + 1
    } else {
        metrics.avg_latency_us / 10
    };
    assert(hundredths == metrics.latency_hundredths());
    let latency = fixed_string(hundredths, 100, 2);
    let mut block = String::new();
    push_family(
        &mut block,
        "proxy_endpoint_requests_total",
        "Total requests per endpoint",
        "counter",
        endpoint,
        total.as_str(),
    );
    push_family(
        &mut block,
        "proxy_endpoint_success_rate",
        "Success rate per endpoint",
        "gauge",
        endpoint,
        rate.as_str(),
    );
    push_family(
        &mut block,
        "proxy_endpoint_avg_latency_ms",
        "Average latency per endpoint in milliseconds",
        "gauge",
        endpoint,
        latency.as_str(),
    );
    assert(block@ =~= endpoint_block(endpoint@, *metrics));
    out.append(block.as_str());
}

pub struct MetricsCollector {
    request_count: u64,
    bucket_hits: [u64; 13],
    duration_sum_ms: u128,
    active_connections: i64,
    endpoint_metrics: Table<EndpointMetrics>,
}

/// `after` is the collector `before` with one more request counted: a
/// request to `endpoint` that took `latency_ms` and ended at `now`.
///
/// The request counter and the duration bucket of the latency each go up by
/// one, and the sum of durations by the latency, unless the counter is at
/// the largest 64-bit value. The endpoint's own counters take the request
/// in; a new endpoint goes to the end of the order. The connections stay.
pub open spec fn is_recorded(
    before: MetricsCollector,
    after: MetricsCollector,
    endpoint: Seq<char>,
    latency_ms: u64,
    success: bool,
    now: u64,
) -> bool {
    &&& after.active_connections() == before.active_connections()
    &&& before.request_count() < u64::MAX ==> after.request_count() == before.request_count() + 1
        && exists|bucket: int|
        #[trigger] is_bucket_of(latency_ms as nat, bucket) && after.bucket_hits()
            == before.bucket_hits().update(bucket, (before.bucket_hits()[bucket] + 1) as u64)
    &&& before.request_count() == u64::MAX ==> after.request_count() == before.request_count()
        && after.bucket_hits() == before.bucket_hits()
    &&& after.duration_sum_ms() == (if before.request_count() < u64::MAX {
        before.duration_sum_ms() + latency_ms as nat
    } else {
        before.duration_sum_ms()
    })
    &&& after.endpoints() == before.endpoints().insert(
        endpoint,
        metrics_before(before.endpoints(), endpoint).recorded(latency_ms, success, now),
    )
    &&& after.order() == (if before.endpoints().contains_key(endpoint) {
        before.order()
    } else {
        before.order().push(endpoint)
    })
    &&& after.counters() == (if before.endpoints().contains_key(endpoint) {
        before.counters().update(
            before.order().index_of(endpoint),
            metrics_before(before.endpoints(), endpoint).recorded(latency_ms, success, now),
        )
    } else {
        before.counters().push(
            metrics_before(before.endpoints(), endpoint).recorded(latency_ms, success, now),
        )
    })
}

impl MetricsCollector {
    /// The duration buckets together hold one sample per request counted,
    /// the durations add up to no more than that many of the longest, and
    /// every endpoint's requests are successes or failures.
    #[verifier::type_invariant]
    pub closed spec fn wf(&self) -> bool {
        &&& self.endpoint_metrics.wf()
        &&& cumulative(self.bucket_hits@, BOUNDED_BUCKETS as int) == self.request_count
        &&& self.duration_sum_ms <= self.request_count * 0xFFFF_FFFF_FFFF_FFFF
        &&& forall|i: int|
            0 <= i < self.endpoint_metrics.values().len() ==> (
            #[trigger] self.endpoint_metrics.values()[i]).balanced()
    }

    /// The requests counted.
    pub closed spec fn request_count(&self) -> nat {
        self.request_count as nat
    }

    /// The samples in each duration bucket, the unbounded one last; each
    /// sample is counted in one bucket only.
    pub closed spec fn bucket_hits(&self) -> Seq<u64> {
        self.bucket_hits@
    }

    /// The durations of the requests counted, added up, in milliseconds.
    pub closed spec fn duration_sum_ms(&self) -> nat {
        self.duration_sum_ms as nat
    }

    /// The connections that are open.
    pub closed spec fn active_connections(&self) -> int {
        self.active_connections as int
    }

    /// The counters of each endpoint.
    pub closed spec fn endpoints(&self) -> Map<Seq<char>, EndpointMetrics> {
        self.endpoint_metrics@
    }

    /// The endpoints in the order of their first request.
    pub closed spec fn order(&self) -> Seq<Seq<char>> {
        self.endpoint_metrics.keys()
    }

    /// The counters of the endpoints, aligned with `order`.
    pub closed spec fn counters(&self) -> Seq<EndpointMetrics> {
        self.endpoint_metrics.values()
    }

    /// In a well-formed collector the unbounded duration bucket, which
    /// counts every sample, shows as many samples as requests were counted;
    /// and each endpoint's successes and failures add up to its requests.
    pub proof fn lemma_histogram_counts_requests(&self)
        requires
            self.wf(),
        ensures
            self.bucket_hits().len() == BOUNDED_BUCKETS + 1,
            cumulative(self.bucket_hits(), BOUNDED_BUCKETS as int) == self.request_count(),
            forall|k: Seq<char>| #[trigger]
                self.endpoints().contains_key(k) ==> self.endpoints()[k].balanced(),
    {
        assert forall|k: Seq<char>| #[trigger] self.endpoints().contains_key(k) implies self.endpoints()[k].balanced() by {
            let i = self.endpoint_metrics.keys().index_of(k);
            self.endpoint_metrics.lemma_shape();
            self.endpoint_metrics.lemma_at(i);
            assert(self.endpoint_metrics.values()[i].balanced());
        }
    }

    /// A collector that has counted nothing.
    pub fn new() -> (collector: Self)
        ensures
            collector.request_count() == 0,
            collector.bucket_hits() == Seq::new(13, |i: int| 0u64),
            collector.duration_sum_ms() == 0,
            collector.active_connections() == 0,
            collector.endpoints() == Map::<Seq<char>, EndpointMetrics>::empty(),
            collector.order() == Seq::<Seq<char>>::empty(),
    {
        let endpoint_metrics: Table<EndpointMetrics> = Table::new();
        let bucket_hits: [u64; 13] = [0, 0, 0, 0, 0, 0, 0, 0, 0, 0, 0, 0, 0];
        proof {
            use_type_invariant(&endpoint_metrics);
            reveal_with_fuel(cumulative, 14);
            assert(cumulative(bucket_hits@, 12) == 0);
            assert(bucket_hits@ =~= Seq::new(13, |i: int| 0u64));
        }
        MetricsCollector {
            request_count: 0,
            bucket_hits,
            duration_sum_ms: 0,
            active_connections: 0,
            endpoint_metrics,
        }
    }

    /// Counts one request to `endpoint` that took `latency_ms` and ended at
    /// `now`, in seconds since the epoch.
    ///
    /// The request counter and the duration bucket of the latency each go
    /// up by one, unless the counter is at the largest 64-bit value. The
    /// endpoint's own counters take the request in.
    pub fn record_request_at(&mut self, endpoint: &str, latency_ms: u64, success: bool, now: u64)
        ensures
            is_recorded(*old(self), *final(self), endpoint@, latency_ms, success, now),
            final(self).request_count() == (if old(self).request_count() < u64::MAX {
                old(self).request_count() + 1
            } else {
                old(self).request_count()
            }),
    {
        proof {
            use_type_invariant(&*self);
            self.lemma_histogram_counts_requests();
        }
        let mut table: Table<EndpointMetrics> = Table::new();
        proof {
            use_type_invariant(&table);
        }
        std::mem::swap(&mut table, &mut self.endpoint_metrics);
        let ghost before = table;
        let current: EndpointMetrics = match table.get(endpoint) {
            Some(found) => *found,
            None => EndpointMetrics {
                total_requests: 0,
                successful_requests: 0,
                failed_requests: 0,
                avg_latency_us: 0,
                last_request_time: 0,
            },
        };
        proof {
            use_type_invariant(&table);
            before.lemma_shape();
            if before@.contains_key(endpoint@) {
                before.lemma_at(before.keys().index_of(endpoint@));
            }
            assert(current.balanced());
        }
        let counted = current.total_requests < u64::MAX;
        let next = EndpointMetrics {
            total_requests: if counted {
                current.total_requests + 1
            } else {
                current.total_requests
            },
            successful_requests: if counted && success {
                current.successful_requests + 1
            } else {
                current.successful_requests
            },
            failed_requests: if counted && !success {
                current.failed_requests + 1
            } else {
                current.failed_requests
            },
            avg_latency_us: next_average(current.avg_latency_us, latency_ms),
            last_request_time: now,
        };
        table.insert(endpoint, next);
        proof {
            use_type_invariant(&table);
            assert forall|i: int| 0 <= i < table.values().len() implies (
            #[trigger] table.values()[i]).balanced() by {
                if before@.contains_key(endpoint@) {
                    let at = before.keys().index_of(endpoint@);
                    if i != at {
                        assert(table.values()[i] == before.values()[i]);
                    }
                } else {
                    if i < before.values().len() {
                        assert(table.values()[i] == before.values()[i]);
                    }
                }
            }
        }
        let mut request_count: u64 = self.request_count;
        let mut bucket_hits: [u64; 13] = self.bucket_hits;
        let mut duration_sum_ms: u128 = self.duration_sum_ms;
        if request_count < u64::MAX {
            let bucket = bucket_index(latency_ms);
            proof {
                lemma_cumulative_bounds(bucket_hits@, bucket as int, 12);
                lemma_count_in_bucket(bucket_hits@, bucket as int, 12);
            }
            bucket_hits[bucket] = bucket_hits[bucket] + 1;
            request_count = request_count + 1;
            duration_sum_ms = duration_sum_ms + latency_ms as u128;
        }
        *self = MetricsCollector {
            request_count,
            bucket_hits,
            duration_sum_ms,
            active_connections: self.active_connections,
            endpoint_metrics: table,
        };
    }

    /// Counts one request to `endpoint` that ended just now by the wall
    /// clock.
    pub fn record_request(&mut self, endpoint: &str, latency_ms: u64, success: bool)
        ensures
            exists|now: u64| #[trigger]
                is_recorded(*old(self), *final(self), endpoint@, latency_ms, success, now),
            final(self).request_count() == (if old(self).request_count() < u64::MAX {
                old(self).request_count() + 1
            } else {
                old(self).request_count()
            }),
    {
        let now = unix_seconds();
        self.record_request_at(endpoint, latency_ms, success, now);
    }

    /// Counts one more open connection, up to the largest 64-bit value.
    pub fn increment_connections(&mut self)
        ensures
            final(self).active_connections() == (if old(self).active_connections() < i64::MAX {
                old(self).active_connections() + 1
            } else {
                old(self).active_connections()
            }),
            final(self).request_count() == old(self).request_count(),
            final(self).bucket_hits() == old(self).bucket_hits(),
            final(self).duration_sum_ms() == old(self).duration_sum_ms(),
            final(self).endpoints() == old(self).endpoints(),
            final(self).order() == old(self).order(),
            final(self).counters() == old(self).counters(),
    {
        proof {
            use_type_invariant(&*self);
        }
        if self.active_connections < i64::MAX {
            self.active_connections = self.active_connections + 1;
        }
    }

    /// Counts one open connection less, down to the smallest 64-bit value.
    pub fn decrement_connections(&mut self)
        ensures
            final(self).active_connections() == (if old(self).active_connections() > i64::MIN {
                old(self).active_connections() - 1
            } else {
                old(self).active_connections()
            }),
            final(self).request_count() == old(self).request_count(),
            final(self).bucket_hits() == old(self).bucket_hits(),
            final(self).duration_sum_ms() == old(self).duration_sum_ms(),
            final(self).endpoints() == old(self).endpoints(),
            final(self).order() == old(self).order(),
            final(self).counters() == old(self).counters(),
    {
        proof {
            use_type_invariant(&*self);
        }
        if self.active_connections > i64::MIN {
            self.active_connections = self.active_connections - 1;
        }
    }

    /// The requests counted.
    pub fn get_request_count(&self) -> (count: u64)
        ensures
            count == self.request_count(),
    {
        self.request_count
    }

    /// The durations of the requests counted, added up, in milliseconds.
    pub fn get_duration_sum_ms(&self) -> (sum: u128)
        ensures
            sum == self.duration_sum_ms(),
    {
        self.duration_sum_ms
    }

    /// The connections that are open.
    pub fn get_active_connections(&self) -> (count: i64)
        ensures
            count == self.active_connections(),
    {
        self.active_connections
    }

    /// What duration bucket `bucket` shows: the samples that did not exceed
    /// its bound. The bucket after the bounded ones shows all samples, which
    /// are as many as the requests counted. A bucket beyond that shows
    /// nothing.
    pub fn get_bucket_count(&self, bucket: usize) -> (count: u64)
        ensures
            bucket <= BOUNDED_BUCKETS ==> count == cumulative(self.bucket_hits(), bucket as int),
            bucket == BOUNDED_BUCKETS ==> count == self.request_count(),
            bucket > BOUNDED_BUCKETS ==> count == 0,
    {
        proof {
            use_type_invariant(self);
        }
        if bucket > BOUNDED_BUCKETS {
            return 0;
        }
        let mut count: u64 = 0;
        let mut i: usize = 0;
        while i <= bucket
            invariant
                i <= bucket + 1,
                bucket <= BOUNDED_BUCKETS,
                count == cumulative(self.bucket_hits@, i as int - 1),
                cumulative(self.bucket_hits@, BOUNDED_BUCKETS as int) == self.request_count,
            decreases bucket + 1 - i,
        {
            proof {
                lemma_cumulative_bounds(self.bucket_hits@, i as int, 12);
            }
            count = count + self.bucket_hits[i];
            i += 1;
        }
        count
    }

    /// The exposition text: what the metrics registry has encoded, followed
    /// by the three families of each endpoint, in the order of first
    /// request.
    pub fn get_prometheus_metrics(&self, registry_text: &str) -> (text: String)
        ensures
            text@ == registry_text@ + endpoint_blocks(self.order(), self.counters()),
    {
        let mut text = registry_text.to_owned();
        let n = self.endpoint_metrics.len();
        let ghost keys = self.endpoint_metrics.keys();
        let ghost values = self.endpoint_metrics.values();
        let mut i: usize = 0;
        assert(text@ =~= registry_text@ + endpoint_blocks(keys.take(0), values.take(0)));
        while i < n
            invariant
                i <= n,
                n == keys.len(),
                n == values.len(),
                keys == self.endpoint_metrics.keys(),
                values == self.endpoint_metrics.values(),
                text@ == registry_text@ + endpoint_blocks(keys.take(i as int), values.take(i as int)),
            decreases n - i,
        {
            proof {
                assert(keys.take(i + 1).drop_last() =~= keys.take(i as int));
                assert(values.take(i + 1).drop_last() =~= values.take(i as int));
            }
            push_endpoint_block(
                &mut text,
                self.endpoint_metrics.key_at(i).as_str(),
                self.endpoint_metrics.value_at(i),
            );
            assert(text@ =~= registry_text@ + endpoint_blocks(keys.take(i + 1), values.take(i + 1)));
            i += 1;
        }
        proof {
            assert(keys.take(n as int) =~= keys);
            assert(values.take(n as int) =~= values);
        }
        text
    }

    /// The counters of every endpoint, in the order of first request.
    pub fn get_endpoint_stats(&self) -> (stats: Vec<(String, EndpointMetrics)>)
        ensures
            stats@.len() == self.order().len(),
            forall|i: int|
                0 <= i < stats@.len() ==> {
                    &&& (#[trigger] stats@[i]).0@ == self.order()[i]
                    &&& stats@[i].1 == self.endpoints()[self.order()[i]]
                    &&& stats@[i].1 == self.counters()[i]
                    &&& stats@[i].1.balanced()
                },
    {
        proof {
            use_type_invariant(self);
            use_type_invariant(&self.endpoint_metrics);
        }
        let mut stats: Vec<(String, EndpointMetrics)> = Vec::new();
        let n = self.endpoint_metrics.len();
        let mut i: usize = 0;
        while i < n
            invariant
                i <= n,
                n == self.endpoint_metrics.keys().len(),
                n == self.endpoint_metrics.values().len(),
                self.endpoint_metrics.wf(),
                stats@.len() == i,
                forall|j: int|
                    0 <= j < i ==> {
                        &&& (#[trigger] stats@[j]).0@ == self.order()[j]
                        &&& stats@[j].1 == self.endpoints()[self.order()[j]]
                        &&& stats@[j].1 == self.counters()[j]
                    },
            decreases n - i,
        {
            proof {
                self.endpoint_metrics.lemma_at(i as int);
            }
            stats.push(
                (self.endpoint_metrics.key_at(i).clone(), *self.endpoint_metrics.value_at(i)),
            );
            i += 1;
        }
        stats
    }
}

} // verus!
