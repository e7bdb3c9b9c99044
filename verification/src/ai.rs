//! Per-endpoint health records and the selector that scores endpoints from
//! them.
//!
//! Rates, scores and confidences are fixed-point numbers in billionths
//! (`UNIT` stands for 1). Latency averages are kept in microseconds, in 128
//! bits, so that no sample of 64 bits of milliseconds is too large for them.

use crate::table::Table;
use crate::text::{push_thousandths, round_to_thousandths, str_eq, thousandths_text};
use vstd::prelude::*;
use vstd::string::*;

verus! {

/// One, in billionths.
pub const UNIT: u64 = 1_000_000_000;

/// The score of an endpoint that has no history yet: one half.
pub const NEUTRAL_SCORE: u64 = 500_000_000;

/// The shortest per-call timeout, in milliseconds.
pub const BASE_TIMEOUT_MS: u64 = 5000;

/// The longest per-call timeout, in milliseconds.
pub const MAX_TIMEOUT_MS: u64 = 30000;

/// The outcome of one upstream attempt or health probe.
pub struct RequestMetrics {
    pub latency_ms: u64,
    pub status_code: u16,
    pub endpoint: String,
    pub timestamp: u64,
    pub success: bool,
}

/// What is known about one endpoint.
pub struct ServiceHealth {
    pub endpoint: String,
    /// Share of requests that succeeded, in billionths.
    pub success_rate: u64,
    /// Exponentially weighted average latency, in microseconds.
    pub avg_latency_us: u128,
    pub error_count: u32,
    pub total_requests: u32,
    /// Seconds since the epoch of the last observation.
    pub last_updated: u64,
}

/// The selector's answer for one request.
pub struct AIDecision {
    /// The chosen endpoint; empty when there was none to choose from.
    pub selected_endpoint: String,
    /// The chosen endpoint's score, in billionths.
    pub confidence: u64,
    pub reasoning: String,
    /// The other endpoints, best first.
    pub fallback_endpoints: Vec<String>,
}

/// `RequestMetrics` as mathematical values.
pub struct MetricsView {
    pub latency_ms: nat,
    pub status_code: nat,
    pub endpoint: Seq<char>,
    pub timestamp: nat,
    pub success: bool,
}

/// `ServiceHealth` as mathematical values.
pub struct HealthView {
    pub endpoint: Seq<char>,
    pub success_rate: nat,
    pub avg_latency_us: nat,
    pub error_count: nat,
    pub total_requests: nat,
    pub last_updated: nat,
}

/// `AIDecision` as mathematical values.
pub struct DecisionView {
    pub selected_endpoint: Seq<char>,
    pub confidence: nat,
    pub reasoning: Seq<char>,
    pub fallback_endpoints: Seq<Seq<char>>,
}

/// The character sequences of a sequence of strings.
pub open spec fn names_of(strings: Seq<String>) -> Seq<Seq<char>> {
    Seq::new(strings.len(), |i: int| strings[i]@)
}

/// The success rate that goes with the two counters: `1 - errors / total`
/// rounded down to a billionth, and 1 while nothing was counted.
pub open spec fn success_rate_of(errors: nat, total: nat) -> nat {
    if total > 0 && errors <= total {
        (((total - errors) * UNIT) / (total as int)) as nat
    } else if total > 0 {
        0
    } else {
        UNIT as nat
    }
}

/// A latency sample in microseconds.
pub open spec fn sample_us(latency_ms: nat) -> nat {
    latency_ms * 1000
}

/// The moving average after one more sample: a tenth of the sample plus nine
/// tenths of the previous average, rounded down to a microsecond.
pub open spec fn ewma(previous_us: nat, latency_ms: nat) -> nat {
    (sample_us(latency_ms) + 9 * previous_us) / 10
}

/// `1 / (1 + latency / 1s)` in billionths, and 1 for an average of zero.
pub open spec fn latency_score(avg_latency_us: nat) -> nat {
    if avg_latency_us > 0 {
        (1_000_000_000_000_000int / (1_000_000 + avg_latency_us as int)) as nat
    } else {
        UNIT as nat
    }
}

/// Six tenths of the success rate plus four tenths of the latency score,
/// capped at 1.
pub open spec fn endpoint_score(success_rate: nat, avg_latency_us: nat) -> nat {
    let raw = (6 * success_rate + 4 * latency_score(avg_latency_us)) / 10;
    if raw <= UNIT {
        raw
    } else {
        UNIT as nat
    }
}

/// Twice the average latency in whole milliseconds, kept between the base and
/// the maximum timeout; the base timeout for an average of zero.
pub open spec fn timeout_for(avg_latency_us: nat) -> nat {
    let doubled = (2 * avg_latency_us) / 1000;
    if avg_latency_us == 0 || doubled < BASE_TIMEOUT_MS {
        BASE_TIMEOUT_MS as nat
    } else if doubled > MAX_TIMEOUT_MS {
        MAX_TIMEOUT_MS as nat
    } else {
        doubled
    }
}

impl View for RequestMetrics {
    type V = MetricsView;

    open spec fn view(&self) -> MetricsView {
        MetricsView {
            latency_ms: self.latency_ms as nat,
            status_code: self.status_code as nat,
            endpoint: self.endpoint@,
            timestamp: self.timestamp as nat,
            success: self.success,
        }
    }
}

impl View for ServiceHealth {
    type V = HealthView;

    open spec fn view(&self) -> HealthView {
        HealthView {
            endpoint: self.endpoint@,
            success_rate: self.success_rate as nat,
            avg_latency_us: self.avg_latency_us as nat,
            error_count: self.error_count as nat,
            total_requests: self.total_requests as nat,
            last_updated: self.last_updated as nat,
        }
    }
}

impl View for AIDecision {
    type V = DecisionView;

    open spec fn view(&self) -> DecisionView {
        DecisionView {
            selected_endpoint: self.selected_endpoint@,
            confidence: self.confidence as nat,
            reasoning: self.reasoning@,
            fallback_endpoints: names_of(self.fallback_endpoints@),
        }
    }
}

impl HealthView {
    /// The record of an endpoint before its first observation.
    pub open spec fn fresh(endpoint: Seq<char>, timestamp: nat) -> HealthView {
        HealthView {
            endpoint,
            success_rate: UNIT as nat,
            avg_latency_us: 0,
            error_count: 0,
            total_requests: 0,
            last_updated: timestamp,
        }
    }

    /// Errors never outnumber requests, and the success rate is the one that
    /// the counters give.
    pub open spec fn consistent(self) -> bool {
        &&& self.error_count <= self.total_requests
        &&& self.success_rate == success_rate_of(self.error_count, self.total_requests)
    }

    /// The record after one more observation. The counters stop at the
    /// largest 32-bit value: once the requests have reached it, neither
    /// counter moves. The average and the timestamp always move, and the
    /// average is exact: no sample is cut down.
    pub open spec fn observe(self, sample: MetricsView) -> HealthView {
        let counted = self.total_requests < u32::MAX;
        let total = if counted {
            self.total_requests + 1
        } else {
            self.total_requests
        };
        let errors = if counted && !sample.success && self.error_count < u32::MAX {
            self.error_count + 1
        } else {
            self.error_count
        };
        HealthView {
            endpoint: self.endpoint,
            success_rate: success_rate_of(errors, total),
            avg_latency_us: ewma(self.avg_latency_us, sample.latency_ms),
            error_count: errors,
            total_requests: total,
            last_updated: sample.timestamp,
        }
    }

    /// The score the selector gives this record.
    pub open spec fn score(self) -> nat {
        endpoint_score(self.success_rate, self.avg_latency_us)
    }
}

/// The score of `name` under a health snapshot: its record's score, or the
/// neutral score where it has no record.
pub open spec fn score_in(health: Map<Seq<char>, HealthView>, name: Seq<char>) -> nat {
    if health.contains_key(name) {
        health[name].score()
    } else {
        NEUTRAL_SCORE as nat
    }
}

/// `best` is the first position among `names` whose score no other exceeds.
pub open spec fn is_first_best(
    health: Map<Seq<char>, HealthView>,
    names: Seq<Seq<char>>,
    best: int,
) -> bool {
    &&& 0 <= best < names.len()
    &&& forall|j: int|
        0 <= j < names.len() ==> score_in(health, #[trigger] names[j]) <= score_in(
            health,
            names[best],
        )
    &&& forall|j: int|
        0 <= j < best ==> score_in(health, #[trigger] names[j]) < score_in(health, names[best])
}

/// Where `name` first occurs in `names`; the length of `names` if nowhere.
pub open spec fn first_position(names: Seq<Seq<char>>, name: Seq<char>) -> int
    decreases names.len(),
{
    if names.len() == 0 {
        0
    } else if names[0] == name {
        0
    } else {
        1 + first_position(names.drop_first(), name)
    }
}

/// `a` goes before `b` in a fallback list: it scores higher, or the same and
/// occurs earlier in the input.
pub open spec fn goes_before(
    health: Map<Seq<char>, HealthView>,
    names: Seq<Seq<char>>,
    a: Seq<char>,
    b: Seq<char>,
) -> bool {
    score_in(health, a) > score_in(health, b) || (score_in(health, a) == score_in(health, b)
        && first_position(names, a) < first_position(names, b))
}

/// `fallback` lists every input name but the selected one, each once, by
/// descending score; names of equal score stay in input order.
pub open spec fn is_fallback(
    health: Map<Seq<char>, HealthView>,
    names: Seq<Seq<char>>,
    selected: Seq<char>,
    fallback: Seq<Seq<char>>,
) -> bool {
    &&& fallback.no_duplicates()
    &&& forall|e: Seq<char>|
        #[trigger] fallback.contains(e) <==> (names.contains(e) && e != selected)
    &&& forall|p: int, q: int|
        0 <= p < q < fallback.len() ==> goes_before(
            health,
            names,
            #[trigger] fallback[p],
            #[trigger] fallback[q],
        )
}

/// The text that explains a choice.
pub open spec fn reasoning_text(selected: Seq<char>, confidence: nat) -> Seq<char> {
    "Selected "@ + selected + " with score "@ + thousandths_text(round_to_thousandths(confidence))
        + " based on success rate and latency analysis"@
}

/// `decision` is the selector's answer for `names` under `health`.
pub open spec fn is_decision(
    health: Map<Seq<char>, HealthView>,
    names: Seq<Seq<char>>,
    decision: DecisionView,
) -> bool {
    if names.len() == 0 {
        &&& decision.selected_endpoint == Seq::<char>::empty()
        &&& decision.confidence == 0
        &&& decision.reasoning == "No available endpoints"@
        &&& decision.fallback_endpoints == Seq::<Seq<char>>::empty()
    } else {
        &&& exists|best: int|
            is_first_best(health, names, best) && decision.selected_endpoint
                == #[trigger] names[best]
        &&& decision.confidence == score_in(health, decision.selected_endpoint)
        &&& decision.reasoning == reasoning_text(decision.selected_endpoint, decision.confidence)
        &&& is_fallback(health, names, decision.selected_endpoint, decision.fallback_endpoints)
    }
}

impl Clone for RequestMetrics {
    fn clone(&self) -> (copy: Self)
        ensures
            copy == *self,
    {
        RequestMetrics {
            latency_ms: self.latency_ms,
            status_code: self.status_code,
            endpoint: self.endpoint.clone(),
            timestamp: self.timestamp,
            success: self.success,
        }
    }
}

impl Clone for ServiceHealth {
    fn clone(&self) -> (copy: Self)
        ensures
            copy == *self,
    {
        ServiceHealth {
            endpoint: self.endpoint.clone(),
            success_rate: self.success_rate,
            avg_latency_us: self.avg_latency_us,
            error_count: self.error_count,
            total_requests: self.total_requests,
            last_updated: self.last_updated,
        }
    }
}

impl ServiceHealth {
    /// The record of `endpoint` before its first observation.
    pub fn fresh(endpoint: &str, timestamp: u64) -> (record: Self)
        ensures
            record@ == HealthView::fresh(endpoint@, timestamp as nat),
    {
        ServiceHealth {
            endpoint: endpoint.to_owned(),
            success_rate: UNIT,
            avg_latency_us: 0,
            error_count: 0,
            total_requests: 0,
            last_updated: timestamp,
        }
    }

    /// The record after `sample` has been counted in.
    pub fn observe(&self, sample: &RequestMetrics) -> (next: Self)
        ensures
            next@ == self@.observe(sample@),
            self.error_count <= self.total_requests ==> next@.consistent(),
    {
        let counted = self.total_requests < u32::MAX;
        let total: u32 = if counted {
            self.total_requests + 1
        } else {
            self.total_requests
        };
        let errors: u32 = if counted && !sample.success && self.error_count < u32::MAX {
            self.error_count + 1
        } else {
            self.error_count
        };
        let rate: u64 = if total > 0 && errors <= total {
            ((total - errors) as u64 * UNIT) / (total as u64)
        } else if total > 0 {
            0
        } else {
            UNIT
        };
        ServiceHealth {
            endpoint: self.endpoint.clone(),
            success_rate: rate,
            avg_latency_us: next_average(self.avg_latency_us, sample.latency_ms),
            error_count: errors,
            total_requests: total,
            last_updated: sample.timestamp,
        }
    }
}

/// The moving average after one more sample. It is never larger than both
/// the previous average and the sample, so it always fits.
pub fn next_average(previous_us: u128, latency_ms: u64) -> (average: u128)
    ensures
        average == ewma(previous_us as nat, latency_ms as nat),
        average <= previous_us || average <= sample_us(latency_ms as nat),
{
    let tenth: u128 = if previous_us % 10 == 0 {
        previous_us / 10
    } else {
        previous_us / 10 + 1
    };
    let kept: u128 = previous_us - tenth;
    let gained: u128 = latency_ms as u128 * 100;
    assert((sample_us(latency_ms as nat) + 9 * previous_us) / 10 == gained + kept);
    kept + gained
}

/// The score of a record.
pub fn calculate_endpoint_score(health: &ServiceHealth) -> (score: u64)
    ensures
        score == health@.score(),
        score <= UNIT,
{
    let latency_part: u64 = if health.avg_latency_us >= 1_000_000_000_000_000 {
        proof {
            vstd::arithmetic::div_mod::lemma_basic_div(
                1_000_000_000_000_000,
                1_000_000 + health.avg_latency_us as int,
            );
        }
        0
    } else if health.avg_latency_us > 0 {
        (1_000_000_000_000_000u128 / (1_000_000u128 + health.avg_latency_us)) as u64
    } else {
        UNIT
    };
    let raw: u128 = (6 * (health.success_rate as u128) + 4 * (latency_part as u128)) / 10;
    if raw <= UNIT as u128 {
        raw as u64
    } else {
        UNIT
    }
}

/// The record that an observation of `endpoint` starts from.
pub open spec fn record_before(
    health: Map<Seq<char>, HealthView>,
    endpoint: Seq<char>,
    timestamp: nat,
) -> HealthView {
    if health.contains_key(endpoint) {
        health[endpoint]
    } else {
        HealthView::fresh(endpoint, timestamp)
    }
}

/// Position `i` holds a name other than `selected`, at its first occurrence.
pub open spec fn is_candidate(names: Seq<Seq<char>>, selected: Seq<char>, i: int) -> bool {
    &&& 0 <= i < names.len()
    &&& names[i] != selected
    &&& first_position(names, names[i]) == i
}

/// Position `a` ranks before position `b`: a higher score, or the same score
/// and an earlier place.
pub open spec fn ranks_before(scores: Seq<u64>, a: int, b: int) -> bool {
    scores[a] > scores[b] || (scores[a] == scores[b] && a < b)
}

/// `first_position` finds the first occurrence, if there is one.
pub proof fn lemma_first_position(names: Seq<Seq<char>>, name: Seq<char>)
    ensures
        0 <= first_position(names, name) <= names.len(),
        first_position(names, name) < names.len() ==> names[first_position(names, name)] == name,
        forall|j: int| 0 <= j < first_position(names, name) ==> names[j] != name,
        names.contains(name) <==> first_position(names, name) < names.len(),
    decreases names.len(),
{
    if names.len() == 0 {
    } else if names[0] == name {
    } else {
        let rest = names.drop_first();
        lemma_first_position(rest, name);
        let p = first_position(rest, name);
        assert forall|j: int| 0 <= j < 1 + p implies names[j] != name by {
            if j > 0 {
                assert(rest[j - 1] == names[j]);
            }
        }
        if p < rest.len() {
            assert(rest[p] == names[p + 1]);
        }
        if names.contains(name) {
            let k = choose|k: int| 0 <= k < names.len() && names[k] == name;
            assert(rest[k - 1] == name);
        }
    }
}

/// A position that holds `name` with no earlier occurrence is its first
/// position.
pub proof fn lemma_first_position_is(names: Seq<Seq<char>>, name: Seq<char>, i: int)
    requires
        0 <= i < names.len(),
        names[i] == name,
        forall|j: int| 0 <= j < i ==> names[j] != name,
    ensures
        first_position(names, name) == i,
{
    lemma_first_position(names, name);
}

/// The health table shared by the request path and the health checker, with
/// the selector that reads it.
pub struct AIEngine {
    service_metrics: Table<ServiceHealth>,
}

impl AIEngine {
    /// Every record is consistent and filed under its own endpoint.
    #[verifier::type_invariant]
    pub closed spec fn wf(&self) -> bool {
        &&& self.service_metrics.wf()
        &&& forall|i: int|
            0 <= i < self.service_metrics.values().len() ==> {
                &&& (#[trigger] self.service_metrics.values()[i])@.consistent()
                &&& self.service_metrics.values()[i].endpoint@ == self.service_metrics.keys()[i]
            }
    }

    /// The health snapshot: each known endpoint with its record.
    pub closed spec fn view(&self) -> Map<Seq<char>, HealthView> {
        Map::new(
            |k: Seq<char>| self.service_metrics@.contains_key(k),
            |k: Seq<char>| self.service_metrics@[k]@,
        )
    }

    /// The known endpoints in the order of their first observation.
    pub closed spec fn order(&self) -> Seq<Seq<char>> {
        self.service_metrics.keys()
    }

    /// Every record of a well-formed engine is consistent and carries the
    /// endpoint it is filed under, and the order lists each endpoint once.
    pub proof fn lemma_records_consistent(&self)
        requires
            self.wf(),
        ensures
            forall|k: Seq<char>| #[trigger]
                self@.contains_key(k) ==> self@[k].consistent() && self@[k].endpoint == k,
            forall|k: Seq<char>| self@.contains_key(k) <==> self.order().contains(k),
            self.order().no_duplicates(),
    {
        self.service_metrics.lemma_shape();
        assert forall|k: Seq<char>| #[trigger] self@.contains_key(k) implies self@[k].consistent()
            && self@[k].endpoint == k by {
            let i = self.service_metrics.keys().index_of(k);
            self.service_metrics.lemma_at(i);
        }
    }

    pub fn new() -> (engine: Self)
        ensures
            engine@ == Map::<Seq<char>, HealthView>::empty(),
            engine.order() == Seq::<Seq<char>>::empty(),
    {
        let service_metrics: Table<ServiceHealth> = Table::new();
        proof {
            use_type_invariant(&service_metrics);
        }
        let engine = AIEngine { service_metrics };
        assert(engine@ =~= Map::<Seq<char>, HealthView>::empty());
        engine
    }

    /// Counts one observation into the record of its endpoint, which is
    /// created on the first observation.
    pub fn record_request(&mut self, metrics: RequestMetrics)
        ensures
            final(self)@ == old(self)@.insert(
                metrics@.endpoint,
                record_before(old(self)@, metrics@.endpoint, metrics@.timestamp).observe(metrics@),
            ),
            final(self).order() == (if old(self)@.contains_key(metrics@.endpoint) {
                old(self).order()
            } else {
                old(self).order().push(metrics@.endpoint)
            }),
    {
        self.update_service_health(&metrics);
    }

    /// Counts one observation into the record of its endpoint.
    pub fn update_service_health(&mut self, metrics: &RequestMetrics)
        ensures
            final(self)@ == old(self)@.insert(
                metrics@.endpoint,
                record_before(old(self)@, metrics@.endpoint, metrics@.timestamp).observe(metrics@),
            ),
            final(self).order() == (if old(self)@.contains_key(metrics@.endpoint) {
                old(self).order()
            } else {
                old(self).order().push(metrics@.endpoint)
            }),
    {
        proof {
            use_type_invariant(&*self);
            self.lemma_records_consistent();
        }
        let mut table: Table<ServiceHealth> = Table::new();
        proof {
            use_type_invariant(&table);
        }
        std::mem::swap(&mut table, &mut self.service_metrics);
        let ghost before = table;
        let key = metrics.endpoint.as_str();
        let next = match table.get(key) {
            Some(current) => current.observe(metrics),
            None => ServiceHealth::fresh(key, metrics.timestamp).observe(metrics),
        };
        proof {
            use_type_invariant(&table);
        }
        table.insert(key, next);
        proof {
            use_type_invariant(&table);
            before.lemma_shape();
            assert forall|i: int| 0 <= i < table.values().len() implies {
                &&& (#[trigger] table.values()[i])@.consistent()
                &&& table.values()[i].endpoint@ == table.keys()[i]
            } by {
                if before@.contains_key(key@) {
                    let at = before.keys().index_of(key@);
                    before.lemma_at(at);
                    if i != at {
                        assert(table.values()[i] == before.values()[i]);
                    }
                } else {
                    if i < before.values().len() {
                        assert(table.values()[i] == before.values()[i]);
                    }
                }
            }
        }
        self.service_metrics = table;
        proof {
            assert(self@ =~= old(self)@.insert(
                metrics@.endpoint,
                record_before(old(self)@, metrics@.endpoint, metrics@.timestamp).observe(metrics@),
            ));
        }
    }

    /// The score of `endpoint` under the current snapshot.
    pub fn score_of(&self, endpoint: &str) -> (score: u64)
        ensures
            score == score_in(self@, endpoint@),
            score <= UNIT,
    {
        match self.service_metrics.get(endpoint) {
            Some(health) => calculate_endpoint_score(health),
            None => NEUTRAL_SCORE,
        }
    }

    /// A copy of the record of `endpoint`, if it has one.
    pub fn get_service_health(&self, endpoint: &str) -> (found: Option<ServiceHealth>)
        ensures
            found is Some <==> self@.contains_key(endpoint@),
            found matches Some(health) ==> health@ == self@[endpoint@] && health@.consistent()
                && health@.endpoint == endpoint@,
    {
        proof {
            use_type_invariant(self);
            self.lemma_records_consistent();
        }
        match self.service_metrics.get(endpoint) {
            Some(health) => Some(health.clone()),
            None => None,
        }
    }

    /// Copies of all records, in the order of first observation.
    pub fn get_all_service_health(&self) -> (all: Vec<ServiceHealth>)
        ensures
            all@.len() == self.order().len(),
            forall|i: int|
                0 <= i < all@.len() ==> {
                    &&& (#[trigger] all@[i])@ == self@[self.order()[i]]
                    &&& all@[i]@.endpoint == self.order()[i]
                    &&& all@[i]@.consistent()
                },
    {
        proof {
            use_type_invariant(self);
            use_type_invariant(&self.service_metrics);
            self.lemma_records_consistent();
        }
        let mut all: Vec<ServiceHealth> = Vec::new();
        let n = self.service_metrics.len();
        let mut i: usize = 0;
        while i < n
            invariant
                i <= n,
                n == self.service_metrics.values().len(),
                n == self.service_metrics.keys().len(),
                self.service_metrics.wf(),
                all@.len() == i,
                forall|j: int|
                    0 <= j < i ==> (#[trigger] all@[j])@ == self@[self.order()[j]],
            decreases n - i,
        {
            let record = self.service_metrics.value_at(i).clone();
            proof {
                self.service_metrics.lemma_at(i as int);
            }
            all.push(record);
            i += 1;
        }
        proof {
            assert forall|i: int| 0 <= i < all@.len() implies {
                &&& (#[trigger] all@[i])@ == self@[self.order()[i]]
                &&& all@[i]@.endpoint == self.order()[i]
                &&& all@[i]@.consistent()
            } by {
                self.service_metrics.lemma_at(i);
            }
        }
        all
    }

    /// Whether `endpoint` has at least `threshold` errors and fails more
    /// often than it succeeds.
    pub fn should_circuit_break(&self, endpoint: &str, threshold: u32) -> (trip: bool)
        ensures
            trip == (self@.contains_key(endpoint@) && self@[endpoint@].error_count >= threshold
                && self@[endpoint@].success_rate < NEUTRAL_SCORE),
    {
        match self.service_metrics.get(endpoint) {
            Some(health) => health.error_count >= threshold && health.success_rate < NEUTRAL_SCORE,
            None => false,
        }
    }

    /// The per-call timeout for `endpoint`, in milliseconds.
    pub fn adaptive_timeout(&self, endpoint: &str) -> (timeout_ms: u64)
        ensures
            timeout_ms == (if self@.contains_key(endpoint@) {
                timeout_for(self@[endpoint@].avg_latency_us)
            } else {
                BASE_TIMEOUT_MS as nat
            }),
            BASE_TIMEOUT_MS <= timeout_ms <= MAX_TIMEOUT_MS,
    {
        match self.service_metrics.get(endpoint) {
            Some(health) => {
                if health.avg_latency_us > 1_000_000_000_000 {
                    return MAX_TIMEOUT_MS;
                }
                let doubled: u128 = (2 * health.avg_latency_us) / 1000;
                if health.avg_latency_us == 0 || doubled < BASE_TIMEOUT_MS as u128 {
                    BASE_TIMEOUT_MS
                } else if doubled > MAX_TIMEOUT_MS as u128 {
                    MAX_TIMEOUT_MS
                } else {
                    doubled as u64
                }
            },
            None => BASE_TIMEOUT_MS,
        }
    }
}

/// The positions of the fallback candidates, best first.
///
/// Each position holds a name other than the one at `best`, at that name's
/// first occurrence. The positions come by descending score, equal scores in
/// input order.
fn fallback_order(endpoints: &[String], scores: &Vec<u64>, best: usize) -> (order: Vec<usize>)
    requires
        scores@.len() == endpoints@.len(),
        best < endpoints@.len(),
    ensures
        forall|p: int|
            0 <= p < order@.len() ==> is_candidate(
                names_of(endpoints@),
                names_of(endpoints@)[best as int],
                #[trigger] order@[p] as int,
            ),
        forall|c: int|
            is_candidate(names_of(endpoints@), names_of(endpoints@)[best as int], c)
                ==> order@.contains(c as usize),
        forall|p: int, q: int|
            0 <= p < q < order@.len() ==> ranks_before(
                scores@,
                #[trigger] order@[p] as int,
                #[trigger] order@[q] as int,
            ),
{
    let n = endpoints.len();
    let ghost names = names_of(endpoints@);
    let ghost selected = names[best as int];
    let mut order: Vec<usize> = Vec::new();
    let mut i: usize = 0;
    while i < n
        invariant
            i <= n,
            n == endpoints@.len(),
            scores@.len() == n,
            best < n,
            names == names_of(endpoints@),
            selected == names[best as int],
            forall|p: int|
                0 <= p < order@.len() ==> (#[trigger] order@[p]) < i && is_candidate(
                    names,
                    selected,
                    order@[p] as int,
                ),
            forall|c: int| 0 <= c < i && is_candidate(names, selected, c) ==> order@.contains(c as usize),
            forall|p: int, q: int|
                0 <= p < q < order@.len() ==> ranks_before(
                    scores@,
                    #[trigger] order@[p] as int,
                    #[trigger] order@[q] as int,
                ),
        decreases n - i,
    {
        let ghost before = order@;
        let mut wanted = !str_eq(endpoints[i].as_str(), endpoints[best].as_str());
        let mut j: usize = 0;
        while wanted && j < i
            invariant
                j <= i,
                i < n,
                n == endpoints@.len(),
                names == names_of(endpoints@),
                wanted ==> forall|k: int| 0 <= k < j ==> names[k] != names[i as int],
                !wanted ==> (names[i as int] == selected || exists|k: int|
                    0 <= k < i && names[k] == names[i as int]),
                wanted ==> names[i as int] != selected,
            decreases i - j,
        {
            if str_eq(endpoints[j].as_str(), endpoints[i].as_str()) {
                assert(names[j as int] == names[i as int]);
                wanted = false;
            }
            j += 1;
        }
        if wanted {
            proof {
                lemma_first_position_is(names, names[i as int], i as int);
                assert(is_candidate(names, selected, i as int));
            }
            let mut at: usize = 0;
            while at < order.len() && scores[order[at]] >= scores[i]
                invariant
                    at <= order@.len(),
                    i < n,
                    scores@.len() == n,
                    order@ == before,
                    forall|p: int| 0 <= p < order@.len() ==> (#[trigger] order@[p]) < i,
                    forall|p: int| 0 <= p < at ==> scores@[(#[trigger] order@[p]) as int] >= scores@[i as int],
                decreases order@.len() - at,
            {
                at += 1;
            }
            order.insert(at, i);
            proof {
                let after = order@;
                assert(after.len() == before.len() + 1);
                assert(after[at as int] == i);
                assert forall|p: int| 0 <= p < at implies after[p] == before[p] by {}
                assert forall|p: int| at < p < after.len() implies after[p] == before[p - 1] by {}
                assert forall|p: int, q: int| 0 <= p < q < after.len() implies ranks_before(
                    scores@,
                    #[trigger] after[p] as int,
                    #[trigger] after[q] as int,
                ) by {
                    if q == at {
                        assert(after[p] == before[p]);
                    } else if p == at {
                        assert(after[q] == before[q - 1]);
                        if q - 1 > at {
                            assert(ranks_before(scores@, before[at as int] as int, before[q - 1] as int));
                        }
                    } else if q < at {
                        assert(ranks_before(scores@, before[p] as int, before[q] as int));
                    } else if p < at {
                        assert(ranks_before(scores@, before[p] as int, before[q - 1] as int));
                    } else {
                        assert(ranks_before(scores@, before[p - 1] as int, before[q - 1] as int));
                    }
                }
                assert forall|c: int| 0 <= c < i + 1 && is_candidate(names, selected, c) implies after.contains(
                    c as usize,
                ) by {
                    if c == i {
                        assert(after[at as int] == c as usize);
                    } else {
                        assert(before.contains(c as usize));
                        let p = choose|p: int| 0 <= p < before.len() && before[p] == c as usize;
                        if p < at {
                            assert(after[p] == c as usize);
                        } else {
                            assert(after[p + 1] == c as usize);
                        }
                    }
                }
                assert forall|p: int| 0 <= p < after.len() implies (#[trigger] after[p]) < i + 1
                    && is_candidate(names, selected, after[p] as int) by {
                    if p < at {
                        assert(after[p] == before[p]);
                    } else if p > at {
                        assert(after[p] == before[p - 1]);
                    }
                }
            }
        } else {
            proof {
                lemma_first_position(names, names[i as int]);
                assert(!is_candidate(names, selected, i as int));
            }
        }
        i += 1;
    }
    order
}

/// The text that explains a choice.
pub fn reasoning_for(selected: &str, confidence: u64) -> (text: String)
    ensures
        text@ == reasoning_text(selected@, confidence as nat),
{
    let mut text = String::new();
    text.append("Selected ");
    text.append(selected);
    text.append(" with score ");
    push_thousandths(&mut text, ((confidence as u128 + 500_000) / 1_000_000) as u64);
    text.append(" based on success rate and latency analysis");
    assert(text@ =~= reasoning_text(selected@, confidence as nat));
    text
}

impl AIEngine {
    /// Chooses among `available_endpoints` the first one of highest score and
    /// lists the others as fallbacks, best first. An endpoint that occurs
    /// more than once in the input counts once. The health table is read and
    /// not changed.
    pub fn select_endpoint(&self, service_name: &str, available_endpoints: &[String]) -> (decision:
        AIDecision)
        ensures
            is_decision(self@, names_of(available_endpoints@), decision@),
    {
        let n = available_endpoints.len();
        let ghost names = names_of(available_endpoints@);
        let ghost health = self@;
        if n == 0 {
            let decision = AIDecision {
                selected_endpoint: String::new(),
                confidence: 0,
                reasoning: "No available endpoints".to_owned(),
                fallback_endpoints: Vec::new(),
            };
            assert(decision@.fallback_endpoints =~= Seq::<Seq<char>>::empty());
            return decision;
        }
        let mut scores: Vec<u64> = Vec::new();
        let mut i: usize = 0;
        while i < n
            invariant
                i <= n,
                n == available_endpoints@.len(),
                scores@.len() == i,
                names == names_of(available_endpoints@),
                health == self@,
                forall|j: int| 0 <= j < i ==> (#[trigger] scores@[j]) == score_in(health, names[j]),
                forall|j: int| 0 <= j < i ==> (#[trigger] scores@[j]) <= UNIT,
            decreases n - i,
        {
            let score = self.score_of(available_endpoints[i].as_str());
            scores.push(score);
            i += 1;
        }
        let mut best: usize = 0;
        let mut i: usize = 1;
        while i < n
            invariant
                1 <= i <= n,
                best < i,
                scores@.len() == n,
                forall|j: int| 0 <= j < i ==> (#[trigger] scores@[j]) <= scores@[best as int],
                forall|j: int| 0 <= j < best ==> (#[trigger] scores@[j]) < scores@[best as int],
            decreases n - i,
        {
            if scores[i] > scores[best] {
                best = i;
            }
            i += 1;
        }
        let order = fallback_order(available_endpoints, &scores, best);
        let mut fallback: Vec<String> = Vec::new();
        let mut p: usize = 0;
        while p < order.len()
            invariant
                p <= order@.len(),
                fallback@.len() == p,
                names == names_of(available_endpoints@),
                forall|q: int| 0 <= q < order@.len() ==> (#[trigger] order@[q]) < names.len(),
                forall|q: int| 0 <= q < p ==> (#[trigger] fallback@[q])@ == names[order@[q] as int],
            decreases order@.len() - p,
        {
            fallback.push(available_endpoints[order[p]].clone());
            p += 1;
        }
        let selected = available_endpoints[best].clone();
        let confidence = scores[best];
        let reasoning = reasoning_for(selected.as_str(), confidence);
        let decision = AIDecision {
            selected_endpoint: selected,
            confidence,
            reasoning,
            fallback_endpoints: fallback,
        };
        proof {
            let chosen = names[best as int];
            let listed = decision@.fallback_endpoints;
            assert(is_first_best(health, names, best as int)) by {
                assert forall|j: int| 0 <= j < names.len() implies score_in(
                    health,
                    #[trigger] names[j],
                ) <= score_in(health, names[best as int]) by {
                    assert(scores@[j] <= scores@[best as int]);
                }
                assert forall|j: int| 0 <= j < best implies score_in(health, #[trigger] names[j])
                    < score_in(health, names[best as int]) by {
                    assert(scores@[j] < scores@[best as int]);
                }
            }
            assert(listed.len() == order@.len());
            assert forall|q: int| 0 <= q < listed.len() implies listed[q] == names[order@[q] as int]
                && first_position(names, #[trigger] listed[q]) == order@[q] && score_in(
                health,
                listed[q],
            ) == scores@[order@[q] as int] by {
                assert(is_candidate(names, chosen, order@[q] as int));
                assert(scores@[order@[q] as int] == score_in(health, names[order@[q] as int]));
            }
            assert forall|a: int, b: int| 0 <= a < b < listed.len() implies goes_before(
                health,
                names,
                #[trigger] listed[a],
                #[trigger] listed[b],
            ) by {
                assert(ranks_before(scores@, order@[a] as int, order@[b] as int));
            }
            assert(listed.no_duplicates()) by {
                assert forall|a: int, b: int| 0 <= a < listed.len() && 0 <= b < listed.len() && a
                    != b implies listed[a] != listed[b] by {
                    if a < b {
                        assert(ranks_before(scores@, order@[a] as int, order@[b] as int));
                    } else {
                        assert(ranks_before(scores@, order@[b] as int, order@[a] as int));
                    }
                }
            }
            assert forall|e: Seq<char>| #[trigger] listed.contains(e) <==> (names.contains(e) && e
                != chosen) by {
                if listed.contains(e) {
                    let q = choose|q: int| 0 <= q < listed.len() && listed[q] == e;
                    assert(is_candidate(names, chosen, order@[q] as int));
                    assert(names[order@[q] as int] == e);
                }
                if names.contains(e) && e != chosen {
                    lemma_first_position(names, e);
                    let c = first_position(names, e);
                    assert(is_candidate(names, chosen, c));
                    assert(order@.contains(c as usize));
                    let q = choose|q: int| 0 <= q < order@.len() && order@[q] == c as usize;
                    assert(listed[q] == e);
                }
            }
            assert(decision@.selected_endpoint == names[best as int]);
        }
        decision
    }
}

} // verus!
