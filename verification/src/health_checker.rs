//! The active-probe view of each endpoint, and what a round of probes has to
//! visit.
//!
//! The checker decides; whoever drives it sends the probes and hands the
//! outcomes back.

use crate::ai::{names_of, record_before, AIEngine, MetricsView, RequestMetrics};
use crate::config::{ServiceView, UpstreamService};
use crate::http::is_success;
use crate::table::Table;
use vstd::prelude::*;
use vstd::string::*;

verus! {

/// The time between two rounds of the periodic check, in seconds.
pub const PROBE_INTERVAL_SECS: u64 = 30;

/// The time a probe may take, in seconds.
pub const PROBE_TIMEOUT_SECS: u64 = 10;

/// What the last probes said of one endpoint.
pub struct HealthStatus {
    pub endpoint: String,
    pub is_healthy: bool,
    /// Seconds since the epoch of the last probe.
    pub last_check: u64,
    pub response_time_ms: u64,
    pub consecutive_failures: u32,
    pub consecutive_successes: u32,
}

/// A health status as mathematical values.
pub struct StatusView {
    pub endpoint: Seq<char>,
    pub is_healthy: bool,
    pub last_check: nat,
    pub response_time_ms: nat,
    pub consecutive_failures: nat,
    pub consecutive_successes: nat,
}

impl View for HealthStatus {
    type V = StatusView;

    open spec fn view(&self) -> StatusView {
        StatusView {
            endpoint: self.endpoint@,
            is_healthy: self.is_healthy,
            last_check: self.last_check as nat,
            response_time_ms: self.response_time_ms as nat,
            consecutive_failures: self.consecutive_failures as nat,
            consecutive_successes: self.consecutive_successes as nat,
        }
    }
}

impl Clone for HealthStatus {
    fn clone(&self) -> (copy: Self)
        ensures
            copy == *self,
    {
        HealthStatus {
            endpoint: self.endpoint.clone(),
            is_healthy: self.is_healthy,
            last_check: self.last_check,
            response_time_ms: self.response_time_ms,
            consecutive_failures: self.consecutive_failures,
            consecutive_successes: self.consecutive_successes,
        }
    }
}

/// A run length after one more probe of its kind: one more, up to the
/// largest 32-bit value.
pub open spec fn longer_run(run: nat) -> nat {
    if run < u32::MAX {
        run + 1
    } else {
        run
    }
}

impl StatusView {
    /// The status of an endpoint that no probe has reached: presumed healthy.
    pub open spec fn unknown(endpoint: Seq<char>) -> StatusView {
        StatusView {
            endpoint,
            is_healthy: true,
            last_check: 0,
            response_time_ms: 0,
            consecutive_failures: 0,
            consecutive_successes: 0,
        }
    }

    /// At most one of the two runs is under way.
    pub open spec fn one_run(self) -> bool {
        self.consecutive_failures == 0 || self.consecutive_successes == 0
    }

    /// The status after a periodic probe.
    pub open spec fn after_probe(self, healthy: bool, response_time_ms: nat, now: nat) -> StatusView {
        StatusView {
            endpoint: self.endpoint,
            is_healthy: healthy,
            last_check: now,
            response_time_ms,
            consecutive_failures: if healthy {
                0
            } else {
                longer_run(self.consecutive_failures)
            },
            consecutive_successes: if healthy {
                longer_run(self.consecutive_successes)
            } else {
                0
            },
        }
    }

    /// The status after it was marked unhealthy by hand.
    pub open spec fn marked_unhealthy(self) -> StatusView {
        StatusView {
            is_healthy: false,
            consecutive_failures: longer_run(self.consecutive_failures),
            consecutive_successes: 0,
            ..self
        }
    }
}

/// Every step of a status keeps at most one run under way: a probe ends the
/// run of the other kind, and a mark by hand ends the run of successes.
pub proof fn lemma_steps_keep_one_run(
    status: StatusView,
    healthy: bool,
    response_time_ms: nat,
    now: nat,
)
    ensures
        StatusView::unknown(status.endpoint).one_run(),
        status.after_probe(healthy, response_time_ms, now).one_run(),
        status.marked_unhealthy().one_run(),
{
}

/// One probe to send: a GET to `url` on behalf of `endpoint`.
pub struct ProbeTarget {
    pub endpoint: String,
    pub url: String,
}

/// A probe target as mathematical values.
pub struct TargetView {
    pub endpoint: Seq<char>,
    pub url: Seq<char>,
}

impl View for ProbeTarget {
    type V = TargetView;

    open spec fn view(&self) -> TargetView {
        TargetView { endpoint: self.endpoint@, url: self.url@ }
    }
}

/// The probe targets of a list as mathematical values.
pub open spec fn targets_view(targets: Seq<ProbeTarget>) -> Seq<TargetView> {
    Seq::new(targets.len(), |i: int| targets[i]@)
}

/// The probes of one service: each endpoint, in order, with the health-check
/// path behind it.
pub open spec fn service_targets(service: ServiceView) -> Seq<TargetView> {
    Seq::new(
        service.endpoints.len(),
        |i: int|
            TargetView {
                endpoint: service.endpoints[i],
                url: service.endpoints[i] + service.health_check_path,
            },
    )
}

/// The probes of one round: those of each service, in order.
pub open spec fn round_targets(services: Seq<ServiceView>) -> Seq<TargetView>
    decreases services.len(),
{
    if services.len() == 0 {
        Seq::empty()
    } else {
        round_targets(services.drop_last()) + service_targets(services.last())
    }
}

/// The status that a probe of `endpoint` starts from.
pub open spec fn status_before(statuses: Map<Seq<char>, StatusView>, endpoint: Seq<char>) -> StatusView {
    if statuses.contains_key(endpoint) {
        statuses[endpoint]
    } else {
        StatusView::unknown(endpoint)
    }
}

/// `endpoint` is one of the endpoints of the service configured under
/// `service_name`.
pub open spec fn belongs_to(
    services: Map<Seq<char>, ServiceView>,
    service_name: Seq<char>,
    endpoint: Seq<char>,
) -> bool {
    services.contains_key(service_name) && services[service_name].endpoints.contains(endpoint)
}

/// The test that passes the endpoints that count as healthy: those marked
/// healthy and those that no probe has reached yet.
pub open spec fn presumed_healthy(statuses: Map<Seq<char>, StatusView>) -> spec_fn(Seq<char>) -> bool {
    |endpoint: Seq<char>| !statuses.contains_key(endpoint) || statuses[endpoint].is_healthy
}

/// What a probe's outcome feeds into the health table: status 200 for a
/// healthy endpoint, 503 for an unhealthy one.
pub open spec fn probe_sample(
    endpoint: Seq<char>,
    healthy: bool,
    response_time_ms: nat,
    now: nat,
) -> MetricsView {
    MetricsView {
        latency_ms: response_time_ms,
        status_code: if healthy {
            200
        } else {
            503
        },
        endpoint,
        timestamp: now,
        success: healthy,
    }
}

/// Whether a probe's outcome counts as healthy: a response came and its
/// status is in the 2xx range.
pub fn probe_is_healthy(status: Option<u16>) -> (healthy: bool)
    ensures
        healthy == (status matches Some(code) && 200 <= code < 300),
{
    match status {
        Some(code) => is_success(code),
        None => false,
    }
}

fn bump(run: u32) -> (longer: u32)
    ensures
        longer == longer_run(run as nat),
{
    if run < u32::MAX {
        run + 1
    } else {
        run
    }
}

/// The probes of one service.
fn targets_of(service: &UpstreamService) -> (targets: Vec<ProbeTarget>)
    ensures
        targets_view(targets@) == service_targets(service@),
{
    let mut targets: Vec<ProbeTarget> = Vec::new();
    let mut i: usize = 0;
    while i < service.endpoints.len()
        invariant
            i <= service.endpoints@.len(),
            targets@.len() == i,
            forall|j: int|
                0 <= j < i ==> (#[trigger] targets@[j])@ == service_targets(service@)[j],
        decreases service.endpoints@.len() - i,
    {
        let mut url = service.endpoints[i].clone();
        url.append(service.health_check_path.as_str());
        targets.push(ProbeTarget { endpoint: service.endpoints[i].clone(), url });
        i += 1;
    }
    assert(targets_view(targets@) =~= service_targets(service@));
    targets
}

pub struct HealthChecker {
    services: Table<UpstreamService>,
    health_status: Table<HealthStatus>,
}

impl HealthChecker {
    /// Every status is filed under its own endpoint and has at most one run
    /// under way.
    #[verifier::type_invariant]
    pub closed spec fn wf(&self) -> bool {
        &&& self.services.wf()
        &&& self.health_status.wf()
        &&& forall|i: int|
            0 <= i < self.health_status.values().len() ==> {
                &&& (#[trigger] self.health_status.values()[i])@.one_run()
                &&& self.health_status.values()[i].endpoint@ == self.health_status.keys()[i]
            }
    }

    /// The status of each endpoint that a probe has reached.
    pub closed spec fn statuses(&self) -> Map<Seq<char>, StatusView> {
        Map::new(
            |k: Seq<char>| self.health_status@.contains_key(k),
            |k: Seq<char>| self.health_status@[k]@,
        )
    }

    /// The endpoints that a probe has reached, in the order of their first
    /// probe.
    pub closed spec fn probed(&self) -> Seq<Seq<char>> {
        self.health_status.keys()
    }

    /// The services in configuration order.
    pub closed spec fn services(&self) -> Seq<ServiceView> {
        Seq::new(self.services.values().len(), |i: int| self.services.values()[i]@)
    }

    /// The services by the name they are configured under.
    pub closed spec fn service_map(&self) -> Map<Seq<char>, ServiceView> {
        Map::new(
            |k: Seq<char>| self.services@.contains_key(k),
            |k: Seq<char>| self.services@[k]@,
        )
    }

    /// In every status of a well-formed checker at most one of the two runs
    /// is under way, and the status carries the endpoint it is filed under.
    pub proof fn lemma_one_run(&self)
        requires
            self.wf(),
        ensures
            forall|k: Seq<char>| #[trigger]
                self.statuses().contains_key(k) ==> self.statuses()[k].one_run()
                    && self.statuses()[k].endpoint == k,
    {
        assert forall|k: Seq<char>| #[trigger] self.statuses().contains_key(k) implies self.statuses()[k].one_run()
            && self.statuses()[k].endpoint == k by {
            let i = self.health_status.keys().index_of(k);
            self.health_status.lemma_shape();
            self.health_status.lemma_at(i);
            assert(self.health_status.values()[i]@.one_run());
        }
    }

    /// A checker for `services` that has probed nothing yet.
    pub fn new(services: Table<UpstreamService>) -> (checker: Self)
        ensures
            checker.statuses() == Map::<Seq<char>, StatusView>::empty(),
            checker.service_map() == Map::new(
                |k: Seq<char>| services@.contains_key(k),
                |k: Seq<char>| services@[k]@,
            ),
            checker.services() == Seq::new(
                services.values().len(),
                |i: int| services.values()[i]@,
            ),
    {
        let health_status: Table<HealthStatus> = Table::new();
        proof {
            use_type_invariant(&health_status);
            use_type_invariant(&services);
        }
        let checker = HealthChecker { services, health_status };
        assert(checker.statuses() =~= Map::<Seq<char>, StatusView>::empty());
        checker
    }

    /// Starts a round of the periodic check: tells which probes to send,
    /// one for every endpoint of every service, in configuration order. The
    /// outcome of each goes to `record_probe`.
    pub fn start_health_checks(&self) -> (targets: Vec<ProbeTarget>)
        ensures
            targets_view(targets@) == round_targets(self.services()),
    {
        let ghost services = self.services();
        let mut targets: Vec<ProbeTarget> = Vec::new();
        let n = self.services.len();
        let mut i: usize = 0;
        assert(targets_view(targets@) =~= round_targets(services.take(0)));
        while i < n
            invariant
                i <= n,
                n == self.services.values().len(),
                services == self.services(),
                targets_view(targets@) == round_targets(services.take(i as int)),
            decreases n - i,
        {
            let mut more = targets_of(self.services.value_at(i));
            let ghost before = targets@;
            let ghost added = more@;
            targets.append(&mut more);
            proof {
                assert(services.take(i + 1).drop_last() =~= services.take(i as int));
                assert(services.take(i + 1).last() == self.services.values()[i as int]@);
                assert(targets_view(targets@) =~= targets_view(before) + targets_view(added));
            }
            i += 1;
        }
        proof {
            assert(services.take(n as int) =~= services);
        }
        targets
    }

    /// Starts a check of one service outside the cadence: tells which
    /// probes to send, none for an unknown service. The pass is one like the
    /// periodic one: the outcome of each probe goes to
    /// `record_forced_probe`, which books it as `record_probe` does.
    pub fn force_health_check(&self, service_name: &str) -> (targets: Vec<ProbeTarget>)
        ensures
            targets_view(targets@) == (if self.service_map().contains_key(service_name@) {
                service_targets(self.service_map()[service_name@])
            } else {
                Seq::empty()
            }),
    {
        match self.services.get(service_name) {
            Some(service) => targets_of(service),
            None => {
                let targets: Vec<ProbeTarget> = Vec::new();
                assert(targets_view(targets@) =~= Seq::<TargetView>::empty());
                targets
            },
        }
    }

    /// Takes in the outcome of a probe of `endpoint`, sent in a periodic
    /// round or in a check outside the cadence: the status moves on, and the
    /// same outcome is counted into the health table as a request of status
    /// 200 or 503.
    pub fn record_probe(
        &mut self,
        engine: &mut AIEngine,
        endpoint: &str,
        healthy: bool,
        response_time_ms: u64,
        now: u64,
    )
        ensures
            final(self).services() == old(self).services(),
            final(self).service_map() == old(self).service_map(),
            final(self).statuses() == old(self).statuses().insert(
                endpoint@,
                status_before(old(self).statuses(), endpoint@).after_probe(
                    healthy,
                    response_time_ms as nat,
                    now as nat,
                ),
            ),
            final(engine)@ == old(engine)@.insert(
                endpoint@,
                record_before(old(engine)@, endpoint@, now as nat).observe(
                    probe_sample(endpoint@, healthy, response_time_ms as nat, now as nat),
                ),
            ),
    {
        proof {
            use_type_invariant(&*self);
            self.lemma_one_run();
            if self.health_status@.contains_key(endpoint@) {
                assert(self.statuses().contains_key(endpoint@));
            }
        }
        let next = match self.health_status.get(endpoint) {
            Some(status) => HealthStatus {
                endpoint: status.endpoint.clone(),
                is_healthy: healthy,
                last_check: now,
                response_time_ms,
                consecutive_failures: if healthy {
                    0
                } else {
                    bump(status.consecutive_failures)
                },
                consecutive_successes: if healthy {
                    bump(status.consecutive_successes)
                } else {
                    0
                },
            },
            None => HealthStatus {
                endpoint: endpoint.to_owned(),
                is_healthy: healthy,
                last_check: now,
                response_time_ms,
                consecutive_failures: if healthy {
                    0
                } else {
                    1
                },
                consecutive_successes: if healthy {
                    1
                } else {
                    0
                },
            },
        };
        self.put_status(endpoint, next);
        engine.record_request(
            RequestMetrics {
                latency_ms: response_time_ms,
                status_code: if healthy {
                    200
                } else {
                    503
                },
                endpoint: endpoint.to_owned(),
                timestamp: now,
                success: healthy,
            },
        );
    }

    /// Whether `endpoint` is one of the endpoints of the service configured
    /// under `service_name`.
    pub fn lists_endpoint(&self, service_name: &str, endpoint: &str) -> (listed: bool)
        ensures
            listed == belongs_to(self.service_map(), service_name@, endpoint@),
    {
        match self.services.get(service_name) {
            Some(service) => {
                let ghost all = service@.endpoints;
                let mut i: usize = 0;
                while i < service.endpoints.len()
                    invariant
                        i <= service.endpoints@.len(),
                        all == service@.endpoints,
                        all.len() == service.endpoints@.len(),
                        self.service_map().contains_key(service_name@),
                        self.service_map()[service_name@].endpoints == all,
                        forall|j: int| 0 <= j < i ==> all[j] != endpoint@,
                    decreases service.endpoints@.len() - i,
                {
                    if crate::text::str_eq(service.endpoints[i].as_str(), endpoint) {
                        assert(all[i as int] == endpoint@);
                        return true;
                    }
                    i += 1;
                }
                false
            },
            None => false,
        }
    }

    /// Takes in the outcome of one probe of a check of `service_name` outside
    /// the cadence. For an endpoint of that service this is what
    /// `record_probe` does: the runs move and the health table counts the
    /// outcome. For an unknown service, or an endpoint that is not one of
    /// the service's, nothing changes.
    pub fn record_forced_probe(
        &mut self,
        engine: &mut AIEngine,
        service_name: &str,
        endpoint: &str,
        healthy: bool,
        response_time_ms: u64,
        now: u64,
    )
        ensures
            final(self).services() == old(self).services(),
            final(self).service_map() == old(self).service_map(),
            belongs_to(old(self).service_map(), service_name@, endpoint@) ==> {
                &&& final(self).statuses() == old(self).statuses().insert(
                    endpoint@,
                    status_before(old(self).statuses(), endpoint@).after_probe(
                        healthy,
                        response_time_ms as nat,
                        now as nat,
                    ),
                )
                &&& final(engine)@ == old(engine)@.insert(
                    endpoint@,
                    record_before(old(engine)@, endpoint@, now as nat).observe(
                        probe_sample(endpoint@, healthy, response_time_ms as nat, now as nat),
                    ),
                )
            },
            !belongs_to(old(self).service_map(), service_name@, endpoint@) ==> {
                &&& final(self).statuses() == old(self).statuses()
                &&& final(engine)@ == old(engine)@
            },
    {
        if self.lists_endpoint(service_name, endpoint) {
            self.record_probe(engine, endpoint, healthy, response_time_ms, now);
        }
    }

    /// Marks `endpoint` unhealthy by hand, which counts as one more failure.
    /// An endpoint that no probe has reached stays unknown.
    pub fn mark_endpoint_unhealthy(&mut self, endpoint: &str)
        ensures
            final(self).services() == old(self).services(),
            final(self).service_map() == old(self).service_map(),
            final(self).statuses() == (if old(self).statuses().contains_key(endpoint@) {
                old(self).statuses().insert(
                    endpoint@,
                    old(self).statuses()[endpoint@].marked_unhealthy(),
                )
            } else {
                old(self).statuses()
            }),
    {
        proof {
            use_type_invariant(&*self);
            self.lemma_one_run();
            if self.health_status@.contains_key(endpoint@) {
                assert(self.statuses().contains_key(endpoint@));
            }
        }
        let next = match self.health_status.get(endpoint) {
            Some(status) => Some(
                HealthStatus {
                    endpoint: status.endpoint.clone(),
                    is_healthy: false,
                    last_check: status.last_check,
                    response_time_ms: status.response_time_ms,
                    consecutive_failures: bump(status.consecutive_failures),
                    consecutive_successes: 0,
                },
            ),
            None => None,
        };
        match next {
            Some(status) => {
                self.put_status(endpoint, status);
            },
            None => {},
        }
    }

    /// Files `status` under `endpoint`.
    fn put_status(&mut self, endpoint: &str, status: HealthStatus)
        requires
            status@.one_run(),
            status.endpoint@ == endpoint@,
        ensures
            final(self).services() == old(self).services(),
            final(self).service_map() == old(self).service_map(),
            final(self).statuses() == old(self).statuses().insert(endpoint@, status@),
    {
        proof {
            use_type_invariant(&*self);
        }
        let mut table: Table<HealthStatus> = Table::new();
        proof {
            use_type_invariant(&table);
        }
        std::mem::swap(&mut table, &mut self.health_status);
        let ghost before = table;
        table.insert(endpoint, status);
        proof {
            use_type_invariant(&table);
            before.lemma_shape();
            assert forall|i: int| 0 <= i < table.values().len() implies {
                &&& (#[trigger] table.values()[i])@.one_run()
                &&& table.values()[i].endpoint@ == table.keys()[i]
            } by {
                if before@.contains_key(endpoint@) {
                    let at = before.keys().index_of(endpoint@);
                    before.lemma_at(at);
                    if i != at {
                        assert(table.values()[i] == before.values()[i]);
                    }
                } else {
                    if i < before.values().len() {
                        assert(table.values()[i] == before.values()[i]);
                    }
                }
            }
        }
        self.health_status = table;
        proof {
            assert(self.statuses() =~= old(self).statuses().insert(endpoint@, status@));
        }
    }

    /// Whether `endpoint` counts as healthy: it is marked so, or no probe has
    /// reached it yet.
    pub fn is_endpoint_healthy(&self, endpoint: &str) -> (healthy: bool)
        ensures
            healthy == presumed_healthy(self.statuses())(endpoint@),
    {
        match self.health_status.get(endpoint) {
            Some(status) => status.is_healthy,
            None => true,
        }
    }

    /// The endpoints of a service that count as healthy, in configuration
    /// order; none for an unknown service.
    pub fn get_healthy_endpoints(&self, service_name: &str) -> (healthy: Vec<String>)
        ensures
            names_of(healthy@) == (if self.service_map().contains_key(
                service_name@,
            ) {
                self.service_map()[service_name@].endpoints.filter(
                    presumed_healthy(self.statuses()),
                )
            } else {
                Seq::empty()
            }),
    {
        let mut healthy: Vec<String> = Vec::new();
        match self.services.get(service_name) {
            Some(service) => {
                let ghost all = service@.endpoints;
                let ghost keep = presumed_healthy(self.statuses());
                let mut i: usize = 0;
                proof {
                    reveal(Seq::filter);
                    assert(names_of(healthy@) =~= all.take(0).filter(
                        keep,
                    ));
                }
                while i < service.endpoints.len()
                    invariant
                        i <= service.endpoints@.len(),
                        all == service@.endpoints,
                        keep == presumed_healthy(self.statuses()),
                        names_of(healthy@) == all.take(i as int).filter(
                            keep,
                        ),
                    decreases service.endpoints@.len() - i,
                {
                    proof {
                        reveal(Seq::filter);
                        assert(all.take(i + 1).drop_last() =~= all.take(i as int));
                        assert(all.take(i + 1).last() == service.endpoints@[i as int]@);
                    }
                    let ghost before = names_of(healthy@);
                    if self.is_endpoint_healthy(service.endpoints[i].as_str()) {
                        healthy.push(service.endpoints[i].clone());
                        assert(names_of(healthy@) =~= before.push(
                            service.endpoints@[i as int]@,
                        ));
                    }
                    i += 1;
                }
                proof {
                    assert(all.take(all.len() as int) =~= all);
                }
            },
            None => {
                assert(names_of(healthy@) =~= Seq::<
                    Seq<char>,
                >::empty());
            },
        }
        healthy
    }

    /// A copy of the status of `endpoint`, if a probe has reached it.
    pub fn get_health_status(&self, endpoint: &str) -> (found: Option<HealthStatus>)
        ensures
            found is Some <==> self.statuses().contains_key(endpoint@),
            found matches Some(status) ==> status@ == self.statuses()[endpoint@]
                && status@.one_run(),
    {
        proof {
            use_type_invariant(self);
            self.lemma_one_run();
        }
        match self.health_status.get(endpoint) {
            Some(status) => Some(status.clone()),
            None => None,
        }
    }

    /// Copies of all statuses, in the order of first probe.
    pub fn get_all_health_status(&self) -> (all: Vec<HealthStatus>)
        ensures
            all@.len() == self.probed().len(),
            forall|i: int|
                0 <= i < all@.len() ==> {
                    &&& (#[trigger] all@[i])@ == self.statuses()[self.probed()[i]]
                    &&& all@[i]@.endpoint == self.probed()[i]
                    &&& all@[i]@.one_run()
                },
    {
        proof {
            use_type_invariant(self);
            self.lemma_one_run();
        }
        let mut all: Vec<HealthStatus> = Vec::new();
        let n = self.health_status.len();
        let mut i: usize = 0;
        while i < n
            invariant
                i <= n,
                n == self.health_status.values().len(),
                n == self.health_status.keys().len(),
                self.health_status.wf(),
                all@.len() == i,
                forall|j: int|
                    0 <= j < i ==> (#[trigger] all@[j])@ == self.statuses()[self.probed()[j]],
            decreases n - i,
        {
            let status = self.health_status.value_at(i).clone();
            proof {
                self.health_status.lemma_at(i as int);
            }
            all.push(status);
            i += 1;
        }
        proof {
            assert forall|i: int| 0 <= i < all@.len() implies {
                &&& (#[trigger] all@[i])@ == self.statuses()[self.probed()[i]]
                &&& all@[i]@.endpoint == self.probed()[i]
                &&& all@[i]@.one_run()
            } by {
                self.health_status.lemma_at(i);
            }
        }
        all
    }
}

} // verus!
