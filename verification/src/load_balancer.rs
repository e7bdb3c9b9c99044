//! Strategies that pick one endpoint out of a list without looking at its
//! health.

use crate::clock::unix_nanos;
use crate::table::Table;
use vstd::prelude::*;

verus! {

#[derive(Debug, Clone, Copy, PartialEq, Eq, Structural)]
pub enum LoadBalancingStrategy {
    RoundRobin,
    WeightedRoundRobin,
    LeastConnections,
    Random,
}

/// The count on record under `name`; zero where there is none.
pub open spec fn count_of(counts: Map<Seq<char>, usize>, name: Seq<char>) -> usize {
    if counts.contains_key(name) {
        counts[name]
    } else {
        0
    }
}

/// The turn after `count`: one more, starting over at zero after the
/// largest value.
pub open spec fn next_count(count: usize) -> usize {
    if count == usize::MAX {
        0
    } else {
        (count + 1) as usize
    }
}

/// A count of connections with one more: it stops at the largest value.
pub open spec fn one_more(count: usize) -> usize {
    if count == usize::MAX {
        count
    } else {
        (count + 1) as usize
    }
}

/// A count of connections with one less: it stops at zero.
pub open spec fn one_less(count: usize) -> usize {
    if count == 0 {
        0
    } else {
        (count - 1) as usize
    }
}

/// `least` is the first position among `endpoints` with the fewest active
/// connections.
pub open spec fn is_first_least(
    connections: Map<Seq<char>, usize>,
    endpoints: Seq<String>,
    least: int,
) -> bool {
    &&& 0 <= least < endpoints.len()
    &&& forall|j: int|
        0 <= j < endpoints.len() ==> count_of(connections, endpoints[least]@) <= count_of(
            connections,
            (#[trigger] endpoints[j])@,
        )
    &&& forall|j: int|
        0 <= j < least ==> count_of(connections, endpoints[least]@) < count_of(
            connections,
            (#[trigger] endpoints[j])@,
        )
}

/// The position that a hash value picks among `len` endpoints.
pub open spec fn hashed_index(hash: u64, len: usize) -> int {
    (hash as usize) as int % len as int
}

/// `BuildHasher::hash_one` of the standard library with its
/// `DefaultHasher`: the hash of a clock reading. Nothing is claimed of the
/// value.
#[verifier::external_body]
fn hash_reading(nanos: u128) -> u64 {
    std::hash::BuildHasher::hash_one(
        &std::hash::BuildHasherDefault::<std::collections::hash_map::DefaultHasher>::default(),
        nanos,
    )
}

fn increased(count: usize) -> (next: usize)
    ensures
        next == next_count(count),
{
    if count == usize::MAX {
        0
    } else {
        count + 1
    }
}

fn with_one_more(count: usize) -> (more: usize)
    ensures
        more == one_more(count),
{
    if count == usize::MAX {
        count
    } else {
        count + 1
    }
}

fn with_one_less(count: usize) -> (less: usize)
    ensures
        less == one_less(count),
{
    if count == 0 {
        0
    } else {
        count - 1
    }
}

/// The endpoint that a hash value picks.
pub fn select_by_hash(endpoints: &[String], hash: u64) -> (selected: Option<String>)
    ensures
        endpoints@.len() == 0 ==> selected is None,
        endpoints@.len() > 0 ==> selected == Some(
            endpoints@[hashed_index(hash, endpoints@.len() as usize)],
        ),
{
    if endpoints.len() == 0 {
        return None;
    }
    let index: usize = (#[verifier::truncate] (hash as usize)) % endpoints.len();
    Some(endpoints[index].clone())
}

pub struct LoadBalancer {
    strategy: LoadBalancingStrategy,
    round_robin_counters: Table<usize>,
    connection_counts: Table<usize>,
}

/// `selected` is what a balancer in state `before` picks for `service_name`
/// out of `endpoints`, and `after` is the balancer's state then.
///
/// Strategy and connection counts stay. An empty list gives nothing. Round
/// robin, weighted or not, gives the endpoint at the service's counter
/// modulo the length of the list and moves the counter on. Least
/// connections gives the first endpoint with the fewest connections. Random
/// gives the endpoint that some hash value picks.
pub open spec fn is_selection(
    before: LoadBalancer,
    after: LoadBalancer,
    service_name: Seq<char>,
    endpoints: Seq<String>,
    selected: Option<String>,
) -> bool {
    &&& after.strategy() == before.strategy()
    &&& after.connections() == before.connections()
    &&& endpoints.len() == 0 ==> selected is None && after.counters() == before.counters()
    &&& endpoints.len() > 0 ==> match before.strategy() {
        LoadBalancingStrategy::RoundRobin | LoadBalancingStrategy::WeightedRoundRobin => {
            &&& selected == Some(
                endpoints[count_of(before.counters(), service_name) as int
                    % endpoints.len() as int],
            )
            &&& after.counters() == before.counters().insert(
                service_name,
                next_count(count_of(before.counters(), service_name)),
            )
        },
        LoadBalancingStrategy::LeastConnections => {
            &&& exists|least: int|
                is_first_least(before.connections(), endpoints, least) && selected == Some(
                    #[trigger] endpoints[least],
                )
            &&& after.counters() == before.counters()
        },
        LoadBalancingStrategy::Random => {
            &&& exists|hash: u64|
                selected == Some(endpoints[#[trigger] hashed_index(hash, endpoints.len() as usize)])
            &&& after.counters() == before.counters()
        },
    }
}

impl LoadBalancer {
    pub closed spec fn strategy(&self) -> LoadBalancingStrategy {
        self.strategy
    }

    /// The round-robin counter of each service that has been served.
    pub closed spec fn counters(&self) -> Map<Seq<char>, usize> {
        self.round_robin_counters@
    }

    /// The active connections counted for each endpoint.
    pub closed spec fn connections(&self) -> Map<Seq<char>, usize> {
        self.connection_counts@
    }

    /// A round-robin balancer.
    pub fn new() -> (balancer: Self)
        ensures
            balancer.strategy() == LoadBalancingStrategy::RoundRobin,
            balancer.counters() == Map::<Seq<char>, usize>::empty(),
            balancer.connections() == Map::<Seq<char>, usize>::empty(),
    {
        LoadBalancer {
            strategy: LoadBalancingStrategy::RoundRobin,
            round_robin_counters: Table::new(),
            connection_counts: Table::new(),
        }
    }

    pub fn with_strategy(strategy: LoadBalancingStrategy) -> (balancer: Self)
        ensures
            balancer.strategy() == strategy,
            balancer.counters() == Map::<Seq<char>, usize>::empty(),
            balancer.connections() == Map::<Seq<char>, usize>::empty(),
    {
        LoadBalancer {
            strategy,
            round_robin_counters: Table::new(),
            connection_counts: Table::new(),
        }
    }

    /// The next endpoint in turn for `service_name`: the service's counter
    /// modulo the number of endpoints picks it, and the counter moves on.
    fn round_robin_select(&mut self, service_name: &str, endpoints: &[String]) -> (selected:
        Option<String>)
        requires
            endpoints@.len() > 0,
        ensures
            selected == Some(
                endpoints@[count_of(old(self).counters(), service_name@) as int
                    % endpoints@.len() as int],
            ),
            final(self).counters() == old(self).counters().insert(
                service_name@,
                next_count(count_of(old(self).counters(), service_name@)),
            ),
            final(self).connections() == old(self).connections(),
            final(self).strategy() == old(self).strategy(),
    {
        let counter: usize = match self.round_robin_counters.get(service_name) {
            Some(count) => *count,
            None => 0,
        };
        self.round_robin_counters.insert(service_name, increased(counter));
        let index: usize = counter % endpoints.len();
        Some(endpoints[index].clone())
    }

    /// Weights are not configured: the same as round robin.
    fn weighted_round_robin_select(&mut self, service_name: &str, endpoints: &[String]) -> (selected:
        Option<String>)
        requires
            endpoints@.len() > 0,
        ensures
            selected == Some(
                endpoints@[count_of(old(self).counters(), service_name@) as int
                    % endpoints@.len() as int],
            ),
            final(self).counters() == old(self).counters().insert(
                service_name@,
                next_count(count_of(old(self).counters(), service_name@)),
            ),
            final(self).connections() == old(self).connections(),
            final(self).strategy() == old(self).strategy(),
    {
        self.round_robin_select(service_name, endpoints)
    }

    /// The first endpoint with the fewest active connections.
    fn least_connections_select(&self, endpoints: &[String]) -> (selected: Option<String>)
        requires
            endpoints@.len() > 0,
        ensures
            exists|least: int|
                is_first_least(self.connections(), endpoints@, least) && selected == Some(
                    #[trigger] endpoints@[least],
                ),
    {
        let mut least: usize = 0;
        let mut fewest: usize = self.get_connection_count(endpoints[0].as_str());
        let mut i: usize = 1;
        while i < endpoints.len()
            invariant
                1 <= i <= endpoints@.len(),
                least < i,
                fewest == count_of(self.connections(), endpoints@[least as int]@),
                forall|j: int|
                    0 <= j < i ==> fewest <= count_of(
                        self.connections(),
                        (#[trigger] endpoints@[j])@,
                    ),
                forall|j: int|
                    0 <= j < least ==> fewest < count_of(
                        self.connections(),
                        (#[trigger] endpoints@[j])@,
                    ),
            decreases endpoints@.len() - i,
        {
            let count = self.get_connection_count(endpoints[i].as_str());
            if count < fewest {
                fewest = count;
                least = i;
            }
            i += 1;
        }
        assert(is_first_least(self.connections(), endpoints@, least as int));
        Some(endpoints[least].clone())
    }

    /// An endpoint picked by a hash of the wall clock's nanoseconds.
    fn random_select(&self, endpoints: &[String]) -> (selected: Option<String>)
        requires
            endpoints@.len() > 0,
        ensures
            exists|hash: u64|
                selected == Some(
                    endpoints@[#[trigger] hashed_index(hash, endpoints@.len() as usize)],
                ),
    {
        let hash = hash_reading(unix_nanos());
        select_by_hash(endpoints, hash)
    }

    /// Picks an endpoint by the balancer's strategy; none from an empty
    /// list.
    pub fn select_endpoint(&mut self, service_name: &str, endpoints: &[String]) -> (selected:
        Option<String>)
        ensures
            is_selection(*old(self), *final(self), service_name@, endpoints@, selected),
            endpoints@.len() == 0 <==> selected is None,
            selected matches Some(endpoint) ==> endpoints@.contains(endpoint),
    {
        if endpoints.len() == 0 {
            return None;
        }
        let selected = match self.strategy {
            LoadBalancingStrategy::RoundRobin => self.round_robin_select(service_name, endpoints),
            LoadBalancingStrategy::WeightedRoundRobin => self.weighted_round_robin_select(
                service_name,
                endpoints,
            ),
            LoadBalancingStrategy::LeastConnections => self.least_connections_select(endpoints),
            LoadBalancingStrategy::Random => self.random_select(endpoints),
        };
        proof {
            let len = endpoints@.len() as int;
            match old(self).strategy() {
                LoadBalancingStrategy::RoundRobin | LoadBalancingStrategy::WeightedRoundRobin => {
                    let index = count_of(old(self).counters(), service_name@) as int % len;
                    assert(0 <= index < len);
                    assert(endpoints@[index] == selected->0);
                },
                LoadBalancingStrategy::LeastConnections => {
                    let least = choose|least: int|
                        is_first_least(old(self).connections(), endpoints@, least) && selected
                            == Some(#[trigger] endpoints@[least]);
                    assert(endpoints@[least] == selected->0);
                },
                LoadBalancingStrategy::Random => {
                    let hash = choose|hash: u64|
                        selected == Some(
                            endpoints@[#[trigger] hashed_index(hash, endpoints@.len() as usize)],
                        );
                    let index = hashed_index(hash, endpoints@.len() as usize);
                    assert(0 <= index < len);
                    assert(endpoints@[index] == selected->0);
                },
            }
        }
        selected
    }

    /// Counts one more active connection to `endpoint`, up to the largest
    /// value a count can hold.
    pub fn increment_connections(&mut self, endpoint: &str)
        ensures
            final(self).connections() == old(self).connections().insert(
                endpoint@,
                one_more(count_of(old(self).connections(), endpoint@)),
            ),
            final(self).counters() == old(self).counters(),
            final(self).strategy() == old(self).strategy(),
    {
        let count: usize = self.get_connection_count(endpoint);
        self.connection_counts.insert(endpoint, with_one_more(count));
    }

    /// Counts one active connection to `endpoint` less, if the endpoint has
    /// been counted at all. A count of zero stays zero.
    pub fn decrement_connections(&mut self, endpoint: &str)
        ensures
            final(self).connections() == (if old(self).connections().contains_key(endpoint@) {
                old(self).connections().insert(
                    endpoint@,
                    one_less(old(self).connections()[endpoint@]),
                )
            } else {
                old(self).connections()
            }),
            final(self).counters() == old(self).counters(),
            final(self).strategy() == old(self).strategy(),
    {
        let found: Option<usize> = match self.connection_counts.get(endpoint) {
            Some(count) => Some(*count),
            None => None,
        };
        match found {
            Some(count) => {
                self.connection_counts.insert(endpoint, with_one_less(count));
            },
            None => {},
        }
    }

    pub fn get_connection_count(&self, endpoint: &str) -> (count: usize)
        ensures
            count == count_of(self.connections(), endpoint@),
    {
        match self.connection_counts.get(endpoint) {
            Some(count) => *count,
            None => 0,
        }
    }
}

} // verus!
