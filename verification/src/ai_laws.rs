//! What holds of every health record and of every answer of the selector.

use crate::ai::{
    goes_before, is_decision, is_fallback, is_first_best, sample_us, score_in, DecisionView,
    HealthView, MetricsView, NEUTRAL_SCORE, UNIT,
};
use vstd::prelude::*;

verus! {

/// Rounding a quotient down loses less than one.
proof fn lemma_floor_div(a: int, b: int)
    requires
        0 <= a,
        0 < b,
    ensures
        (a / b) * b <= a < (a / b + 1) * b,
        0 <= a / b,
{
    vstd::arithmetic::div_mod::lemma_fundamental_div_mod(a, b);
    vstd::arithmetic::div_mod::lemma_mod_bound(a, b);
    assert(b * (a / b) == (a / b) * b) by (nonlinear_arith);
    assert((a / b + 1) * b == (a / b) * b + b) by (nonlinear_arith);
    if a / b < 0 {
        assert((a / b) * b <= -b) by (nonlinear_arith)
            requires
                a / b <= -1,
                0 < b,
        ;
    }
}

/// In a consistent record errors never outnumber requests, and the success
/// rate is `1 - errors / total` to within a billionth: it is that number
/// rounded down to a whole billionth. A record without requests has rate 1.
pub proof fn lemma_success_rate_exact(record: HealthView)
    requires
        record.consistent(),
    ensures
        record.error_count <= record.total_requests,
        record.success_rate <= UNIT,
        record.total_requests > 0 ==> record.success_rate * record.total_requests <= (
        record.total_requests - record.error_count) * UNIT < (record.success_rate + 1)
            * record.total_requests,
        record.total_requests == 0 ==> record.success_rate == UNIT,
{
    if record.total_requests > 0 {
        let good = record.total_requests - record.error_count;
        let total = record.total_requests as int;
        lemma_floor_div(good * UNIT, total);
        assert(good * UNIT <= total * UNIT) by (nonlinear_arith)
            requires
                good <= total,
        ;
        if record.success_rate > UNIT {
            assert(record.success_rate * total >= (UNIT + 1) * total) by (nonlinear_arith)
                requires
                    record.success_rate >= UNIT + 1,
                    total > 0,
            ;
            assert((UNIT + 1) * total > total * UNIT) by (nonlinear_arith)
                requires
                    total > 0,
            ;
        }
    }
}

/// A record that no observation has reached yet is consistent.
pub proof fn lemma_fresh_consistent(endpoint: Seq<char>, timestamp: nat)
    ensures
        HealthView::fresh(endpoint, timestamp).consistent(),
{
}

/// Counting an observation into a record keeps errors at or below requests
/// and the success rate in step with the counters.
pub proof fn lemma_observe_consistent(record: HealthView, sample: MetricsView)
    requires
        record.error_count <= record.total_requests,
    ensures
        record.observe(sample).consistent(),
        record.observe(sample).total_requests >= record.total_requests,
        record.observe(sample).error_count >= record.error_count,
{
}

/// Each observation moves the average to a tenth of the sample plus nine
/// tenths of the previous average, rounded down to a whole microsecond.
pub proof fn lemma_moving_average(record: HealthView, sample: MetricsView)
    ensures
        10 * record.observe(sample).avg_latency_us <= sample_us(sample.latency_ms) + 9
            * record.avg_latency_us < 10 * record.observe(sample).avg_latency_us + 10,
{
    lemma_floor_div((sample_us(sample.latency_ms) + 9 * record.avg_latency_us) as int, 10);
}

/// After one observation from empty history the average latency is exactly a
/// tenth of the sample, whatever the sample: a hundred microseconds for each
/// of its milliseconds. One request is counted, an error if the sample is
/// none of a success, and the sample's time is the record's.
pub proof fn lemma_first_observation(endpoint: Seq<char>, sample: MetricsView)
    ensures
        10 * HealthView::fresh(endpoint, sample.timestamp).observe(sample).avg_latency_us
            == sample.latency_ms * 1000,
        HealthView::fresh(endpoint, sample.timestamp).observe(sample).avg_latency_us == 100
            * sample.latency_ms,
        HealthView::fresh(endpoint, sample.timestamp).observe(sample).total_requests == 1,
        HealthView::fresh(endpoint, sample.timestamp).observe(sample).error_count == (
        if sample.success {
            0nat
        } else {
            1nat
        }),
        HealthView::fresh(endpoint, sample.timestamp).observe(sample).last_updated
            == sample.timestamp,
        HealthView::fresh(endpoint, sample.timestamp).observe(sample).endpoint == endpoint,
{
    assert((sample.latency_ms * 1000) / 10 == 100 * sample.latency_ms) by (nonlinear_arith);
}

/// The chosen endpoint of a decision over a non-empty input is one of the
/// inputs, no input scores higher, and the fallback list holds each other
/// input exactly once.
pub proof fn lemma_decision_members(
    health: Map<Seq<char>, HealthView>,
    names: Seq<Seq<char>>,
    decision: DecisionView,
)
    requires
        names.len() > 0,
        is_decision(health, names, decision),
    ensures
        names.contains(decision.selected_endpoint),
        forall|j: int|
            0 <= j < names.len() ==> score_in(health, #[trigger] names[j]) <= decision.confidence,
        decision.fallback_endpoints.no_duplicates(),
        !decision.fallback_endpoints.contains(decision.selected_endpoint),
        forall|e: Seq<char>|
            names.contains(e) ==> e == decision.selected_endpoint
                || decision.fallback_endpoints.contains(e),
        forall|e: Seq<char>| decision.fallback_endpoints.contains(e) ==> names.contains(e),
{
    let best = choose|best: int|
        is_first_best(health, names, best) && decision.selected_endpoint == #[trigger] names[best];
    assert(names[best] == decision.selected_endpoint);
}

/// Where no input occurs twice, the fallback list is a permutation of the
/// inputs without the chosen one.
pub proof fn lemma_fallback_is_permutation(
    health: Map<Seq<char>, HealthView>,
    names: Seq<Seq<char>>,
    decision: DecisionView,
)
    requires
        names.len() > 0,
        names.no_duplicates(),
        is_decision(health, names, decision),
    ensures
        decision.fallback_endpoints.to_multiset() == names.to_multiset().remove(
            decision.selected_endpoint,
        ),
        decision.fallback_endpoints.len() + 1 == names.len(),
{
    broadcast use vstd::multiset::group_multiset_axioms;

    lemma_decision_members(health, names, decision);
    let listed = decision.fallback_endpoints;
    let chosen = decision.selected_endpoint;
    names.lemma_multiset_has_no_duplicates();
    listed.lemma_multiset_has_no_duplicates();
    let left = listed.to_multiset();
    let right = names.to_multiset().remove(chosen);
    assert forall|e: Seq<char>| left.count(e) == right.count(e) by {
        vstd::seq_lib::to_multiset_contains(listed, e);
        vstd::seq_lib::to_multiset_contains(names, e);
        vstd::seq_lib::to_multiset_contains(names, chosen);
    }
    assert(left =~= right);
    vstd::seq_lib::to_multiset_len(listed);
    vstd::seq_lib::to_multiset_len(names);
    vstd::seq_lib::to_multiset_contains(names, chosen);
}

/// Every name of `list` goes before every later one.
pub open spec fn in_fallback_order(
    health: Map<Seq<char>, HealthView>,
    names: Seq<Seq<char>>,
    list: Seq<Seq<char>>,
) -> bool {
    forall|p: int, q: int|
        0 <= p < q < list.len() ==> goes_before(
            health,
            names,
            #[trigger] list[p],
            #[trigger] list[q],
        )
}

/// Two lists without repetitions that hold the same names in fallback order
/// are one list.
pub proof fn lemma_fallback_order_is_unique(
    health: Map<Seq<char>, HealthView>,
    names: Seq<Seq<char>>,
    first: Seq<Seq<char>>,
    second: Seq<Seq<char>>,
)
    requires
        first.no_duplicates(),
        second.no_duplicates(),
        forall|e: Seq<char>| first.contains(e) <==> second.contains(e),
        in_fallback_order(health, names, first),
        in_fallback_order(health, names, second),
    ensures
        first == second,
    decreases first.len(),
{
    if first.len() == 0 {
        if second.len() > 0 {
            assert(second.contains(second[0]));
        }
        assert(first =~= second);
    } else {
        let head = first[0];
        assert(first.contains(head));
        let q = choose|q: int| 0 <= q < second.len() && second[q] == head;
        if q > 0 {
            let other = second[0];
            assert(goes_before(health, names, second[0], second[q]));
            assert(second.contains(other));
            let p = choose|p: int| 0 <= p < first.len() && first[p] == other;
            assert(p != 0);
            assert(goes_before(health, names, first[0], first[p]));
        }
        assert(second[0] == head);
        let rest_first = first.drop_first();
        let rest_second = second.drop_first();
        assert forall|e: Seq<char>| rest_first.contains(e) <==> rest_second.contains(e) by {
            if rest_first.contains(e) {
                let i = choose|i: int| 0 <= i < rest_first.len() && rest_first[i] == e;
                assert(first[i + 1] == e);
                assert(first.contains(e));
                let j = choose|j: int| 0 <= j < second.len() && second[j] == e;
                assert(j != 0);
                assert(rest_second[j - 1] == e);
            }
            if rest_second.contains(e) {
                let i = choose|i: int| 0 <= i < rest_second.len() && rest_second[i] == e;
                assert(second[i + 1] == e);
                assert(second.contains(e));
                let j = choose|j: int| 0 <= j < first.len() && first[j] == e;
                assert(j != 0);
                assert(rest_first[j - 1] == e);
            }
        }
        assert forall|p: int, r: int| 0 <= p < r < rest_first.len() implies goes_before(
            health,
            names,
            #[trigger] rest_first[p],
            #[trigger] rest_first[r],
        ) by {
            assert(goes_before(health, names, first[p + 1], first[r + 1]));
        }
        assert forall|p: int, r: int| 0 <= p < r < rest_second.len() implies goes_before(
            health,
            names,
            #[trigger] rest_second[p],
            #[trigger] rest_second[r],
        ) by {
            assert(goes_before(health, names, second[p + 1], second[r + 1]));
        }
        assert(rest_first.no_duplicates()) by {
            assert forall|a: int, b: int|
                0 <= a < rest_first.len() && 0 <= b < rest_first.len() && a != b implies rest_first[a]
                != rest_first[b] by {
                assert(first[a + 1] != first[b + 1]);
            }
        }
        assert(rest_second.no_duplicates()) by {
            assert forall|a: int, b: int|
                0 <= a < rest_second.len() && 0 <= b < rest_second.len() && a
                    != b implies rest_second[a] != rest_second[b] by {
                assert(second[a + 1] != second[b + 1]);
            }
        }
        lemma_fallback_order_is_unique(health, names, rest_first, rest_second);
        assert(first =~= seq![head] + rest_first);
        assert(second =~= seq![head] + rest_second);
    }
}

/// Selection depends on the snapshot and the input alone: two answers for the
/// same snapshot and input are one answer, with the same endpoint, the same
/// confidence, the same words and the same fallback list.
pub proof fn lemma_decision_unique(
    health: Map<Seq<char>, HealthView>,
    names: Seq<Seq<char>>,
    first: DecisionView,
    second: DecisionView,
)
    requires
        is_decision(health, names, first),
        is_decision(health, names, second),
    ensures
        first.selected_endpoint == second.selected_endpoint,
        first.confidence == second.confidence,
        first.reasoning == second.reasoning,
        first.fallback_endpoints == second.fallback_endpoints,
        first == second,
{
    if names.len() > 0 {
        let a = choose|best: int|
            is_first_best(health, names, best) && first.selected_endpoint == #[trigger] names[best];
        let b = choose|best: int|
            is_first_best(health, names, best) && second.selected_endpoint
                == #[trigger] names[best];
        if a < b {
            assert(score_in(health, names[a]) < score_in(health, names[b]));
            assert(score_in(health, names[b]) <= score_in(health, names[a]));
        } else if b < a {
            assert(score_in(health, names[b]) < score_in(health, names[a]));
            assert(score_in(health, names[a]) <= score_in(health, names[b]));
        }
        assert(is_fallback(health, names, first.selected_endpoint, first.fallback_endpoints));
        assert(is_fallback(health, names, second.selected_endpoint, second.fallback_endpoints));
        lemma_fallback_order_is_unique(
            health,
            names,
            first.fallback_endpoints,
            second.fallback_endpoints,
        );
    }
}

/// Every score, and so every confidence, lies between nothing and one.
pub proof fn lemma_score_is_a_share(health: Map<Seq<char>, HealthView>, name: Seq<char>)
    ensures
        0 <= score_in(health, name) <= UNIT,
{
}

/// The confidence of a decision is the score of the endpoint it chose, at
/// most one; for an empty input it is nothing.
pub proof fn lemma_confidence_is_a_share(
    health: Map<Seq<char>, HealthView>,
    names: Seq<Seq<char>>,
    decision: DecisionView,
)
    requires
        is_decision(health, names, decision),
    ensures
        0 <= decision.confidence <= UNIT,
{
}

/// An endpoint without history is preferred to one that scores under one
/// half and not to one that scores over it.
pub proof fn lemma_unknown_scores_half(health: Map<Seq<char>, HealthView>, name: Seq<char>)
    requires
        !health.contains_key(name),
    ensures
        score_in(health, name) == NEUTRAL_SCORE,
        2 * score_in(health, name) == UNIT,
{
}

} // verus!
