//! What holds of every token bucket.

use crate::clock::elapsed_between;
use crate::rate_limiter::BucketView;
use vstd::prelude::*;

verus! {

/// The tokens that elapsed time earns are never negative.
proof fn lemma_earned_is_not_negative(bucket: BucketView, now: nat)
    ensures
        elapsed_between(bucket.last_refill, now) * bucket.refill_rate >= 0,
{
    assert(elapsed_between(bucket.last_refill, now) * bucket.refill_rate >= 0) by (nonlinear_arith)
        requires
            elapsed_between(bucket.last_refill, now) >= 0,
            bucket.refill_rate >= 0,
    ;
}

/// A bucket is made full, which is within its capacity.
pub proof fn lemma_full_is_within_capacity(capacity: nat, refill_rate: nat, now: nat)
    ensures
        BucketView::full(capacity, refill_rate, now).within_capacity(),
        BucketView::full(capacity, refill_rate, now).tokens == capacity,
{
}

/// A bucket that holds between nothing and its capacity still does so after
/// a refill and after a request, granted or not; neither changes the
/// capacity or the rate.
pub proof fn lemma_bucket_stays_within_capacity(bucket: BucketView, now: nat, amount: nat)
    requires
        bucket.within_capacity(),
    ensures
        bucket.refill(now).within_capacity(),
        bucket.try_consume(now, amount).within_capacity(),
        0 <= bucket.try_consume(now, amount).tokens <= bucket.capacity,
        bucket.try_consume(now, amount).capacity == bucket.capacity,
        bucket.try_consume(now, amount).refill_rate == bucket.refill_rate,
        bucket.try_consume(now, amount).last_refill == now,
{
    lemma_earned_is_not_negative(bucket, now);
}

/// A refill never takes tokens away.
pub proof fn lemma_refill_only_adds(bucket: BucketView, now: nat)
    requires
        bucket.within_capacity(),
    ensures
        bucket.refill(now).tokens >= bucket.tokens,
{
    lemma_earned_is_not_negative(bucket, now);
}

/// A request for nothing is always granted and never leaves the bucket with
/// fewer tokens than it had.
pub proof fn lemma_zero_request_is_free(bucket: BucketView, now: nat)
    requires
        bucket.within_capacity(),
    ensures
        bucket.grants(now, 0),
        bucket.try_consume(now, 0).tokens >= bucket.tokens,
        bucket.try_consume(now, 0) == bucket.refill(now),
{
    lemma_earned_is_not_negative(bucket, now);
}

/// A request is granted exactly when the refilled bucket holds the amount;
/// a granted request takes exactly the amount, a denied one nothing.
pub proof fn lemma_request_takes_amount_or_nothing(bucket: BucketView, now: nat, amount: nat)
    ensures
        bucket.grants(now, amount) ==> bucket.try_consume(now, amount).tokens + amount
            == bucket.refill(now).tokens,
        !bucket.grants(now, amount) ==> bucket.try_consume(now, amount) == bucket.refill(now),
{
}

} // verus!
