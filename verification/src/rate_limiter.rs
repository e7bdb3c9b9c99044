//! Token buckets, one per key, refilled lazily on access.
//!
//! Tokens are counted in billionths of a token and times in nanoseconds, so
//! that a rate of `r` tokens per second refills exactly `r` billionths per
//! nanosecond.

use crate::clock::{elapsed, elapsed_between, Clock};
use crate::table::Table;
use vstd::prelude::*;

verus! {

/// One whole token.
pub const TOKEN: u64 = 1_000_000_000;

/// How long an unused bucket is kept: five minutes.
pub const BUCKET_LIFETIME: u64 = 300_000_000_000;

#[derive(Debug, Clone, Copy)]
pub struct RateLimitConfig {
    /// Tokens that a bucket regains per second.
    pub requests_per_second: u32,
    /// Whole tokens that a bucket holds at most.
    pub burst_size: u32,
    /// The accounting window, in milliseconds.
    pub window_size_ms: u64,
}

impl Default for RateLimitConfig {
    fn default() -> (config: Self)
        ensures
            config.requests_per_second == 100,
            config.burst_size == 10,
            config.window_size_ms == 1000,
    {
        RateLimitConfig { requests_per_second: 100, burst_size: 10, window_size_ms: 1000 }
    }
}

/// A bucket as mathematical values.
pub struct BucketView {
    pub tokens: nat,
    pub last_refill: nat,
    pub capacity: nat,
    pub refill_rate: nat,
}

impl BucketView {
    /// A full bucket made at `now`.
    pub open spec fn full(capacity: nat, refill_rate: nat, now: nat) -> BucketView {
        BucketView { tokens: capacity, last_refill: now, capacity, refill_rate }
    }

    /// The bucket after a refill at `now`: the tokens that the elapsed time
    /// earned are added, up to the capacity.
    pub open spec fn refill(self, now: nat) -> BucketView {
        let earned = elapsed_between(self.last_refill, now) * self.refill_rate;
        let tokens = if self.tokens + earned <= self.capacity {
            self.tokens + earned
        } else {
            self.capacity
        };
        BucketView { tokens, last_refill: now, ..self }
    }

    /// Whether a request for `amount` at `now` is granted.
    pub open spec fn grants(self, now: nat, amount: nat) -> bool {
        self.refill(now).tokens >= amount
    }

    /// The bucket after a request for `amount` at `now`: refilled, and
    /// without the amount where the request is granted.
    pub open spec fn try_consume(self, now: nat, amount: nat) -> BucketView {
        let refilled = self.refill(now);
        if refilled.tokens >= amount {
            BucketView { tokens: (refilled.tokens - amount) as nat, ..refilled }
        } else {
            refilled
        }
    }

    /// The bucket holds no more than its capacity.
    pub open spec fn within_capacity(self) -> bool {
        self.tokens <= self.capacity
    }
}

#[derive(Debug, Clone, Copy)]
pub struct TokenBucket {
    tokens: u64,
    last_refill: u64,
    capacity: u64,
    refill_rate: u64,
}

impl View for TokenBucket {
    type V = BucketView;

    closed spec fn view(&self) -> BucketView {
        BucketView {
            tokens: self.tokens as nat,
            last_refill: self.last_refill as nat,
            capacity: self.capacity as nat,
            refill_rate: self.refill_rate as nat,
        }
    }
}

impl TokenBucket {
    /// The bucket holds no more than its capacity.
    #[verifier::type_invariant]
    pub closed spec fn wf(&self) -> bool {
        self@.within_capacity()
    }

    /// A well-formed bucket holds no more than its capacity.
    pub proof fn lemma_within_capacity(&self)
        requires
            self.wf(),
        ensures
            self@.within_capacity(),
    {
    }

    /// A full bucket made at `now`.
    pub fn new(capacity: u64, refill_rate: u64, now: u64) -> (bucket: Self)
        ensures
            bucket@ == BucketView::full(capacity as nat, refill_rate as nat, now as nat),
    {
        TokenBucket { tokens: capacity, last_refill: now, capacity, refill_rate }
    }

    /// Adds the tokens earned since the last refill.
    pub fn refill(&mut self, now: u64)
        ensures
            final(self)@ == old(self)@.refill(now as nat),
    {
        proof {
            use_type_invariant(&*self);
        }
        let span = elapsed(self.last_refill, now);
        assert(span as u128 * self.refill_rate as u128 <= u64::MAX as u128 * u64::MAX as u128)
            by (nonlinear_arith)
            requires
                span <= u64::MAX,
                self.refill_rate <= u64::MAX,
        ;
        let earned: u128 = span as u128 * self.refill_rate as u128;
        let sum: u128 = self.tokens as u128 + earned;
        if sum <= self.capacity as u128 {
            self.tokens = sum as u64;
        } else {
            self.tokens = self.capacity;
        }
        self.last_refill = now;
    }

    /// Refills, then takes `amount` out if that much is there.
    pub fn try_consume(&mut self, amount: u64, now: u64) -> (granted: bool)
        ensures
            granted == old(self)@.grants(now as nat, amount as nat),
            final(self)@ == old(self)@.try_consume(now as nat, amount as nat),
    {
        self.refill(now);
        proof {
            use_type_invariant(&*self);
        }
        if self.tokens >= amount {
            self.tokens = self.tokens - amount;
            true
        } else {
            false
        }
    }

    pub fn available_tokens(&self) -> (tokens: u64)
        ensures
            tokens == self@.tokens,
    {
        self.tokens
    }

    /// When the bucket was last refilled.
    pub fn last_refill(&self) -> (at: u64)
        ensures
            at == self@.last_refill,
    {
        self.last_refill
    }
}

/// The bucket that a request under `key` starts from: the one on record, or
/// a full one made at `now`.
pub open spec fn bucket_before(
    buckets: Map<Seq<char>, BucketView>,
    config: RateLimitConfig,
    key: Seq<char>,
    now: nat,
) -> BucketView {
    if buckets.contains_key(key) {
        buckets[key]
    } else {
        BucketView::full(
            (config.burst_size * TOKEN) as nat,
            config.requests_per_second as nat,
            now,
        )
    }
}

/// What a key has left: the tokens of its bucket, or a full bucket's where
/// it has none.
pub open spec fn remaining_in(
    buckets: Map<Seq<char>, BucketView>,
    config: RateLimitConfig,
    key: Seq<char>,
) -> nat {
    if buckets.contains_key(key) {
        buckets[key].tokens
    } else {
        (config.burst_size * TOKEN) as nat
    }
}

/// A bucket is kept by a sweep at `now` unless its last refill is older
/// than the bucket lifetime.
pub open spec fn is_live(bucket: BucketView, now: nat) -> bool {
    elapsed_between(bucket.last_refill, now) <= BUCKET_LIFETIME
}

/// `after` is `before` without the buckets that are not live at `now`.
pub open spec fn is_sweep(
    before: Map<Seq<char>, BucketView>,
    after: Map<Seq<char>, BucketView>,
    now: nat,
) -> bool {
    &&& forall|k: Seq<char>|
        after.contains_key(k) <==> before.contains_key(k) && is_live(before[k], now)
    &&& forall|k: Seq<char>| #[trigger] after.contains_key(k) ==> after[k] == before[k]
}

pub struct RateLimiter {
    buckets: Table<TokenBucket>,
    config: RateLimitConfig,
    clock: Clock,
}

impl RateLimiter {
    /// Every bucket has the configured capacity and rate and holds no more
    /// than its capacity.
    #[verifier::type_invariant]
    pub closed spec fn wf(&self) -> bool {
        &&& self.buckets.wf()
        &&& forall|i: int|
            0 <= i < self.buckets.values().len() ==> {
                &&& (#[trigger] self.buckets.values()[i])@.within_capacity()
                &&& self.buckets.values()[i]@.capacity == self.config.burst_size * TOKEN
                &&& self.buckets.values()[i]@.refill_rate == self.config.requests_per_second
            }
    }

    /// The buckets on record.
    pub closed spec fn view(&self) -> Map<Seq<char>, BucketView> {
        Map::new(
            |k: Seq<char>| self.buckets@.contains_key(k),
            |k: Seq<char>| self.buckets@[k]@,
        )
    }

    /// The configuration the limiter was made with.
    pub closed spec fn config(&self) -> RateLimitConfig {
        self.config
    }

    /// Every bucket of a well-formed limiter holds between nothing and its
    /// capacity, and has the configured capacity and rate.
    pub proof fn lemma_buckets_within_capacity(&self)
        requires
            self.wf(),
        ensures
            forall|k: Seq<char>| #[trigger]
                self@.contains_key(k) ==> {
                    &&& 0 <= self@[k].tokens <= self@[k].capacity
                    &&& self@[k].capacity == self.config().burst_size * TOKEN
                    &&& self@[k].refill_rate == self.config().requests_per_second
                },
    {
        assert forall|k: Seq<char>| #[trigger] self@.contains_key(k) implies {
            &&& 0 <= self@[k].tokens <= self@[k].capacity
            &&& self@[k].capacity == self.config().burst_size * TOKEN
            &&& self@[k].refill_rate == self.config().requests_per_second
        } by {
            let i = self.buckets.keys().index_of(k);
            self.buckets.lemma_shape();
            self.buckets.lemma_at(i);
            assert(self.buckets.values()[i]@.within_capacity());
        }
    }

    pub fn new(config: RateLimitConfig) -> (limiter: Self)
        ensures
            limiter@ == Map::<Seq<char>, BucketView>::empty(),
            limiter.config() == config,
    {
        let buckets: Table<TokenBucket> = Table::new();
        proof {
            use_type_invariant(&buckets);
        }
        let limiter = RateLimiter { buckets, config, clock: Clock::new() };
        assert(limiter@ =~= Map::<Seq<char>, BucketView>::empty());
        limiter
    }

    /// The reading of this limiter's own clock.
    pub fn now(&self) -> u64 {
        self.clock.now()
    }

    /// Asks for `tokens` billionths of a token under `key` at `now`.
    ///
    /// The bucket of `key`, made full on first use, is refilled for the time
    /// since its last refill. The request is granted, and the amount taken,
    /// if the bucket then holds that much.
    pub fn is_allowed_n_at(&mut self, key: &str, tokens: u64, now: u64) -> (allowed: bool)
        ensures
            final(self).config() == old(self).config(),
            tokens == 0 ==> allowed && remaining_in(final(self)@, final(self).config(), key@)
                >= remaining_in(old(self)@, old(self).config(), key@),
            remaining_in(final(self)@, final(self).config(), key@) <= final(self).config().burst_size * TOKEN,
            allowed == bucket_before(old(self)@, old(self).config(), key@, now as nat).grants(
                now as nat,
                tokens as nat,
            ),
            final(self)@ == old(self)@.insert(
                key@,
                bucket_before(old(self)@, old(self).config(), key@, now as nat).try_consume(
                    now as nat,
                    tokens as nat,
                ),
            ),
    {
        proof {
            use_type_invariant(&*self);
            self.lemma_buckets_within_capacity();
        }
        let mut table: Table<TokenBucket> = Table::new();
        proof {
            use_type_invariant(&table);
        }
        std::mem::swap(&mut table, &mut self.buckets);
        let ghost before = table;
        let mut bucket = match table.get(key) {
            Some(found) => *found,
            None => TokenBucket::new(
                self.config.burst_size as u64 * TOKEN,
                self.config.requests_per_second as u64,
                now,
            ),
        };
        let ghost start = bucket@;
        let allowed = bucket.try_consume(tokens, now);
        proof {
            use_type_invariant(&bucket);
            use_type_invariant(&table);
        }
        table.insert(key, bucket);
        proof {
            use_type_invariant(&table);
            before.lemma_shape();
            assert forall|i: int| 0 <= i < table.values().len() implies {
                &&& (#[trigger] table.values()[i])@.within_capacity()
                &&& table.values()[i]@.capacity == self.config.burst_size * TOKEN
                &&& table.values()[i]@.refill_rate == self.config.requests_per_second
            } by {
                if before@.contains_key(key@) {
                    let at = before.keys().index_of(key@);
                    before.lemma_at(at);
                    if i != at {
                        assert(table.values()[i] == before.values()[i]);
                    }
                } else {
                    if i < before.values().len() {
                        assert(table.values()[i] == before.values()[i]);
                    }
                }
            }
        }
        self.buckets = table;
        proof {
            assert(elapsed_between(start.last_refill, now as nat) * start.refill_rate >= 0)
                by (nonlinear_arith)
                requires
                    elapsed_between(start.last_refill, now as nat) >= 0,
                    start.refill_rate >= 0,
            ;
            assert(start == bucket_before(old(self)@, old(self).config(), key@, now as nat));
            assert(self@ =~= old(self)@.insert(key@, start.try_consume(now as nat, tokens as nat)));
        }
        allowed
    }

    /// Asks for `tokens` billionths of a token under `key`, at the present
    /// reading of the limiter's clock.
    pub fn is_allowed_n(&mut self, key: &str, tokens: u64) -> (allowed: bool)
        ensures
            final(self).config() == old(self).config(),
            exists|now: nat|
                allowed == bucket_before(old(self)@, old(self).config(), key@, now).grants(
                    now,
                    tokens as nat,
                ) && final(self)@ == old(self)@.insert(
                    key@,
                    #[trigger] bucket_before(old(self)@, old(self).config(), key@, now).try_consume(
                        now,
                        tokens as nat,
                    ),
                ),
    {
        let now = self.clock.now();
        self.is_allowed_n_at(key, tokens, now)
    }

    /// Asks for one token under `key`, at the present reading of the
    /// limiter's clock.
    pub fn is_allowed(&mut self, key: &str) -> (allowed: bool)
        ensures
            final(self).config() == old(self).config(),
            exists|now: nat|
                allowed == bucket_before(old(self)@, old(self).config(), key@, now).grants(
                    now,
                    TOKEN as nat,
                ) && final(self)@ == old(self)@.insert(
                    key@,
                    #[trigger] bucket_before(old(self)@, old(self).config(), key@, now).try_consume(
                        now,
                        TOKEN as nat,
                    ),
                ),
    {
        let now = self.clock.now();
        self.is_allowed_at(key, now)
    }

    /// Asks for one token under `key` at `now`.
    pub fn is_allowed_at(&mut self, key: &str, now: u64) -> (allowed: bool)
        ensures
            final(self).config() == old(self).config(),
            allowed == bucket_before(old(self)@, old(self).config(), key@, now as nat).grants(
                now as nat,
                TOKEN as nat,
            ),
            final(self)@ == old(self)@.insert(
                key@,
                bucket_before(old(self)@, old(self).config(), key@, now as nat).try_consume(
                    now as nat,
                    TOKEN as nat,
                ),
            ),
    {
        self.is_allowed_n_at(key, TOKEN, now)
    }

    /// What the bucket of `key` holds, in billionths of a token, without a
    /// refill; a key without a bucket counts as a full one.
    pub fn get_remaining_tokens(&self, key: &str) -> (tokens: u64)
        ensures
            tokens == remaining_in(self@, self.config(), key@),
            tokens <= self.config().burst_size * TOKEN,
    {
        proof {
            use_type_invariant(self);
            self.lemma_buckets_within_capacity();
        }
        match self.buckets.get(key) {
            Some(bucket) => bucket.available_tokens(),
            None => self.config.burst_size as u64 * TOKEN,
        }
    }

    /// Forgets the bucket of `key`.
    pub fn reset_bucket(&mut self, key: &str)
        ensures
            final(self).config() == old(self).config(),
            final(self)@ == old(self)@.remove(key@),
    {
        proof {
            use_type_invariant(&*self);
        }
        let mut table: Table<TokenBucket> = Table::new();
        proof {
            use_type_invariant(&table);
        }
        std::mem::swap(&mut table, &mut self.buckets);
        let ghost before = table;
        proof {
            use_type_invariant(&table);
        }
        let _ = table.remove(key);
        proof {
            use_type_invariant(&table);
            if before@.contains_key(key@) {
                let at = before.keys().index_of(key@);
                before.lemma_shape();
                assert forall|i: int| 0 <= i < table.values().len() implies {
                    &&& (#[trigger] table.values()[i])@.within_capacity()
                    &&& table.values()[i]@.capacity == self.config.burst_size * TOKEN
                    &&& table.values()[i]@.refill_rate == self.config.requests_per_second
                } by {
                    let i0 = if i < at { i } else { i + 1 };
                    assert(table.values()[i] == before.values()[i0]);
                }
            }
        }
        self.buckets = table;
        proof {
            assert(self@ =~= old(self)@.remove(key@));
        }
    }

    /// Forgets every bucket whose last refill is more than the bucket
    /// lifetime before `now`, and no other; the buckets that stay are as
    /// they were.
    pub fn cleanup_expired_buckets_at(&mut self, now: u64)
        ensures
            final(self).config() == old(self).config(),
            is_sweep(old(self)@, final(self)@, now as nat),
    {
        proof {
            use_type_invariant(&*self);
        }
        let mut table: Table<TokenBucket> = Table::new();
        proof {
            use_type_invariant(&table);
        }
        std::mem::swap(&mut table, &mut self.buckets);
        let ghost before = table;
        let ghost config = self.config;
        proof {
            use_type_invariant(&table);
            table.lemma_shape();
        }
        let mut i: usize = 0;
        while i < table.len()
            invariant
                i <= table.values().len(),
                table.wf(),
                table.keys().len() == table.values().len(),
                forall|j: int|
                    0 <= j < table.values().len() ==> {
                        &&& (#[trigger] table.values()[j])@.within_capacity()
                        &&& table.values()[j]@.capacity == config.burst_size * TOKEN
                        &&& table.values()[j]@.refill_rate == config.requests_per_second
                    },
                forall|k: Seq<char>| #[trigger]
                    table@.contains_key(k) ==> before@.contains_key(k) && table@[k] == before@[k],
                forall|k: Seq<char>|
                    before@.contains_key(k) && is_live(before@[k]@, now as nat)
                        ==> #[trigger] table@.contains_key(k),
                forall|j: int| 0 <= j < i ==> is_live((#[trigger] table.values()[j])@, now as nat),
            decreases table.values().len() - i,
        {
            let ghost current = table;
            let last = table.value_at(i).last_refill();
            proof {
                current.lemma_at(i as int);
            }
            if elapsed(last, now) <= BUCKET_LIFETIME {
                i += 1;
            } else {
                let _ = table.remove_at(i);
                proof {
                    use_type_invariant(&table);
                    assert forall|j: int| 0 <= j < table.values().len() implies {
                        &&& (#[trigger] table.values()[j])@.within_capacity()
                        &&& table.values()[j]@.capacity == config.burst_size * TOKEN
                        &&& table.values()[j]@.refill_rate == config.requests_per_second
                    } by {
                        let j0 = if j < i { j } else { j + 1 };
                        assert(table.values()[j] == current.values()[j0]);
                    }
                    assert forall|j: int| 0 <= j < i implies is_live(
                        (#[trigger] table.values()[j])@,
                        now as nat,
                    ) by {
                        assert(table.values()[j] == current.values()[j]);
                    }
                }
            }
        }
        proof {
            assert forall|k: Seq<char>| table@.contains_key(k) implies is_live(
                before@[k]@,
                now as nat,
            ) by {
                let j = table.keys().index_of(k);
                table.lemma_at(j);
            }
        }
        self.buckets = table;
    }

    /// Forgets every bucket that has not been used for longer than the
    /// bucket lifetime, by the present reading of the limiter's clock.
    pub fn cleanup_expired_buckets(&mut self)
        ensures
            final(self).config() == old(self).config(),
            exists|now: nat| is_sweep(old(self)@, final(self)@, now),
    {
        let now = self.clock.now();
        self.cleanup_expired_buckets_at(now);
    }
}

} // verus!
