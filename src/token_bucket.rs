//! A token bucket that turns a bytes-per-second budget into a time-aware quota.
//!
//! Time is counted in nanoseconds and tokens in billionths of a token, so the
//! fractional remainder of a refill is kept exactly across calls.

use std::time::{Duration, Instant};
use vstd::prelude::*;

verus! {

/// Nanoseconds in a second; also the number of fractional units in one token.
pub const NANOS_PER_SEC: u128 = 1_000_000_000;

/// A reading of the monotonic clock, held opaque.
#[verifier::external_type_specification]
#[verifier::external_body]
pub struct ExInstant(Instant);

/// Relies on `Instant::now`: reads the monotonic clock.
#[verifier::external_body]
fn clock_now() -> (r: Instant) {
    Instant::now()
}

/// Relies on `Instant::elapsed`: the time that passed since `origin` was read.
#[verifier::external_body]
fn elapsed_since(origin: &Instant) -> (r: Duration) {
    origin.elapsed()
}

/// Relies on `Duration::as_nanos`: the whole nanoseconds of a span.
#[verifier::external_body]
fn whole_nanos(d: &Duration) -> (r: u128) {
    d.as_nanos()
}

/// The mathematical state of a bucket.
pub struct BucketState {
    /// Tokens generated per second; 0 means the bucket is unlimited.
    pub fill_rate: nat,
    /// The most tokens the bucket holds.
    pub capacity: nat,
    /// Tokens in the bucket, in billionths of a token.
    pub remaining: nat,
    /// Clock reading of the last refill, in nanoseconds since the bucket was made.
    pub timestamp: nat,
}

impl BucketState {
    pub open spec fn wf(self) -> bool {
        &&& self.remaining <= self.capacity * NANOS_PER_SEC
        &&& self.fill_rate != 0 ==> self.capacity > 0
    }

    /// Fractional tokens in the bucket after refilling it up to clock reading `now`.
    pub open spec fn refilled(self, now: nat) -> nat {
        let elapsed: nat = if now > self.timestamp { (now - self.timestamp) as nat } else { 0 };
        let full = self.capacity * NANOS_PER_SEC;
        let topped = self.remaining + elapsed * self.fill_rate;
        if topped < full { topped as nat } else { full as nat }
    }

    /// Whole tokens granted for a request of `amount` at clock reading `now`.
    pub open spec fn granted(self, amount: nat, now: nat) -> nat {
        if self.fill_rate == 0 {
            amount
        } else {
            let available = self.refilled(now) / (NANOS_PER_SEC as nat);
            if available < amount { available } else { amount }
        }
    }

    /// The state after a request of `amount` at clock reading `now`.
    pub open spec fn after_take(self, amount: nat, now: nat) -> BucketState {
        if self.fill_rate == 0 {
            self
        } else {
            BucketState {
                remaining: (self.refilled(now) - self.granted(amount, now) * NANOS_PER_SEC) as nat,
                timestamp: if now > self.timestamp { now } else { self.timestamp },
                ..self
            }
        }
    }
}

/// Tokens granted to a sequence of requests, each a pair of an amount and a
/// clock reading, made one after another starting from `s`.
pub open spec fn total_granted(s: BucketState, reqs: Seq<(nat, nat)>) -> nat
    decreases reqs.len(),
{
    if reqs.len() == 0 {
        0
    } else {
        s.granted(reqs[0].0, reqs[0].1) + total_granted(
            s.after_take(reqs[0].0, reqs[0].1),
            reqs.drop_first(),
        )
    }
}

/// The state after a sequence of requests made one after another starting from `s`.
pub open spec fn state_after(s: BucketState, reqs: Seq<(nat, nat)>) -> BucketState
    decreases reqs.len(),
{
    if reqs.len() == 0 {
        s
    } else {
        state_after(s.after_take(reqs[0].0, reqs[0].1), reqs.drop_first())
    }
}

proof fn lemma_take_step(s: BucketState, amount: nat, now: nat)
    requires
        s.wf(),
        s.fill_rate > 0,
    ensures
        s.after_take(amount, now).wf(),
        s.after_take(amount, now).fill_rate == s.fill_rate,
        s.after_take(amount, now).capacity == s.capacity,
        s.after_take(amount, now).timestamp >= s.timestamp,
        s.granted(amount, now) * NANOS_PER_SEC + s.after_take(amount, now).remaining
            <= s.remaining + s.fill_rate * (s.after_take(amount, now).timestamp - s.timestamp),
{
    let n = NANOS_PER_SEC as nat;
    let r = s.refilled(now);
    let g = s.granted(amount, now);
    assert(g * n <= r) by (nonlinear_arith)
        requires
            g <= r / n,
            n > 0,
    ;
    let elapsed: nat = if now > s.timestamp { (now - s.timestamp) as nat } else { 0 };
    assert(s.after_take(amount, now).timestamp - s.timestamp == elapsed);
    assert(r <= s.remaining + elapsed * s.fill_rate);
    assert(elapsed * s.fill_rate == s.fill_rate * elapsed) by (nonlinear_arith);
}

proof fn lemma_grant_accounting(s: BucketState, reqs: Seq<(nat, nat)>)
    requires
        s.wf(),
        s.fill_rate > 0,
    ensures
        state_after(s, reqs).wf(),
        state_after(s, reqs).fill_rate == s.fill_rate,
        state_after(s, reqs).capacity == s.capacity,
        state_after(s, reqs).timestamp >= s.timestamp,
        total_granted(s, reqs) * NANOS_PER_SEC + state_after(s, reqs).remaining
            <= s.remaining + s.fill_rate * (state_after(s, reqs).timestamp - s.timestamp),
    decreases reqs.len(),
{
    if reqs.len() > 0 {
        let (amount, now) = reqs[0];
        let next = s.after_take(amount, now);
        let rest = reqs.drop_first();
        lemma_take_step(s, amount, now);
        lemma_grant_accounting(next, rest);
        let g = s.granted(amount, now);
        let t = total_granted(next, rest);
        let last = state_after(next, rest);
        assert(s.fill_rate * (last.timestamp - s.timestamp) == s.fill_rate * (last.timestamp
            - next.timestamp) + s.fill_rate * (next.timestamp - s.timestamp)) by (nonlinear_arith);
        assert((g + t) * NANOS_PER_SEC == g * NANOS_PER_SEC + t * NANOS_PER_SEC) by (nonlinear_arith);
    }
}

/// A finite-rate bucket never grants, over any run of requests, more than
/// its capacity plus what its rate generates in the time the run spans:
/// with time in nanoseconds, `granted * 10^9 <= capacity * 10^9 + fill_rate * elapsed`.
pub proof fn lemma_bounded_grant(s: BucketState, reqs: Seq<(nat, nat)>)
    requires
        s.wf(),
        s.fill_rate > 0,
    ensures
        state_after(s, reqs).timestamp >= s.timestamp,
        total_granted(s, reqs) * NANOS_PER_SEC <= s.capacity * NANOS_PER_SEC + s.fill_rate * (
        state_after(s, reqs).timestamp - s.timestamp),
{
    lemma_grant_accounting(s, reqs);
}

/// Requests that all come before any time has passed since the last refill
/// share at most the tokens the bucket holds: together they never get more
/// than its capacity, however many there are.
pub proof fn lemma_no_double_spend(s: BucketState, reqs: Seq<(nat, nat)>)
    requires
        s.wf(),
        s.fill_rate > 0,
        forall|i: int| 0 <= i < reqs.len() ==> #[trigger] reqs[i].1 <= s.timestamp,
    ensures
        total_granted(s, reqs) <= s.capacity,
{
    lemma_grant_accounting(s, reqs);
    lemma_timestamp_kept(s, reqs);
    let t = total_granted(s, reqs);
    assert(s.fill_rate * (state_after(s, reqs).timestamp - s.timestamp) == 0) by (nonlinear_arith)
        requires
            state_after(s, reqs).timestamp == s.timestamp,
    ;
    assert(t <= s.capacity) by (nonlinear_arith)
        requires
            t * NANOS_PER_SEC <= s.remaining,
            s.remaining <= s.capacity * NANOS_PER_SEC,
    ;
}

proof fn lemma_timestamp_kept(s: BucketState, reqs: Seq<(nat, nat)>)
    requires
        forall|i: int| 0 <= i < reqs.len() ==> #[trigger] reqs[i].1 <= s.timestamp,
    ensures
        state_after(s, reqs).timestamp == s.timestamp,
    decreases reqs.len(),
{
    if reqs.len() > 0 {
        let rest = reqs.drop_first();
        assert(reqs[0].1 <= s.timestamp);
        assert forall|i: int| 0 <= i < rest.len() implies #[trigger] rest[i].1 <= s.timestamp by {
            assert(rest[i] == reqs[i + 1]);
        }
        lemma_timestamp_kept(s.after_take(reqs[0].0, reqs[0].1), rest);
    }
}

/// A bucket of tokens which renews itself with time.
pub struct TokenBucket {
    fill_rate: usize,
    capacity: usize,
    remaining: u128,
    timestamp: u64,
    origin: Instant,
}

impl View for TokenBucket {
    type V = BucketState;

    closed spec fn view(&self) -> BucketState {
        BucketState {
            fill_rate: self.fill_rate as nat,
            capacity: self.capacity as nat,
            remaining: self.remaining as nat,
            timestamp: self.timestamp as nat,
        }
    }
}

impl TokenBucket {
    #[verifier::type_invariant]
    closed spec fn inv(self) -> bool {
        self@.wf()
    }

    /// A bucket whose fill rate and capacity are both `rate`.
    pub fn new(rate: usize) -> (r: TokenBucket)
        ensures
            r@ == (BucketState { fill_rate: rate as nat, capacity: rate as nat, remaining: 0, timestamp: 0 }),
    {
        TokenBucket::with_capacity(rate, rate)
    }

    /// A bucket that generates `rate` tokens per second and holds at most
    /// `capacity`; a rate of 0 makes it unlimited. It starts empty.
    pub fn with_capacity(rate: usize, capacity: usize) -> (r: TokenBucket)
        requires
            rate != 0 ==> capacity > 0,
        ensures
            r@ == (BucketState { fill_rate: rate as nat, capacity: capacity as nat, remaining: 0, timestamp: 0 }),
    {
        TokenBucket { fill_rate: rate, capacity, remaining: 0, timestamp: 0, origin: clock_now() }
    }

    pub fn fill_rate(&self) -> (r: usize)
        ensures
            r == self@.fill_rate,
    {
        self.fill_rate
    }

    pub fn capacity(&self) -> (r: usize)
        ensures
            r == self@.capacity,
    {
        self.capacity
    }

    /// Tokens in the bucket, in billionths of a token.
    pub fn remaining_fraction(&self) -> (r: u128)
        ensures
            r == self@.remaining,
    {
        self.remaining
    }

    /// Clock reading of the last refill, in nanoseconds since the bucket was made.
    pub fn timestamp_nanos(&self) -> (r: u64)
        ensures
            r == self@.timestamp,
    {
        self.timestamp
    }

    /// Takes up to `amount` tokens at clock reading `now` (nanoseconds since
    /// the bucket was made) and returns how many were granted.
    pub fn take_at(&mut self, amount: usize, now: u64) -> (granted: usize)
        ensures
            granted == old(self)@.granted(amount as nat, now as nat),
            final(self)@ == old(self)@.after_take(amount as nat, now as nat),
    {
        proof {
            use_type_invariant(&*self);
        }
        if self.fill_rate == 0 {
            return amount;
        }
        let elapsed: u64 = if now > self.timestamp { now - self.timestamp } else { 0 };
        let full: u128 = self.capacity as u128 * NANOS_PER_SEC;
        assert(elapsed * self.fill_rate <= u64::MAX * u64::MAX) by (nonlinear_arith)
            requires
                elapsed <= u64::MAX,
                self.fill_rate <= u64::MAX,
        ;
        let gain: u128 = elapsed as u128 * self.fill_rate as u128;
        let refilled: u128 = if gain < full - self.remaining { self.remaining + gain } else { full };
        let available: u128 = refilled / NANOS_PER_SEC;
        let granted: usize = if available < amount as u128 { available as usize } else { amount };
        assert(available <= self.capacity) by (nonlinear_arith)
            requires
                refilled <= full,
                full == self.capacity * NANOS_PER_SEC,
                available == refilled / NANOS_PER_SEC,
        ;
        assert(granted * NANOS_PER_SEC <= refilled) by (nonlinear_arith)
            requires
                granted <= available,
                available == refilled / NANOS_PER_SEC,
        ;
        self.remaining = refilled - granted as u128 * NANOS_PER_SEC;
        if now > self.timestamp {
            self.timestamp = now;
        }
        granted
    }

    /// Takes up to `amount` tokens now and returns how many were granted; an
    /// unlimited bucket grants the whole request. The clock reading used is
    /// the bucket's new timestamp.
    pub fn take(&mut self, amount: usize) -> (granted: usize)
        ensures
            old(self)@.fill_rate == 0 ==> granted == amount && final(self)@ == old(self)@,
            final(self)@.timestamp >= old(self)@.timestamp,
            granted == old(self)@.granted(amount as nat, final(self)@.timestamp),
            final(self)@ == old(self)@.after_take(amount as nat, final(self)@.timestamp),
    {
        if self.fill_rate == 0 {
            return amount;
        }
        let nanos: u128 = whole_nanos(&elapsed_since(&self.origin));
        let now: u64 = if nanos > u64::MAX as u128 { u64::MAX } else { nanos as u64 };
        self.take_at(amount, now)
    }
}

} // verus!
