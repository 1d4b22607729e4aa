//! Rate limiting: a bucket of tokens for each client address.

use crate::addr::IpAddr;
use crate::clock::MonotonicClock;
use crate::{clock, float_bits};
use crate::float_bits::{is_at_least, min_bits, ONE_BITS};
use std::collections::HashMap;
use std::time::Instant;
use vstd::prelude::*;

verus! {

broadcast use vstd::std_specs::hash::group_hash_axioms;

/// The tokens of one client. Amounts and rates are the bits of doubles.
#[derive(Clone, Copy, Debug, PartialEq, Eq, Structural)]
pub struct TokenBucket {
    /// The tokens that the bucket can hold.
    pub capacity: u64,
    /// The tokens in the bucket.
    pub tokens: u64,
    /// The tokens that the bucket gains per second.
    pub refill_rate: u64,
    /// When the bucket was last refilled, in nanoseconds on a monotonic clock.
    pub last_refill: u128,
}

/// The nanoseconds from `earlier` to `now`, none where `now` is not later.
pub open spec fn elapsed(now: u128, earlier: u128) -> u128 {
    if now >= earlier {
        (now - earlier) as u128
    } else {
        0
    }
}

/// `after` is the bucket `before`, refilled at `now`: the tokens become the sum
/// that `accrue` gives from the tokens, the rate and the elapsed nanoseconds,
/// capped at the capacity.
pub open spec fn is_refilled<A: Fn(u64, u64, u128) -> u64>(
    before: TokenBucket,
    now: u128,
    accrue: A,
    after: TokenBucket,
) -> bool {
    exists|sum: u64|
        #[trigger] accrue.ensures(
            (before.tokens, before.refill_rate, elapsed(now, before.last_refill)),
            sum,
        ) && after == (TokenBucket {
            tokens: float_bits::smaller(sum, before.capacity),
            last_refill: now,
            ..before
        })
}

/// Whether a bucket holds `amount` tokens.
pub open spec fn holds(bucket: TokenBucket, amount: u64) -> bool {
    &&& float_bits::is_number(bucket.tokens)
    &&& float_bits::is_number(amount)
    &&& float_bits::place(bucket.tokens) >= float_bits::place(amount)
}

/// `after` is the bucket `refilled` once `amount` tokens were asked of it: if it
/// holds them they are granted, and `spend` gives what is left; if not, the bucket
/// stays as it is.
pub open spec fn is_drawn<S: Fn(u64, u64) -> u64>(
    refilled: TokenBucket,
    amount: u64,
    spend: S,
    after: TokenBucket,
    granted: bool,
) -> bool {
    if holds(refilled, amount) {
        &&& granted
        &&& spend.ensures((refilled.tokens, amount), after.tokens)
        &&& after == (TokenBucket { tokens: after.tokens, ..refilled })
    } else {
        !granted && after == refilled
    }
}

/// `after` is the bucket `before` once `amount` tokens were asked of it at `now`:
/// it is refilled, and then drawn from.
pub open spec fn is_consumed<A: Fn(u64, u64, u128) -> u64, S: Fn(u64, u64) -> u64>(
    before: TokenBucket,
    amount: u64,
    now: u128,
    accrue: A,
    spend: S,
    after: TokenBucket,
    granted: bool,
) -> bool {
    exists|refilled: TokenBucket| #[trigger]
        is_refilled(before, now, accrue, refilled) && is_drawn(
            refilled,
            amount,
            spend,
            after,
            granted,
        )
}

impl TokenBucket {
    /// A full bucket.
    pub open spec fn full(capacity: u64, refill_rate: u64, now: u128) -> Self {
        TokenBucket { capacity, tokens: capacity, refill_rate, last_refill: now }
    }

    /// A bucket made at `now`, full to its capacity.
    pub fn new(capacity: u64, refill_rate: u64, now: u128) -> (r: Self)
        ensures
            r == Self::full(capacity, refill_rate, now),
    {
        TokenBucket { capacity, tokens: capacity, refill_rate, last_refill: now }
    }

    /// Takes `amount` tokens out of the bucket, if at `now` it holds them; says
    /// whether it did. `accrue` gives the tokens after the elapsed time, and
    /// `spend` what is left of them.
    pub fn consume<A: Fn(u64, u64, u128) -> u64, S: Fn(u64, u64) -> u64>(
        &mut self,
        amount: u64,
        now: u128,
        accrue: A,
        spend: S,
    ) -> (r: bool)
        requires
            forall|tokens: u64, rate: u64, nanos: u128| accrue.requires((tokens, rate, nanos)),
            forall|tokens: u64, taken: u64| spend.requires((tokens, taken)),
        ensures
            is_consumed(*old(self), amount, now, accrue, spend, *final(self), r),
    {
        self.refill(now, &accrue);
        let ghost refilled = *self;
        assert(is_refilled(*old(self), now, accrue, refilled));
        if is_at_least(self.tokens, amount) {
            self.tokens = spend(self.tokens, amount);
            assert(is_drawn(refilled, amount, spend, *self, true));
            true
        } else {
            false
        }
    }

    /// Adds the tokens gained since the last refill, up to the capacity.
    pub fn refill<A: Fn(u64, u64, u128) -> u64>(&mut self, now: u128, accrue: &A)
        requires
            forall|tokens: u64, rate: u64, nanos: u128| accrue.requires((tokens, rate, nanos)),
        ensures
            is_refilled(*old(self), now, *accrue, *final(self)),
    {
        let nanos: u128 = if now >= self.last_refill {
            now - self.last_refill
        } else {
            0
        };
        let sum: u64 = accrue(self.tokens, self.refill_rate, nanos);
        self.tokens = min_bits(sum, self.capacity);
        self.last_refill = now;
    }
}

/// The rate limiter: the buckets of all clients seen so far.
pub struct RateLimiter {
    v4: HashMap<u32, TokenBucket>,
    v6: HashMap<u128, TokenBucket>,
    capacity: u64,
    refill_rate: u64,
    clock: MonotonicClock,
}

impl View for RateLimiter {
    type V = Map<IpAddr, TokenBucket>;

    closed spec fn view(&self) -> Map<IpAddr, TokenBucket> {
        Map::new(
            |ip: IpAddr|
                match ip {
                    IpAddr::V4(n) => self.v4@.contains_key(n),
                    IpAddr::V6(n) => self.v6@.contains_key(n),
                },
            |ip: IpAddr|
                match ip {
                    IpAddr::V4(n) => self.v4@[n],
                    IpAddr::V6(n) => self.v6@[n],
                },
        )
    }
}

impl RateLimiter {
    /// The tokens that each client's bucket can hold.
    pub closed spec fn bucket_capacity(&self) -> u64 {
        self.capacity
    }

    /// The tokens that each client's bucket gains per second.
    pub closed spec fn bucket_rate(&self) -> u64 {
        self.refill_rate
    }

    /// When the limiter last read its clock, in nanoseconds from its start.
    pub closed spec fn latest(&self) -> u128 {
        self.clock.latest()
    }

    /// When the limiter's clock was started.
    pub closed spec fn origin(&self) -> Instant {
        self.clock.origin()
    }

    /// The bucket of a client at `now`: its own, under the settings in force, or a full
    /// one for a client not seen before.
    pub open spec fn bucket_of(&self, ip: IpAddr, now: u128) -> TokenBucket {
        if self@.contains_key(ip) {
            TokenBucket {
                capacity: self.bucket_capacity(),
                refill_rate: self.bucket_rate(),
                ..self@[ip]
            }
        } else {
            TokenBucket::full(self.bucket_capacity(), self.bucket_rate(), now)
        }
    }

    /// A limiter that has seen no client.
    pub fn new(capacity: u64, refill_rate: u64) -> (r: Self)
        ensures
            r@ == Map::<IpAddr, TokenBucket>::empty(),
            r.bucket_capacity() == capacity,
            r.bucket_rate() == refill_rate,
            r.latest() == 0,
            clock::is_instant(r.origin()),
    {
        let r = RateLimiter {
            v4: HashMap::new(),
            v6: HashMap::new(),
            capacity,
            refill_rate,
            clock: MonotonicClock::start(),
        };
        assert(r@ =~= Map::<IpAddr, TokenBucket>::empty());
        r
    }

    /// Puts new settings in force. Clients keep the tokens that they have, as far as
    /// the new capacity lets them.
    pub fn reconfigure(&mut self, capacity: u64, refill_rate: u64)
        ensures
            final(self).bucket_capacity() == capacity,
            final(self).bucket_rate() == refill_rate,
            final(self)@ == old(self)@,
            final(self).latest() == old(self).latest(),
            final(self).origin() == old(self).origin(),
    {
        self.capacity = capacity;
        self.refill_rate = refill_rate;
        assert(self@ =~= old(self)@);
    }

    fn bucket(&self, ip: IpAddr) -> (r: Option<TokenBucket>)
        ensures
            r == (if self@.contains_key(ip) {
                Some(self@[ip])
            } else {
                None
            }),
    {
        let found = match ip {
            IpAddr::V4(n) => self.v4.get(&n),
            IpAddr::V6(n) => self.v6.get(&n),
        };
        match found {
            Some(bucket) => Some(*bucket),
            None => None,
        }
    }

    /// Asks one token of the bucket of `ip` at `now`; says whether the request is
    /// permitted.
    pub fn check_at<A: Fn(u64, u64, u128) -> u64, S: Fn(u64, u64) -> u64>(
        &mut self,
        ip: IpAddr,
        now: u128,
        accrue: A,
        spend: S,
    ) -> (r: bool)
        requires
            forall|tokens: u64, rate: u64, nanos: u128| accrue.requires((tokens, rate, nanos)),
            forall|tokens: u64, taken: u64| spend.requires((tokens, taken)),
        ensures
            final(self).bucket_capacity() == old(self).bucket_capacity(),
            final(self).bucket_rate() == old(self).bucket_rate(),
            final(self).latest() == old(self).latest(),
            final(self).origin() == old(self).origin(),
            final(self)@.contains_key(ip),
            final(self)@ == old(self)@.insert(ip, final(self)@[ip]),
            is_consumed(
                old(self).bucket_of(ip, now),
                ONE_BITS,
                now,
                accrue,
                spend,
                final(self)@[ip],
                r,
            ),
    {
        let mut bucket = match self.bucket(ip) {
            Some(bucket) => TokenBucket {
                capacity: self.capacity,
                refill_rate: self.refill_rate,
                ..bucket
            },
            None => TokenBucket::new(self.capacity, self.refill_rate, now),
        };
        let granted = bucket.consume(ONE_BITS, now, accrue, spend);
        match ip {
            IpAddr::V4(n) => {
                self.v4.insert(n, bucket);
            },
            IpAddr::V6(n) => {
                self.v6.insert(n, bucket);
            },
        }
        proof {
            assert(self@[ip] == bucket);
            assert(self@ =~= old(self)@.insert(ip, bucket));
        }
        granted
    }

    /// Asks one token of the bucket of `ip` now; says whether the request is
    /// permitted. What the clock says is not known beforehand, but it never goes
    /// back from one request to the next.
    pub fn check<A: Fn(u64, u64, u128) -> u64, S: Fn(u64, u64) -> u64>(
        &mut self,
        ip: IpAddr,
        accrue: A,
        spend: S,
    ) -> (r: bool)
        requires
            forall|tokens: u64, rate: u64, nanos: u128| accrue.requires((tokens, rate, nanos)),
            forall|tokens: u64, taken: u64| spend.requires((tokens, taken)),
        ensures
            is_checked(*old(self), *final(self), ip, accrue, spend, r),
            reads_its_clock(*old(self), *final(self)),
    {
        let now: u128 = self.clock.nanos();
        self.check_at(ip, now, accrue, spend)
    }
}

/// Between `before` and `after` the limiter has read its clock: it shows the nanoseconds
/// that had passed since it was started, or still the last reading where that is more.
pub open spec fn reads_its_clock(before: RateLimiter, after: RateLimiter) -> bool {
    &&& after.origin() == before.origin()
    &&& exists|nanos: u128| #[trigger]
        clock::has_passed(before.origin(), nanos) && after.latest() >= nanos && (after.latest()
            == nanos || after.latest() == before.latest())
}

/// `after` is the limiter `before` once `ip` has asked for a token: the clock has not
/// gone back, the bucket of `ip` was asked at the time that it shows, and the settings
/// and all other buckets are as they were.
pub open spec fn is_checked<A: Fn(u64, u64, u128) -> u64, S: Fn(u64, u64) -> u64>(
    before: RateLimiter,
    after: RateLimiter,
    ip: IpAddr,
    accrue: A,
    spend: S,
    granted: bool,
) -> bool {
    &&& after.bucket_capacity() == before.bucket_capacity()
    &&& after.bucket_rate() == before.bucket_rate()
    &&& after.latest() >= before.latest()
    &&& after@.contains_key(ip)
    &&& after@ == before@.insert(ip, after@[ip])
    &&& is_consumed(
        before.bucket_of(ip, after.latest()),
        ONE_BITS,
        after.latest(),
        accrue,
        spend,
        after@[ip],
        granted,
    )
}

/// A refill never puts more tokens into a bucket than it can hold.
pub proof fn refill_respects_capacity<A: Fn(u64, u64, u128) -> u64>(
    before: TokenBucket,
    now: u128,
    accrue: A,
    after: TokenBucket,
)
    requires
        is_refilled(before, now, accrue, after),
        float_bits::is_number(before.capacity),
    ensures
        float_bits::is_number(after.tokens),
        float_bits::place(after.tokens) <= float_bits::place(after.capacity),
        after.capacity == before.capacity,
        after.refill_rate == before.refill_rate,
        after.last_refill == now,
{
}

/// A request is granted exactly if the refilled bucket holds what it asks for, and
/// a refused request takes no tokens.
pub proof fn refusal_takes_no_tokens<A: Fn(u64, u64, u128) -> u64, S: Fn(u64, u64) -> u64>(
    before: TokenBucket,
    amount: u64,
    now: u128,
    accrue: A,
    spend: S,
    after: TokenBucket,
    granted: bool,
)
    requires
        is_consumed(before, amount, now, accrue, spend, after, granted),
    ensures
        !granted ==> is_refilled(before, now, accrue, after) && !holds(after, amount),
        granted ==> exists|refilled: TokenBucket|
            #[trigger] is_refilled(before, now, accrue, refilled) && holds(refilled, amount),
{
}

/// A bucket that spends no more than it holds never holds more than its capacity:
/// the bound is kept by every request.
pub proof fn bucket_stays_within_capacity<
    A: Fn(u64, u64, u128) -> u64,
    S: Fn(u64, u64) -> u64,
>(
    before: TokenBucket,
    amount: u64,
    now: u128,
    accrue: A,
    spend: S,
    after: TokenBucket,
    granted: bool,
)
    requires
        is_consumed(before, amount, now, accrue, spend, after, granted),
        float_bits::is_number(before.capacity),
        forall|tokens: u64, left: u64| #[trigger]
            spend.ensures((tokens, amount), left) && float_bits::is_number(tokens)
                ==> float_bits::is_number(left) && float_bits::place(left) <= float_bits::place(
                tokens,
            ),
    ensures
        float_bits::is_number(after.tokens),
        float_bits::place(after.tokens) <= float_bits::place(after.capacity),
        after.capacity == before.capacity,
{
}

/// `tokens` is an amount that a bucket of this capacity can hold.
pub open spec fn fits(tokens: u64, capacity: u64) -> bool {
    &&& float_bits::is_number(tokens)
    &&& float_bits::is_number(capacity)
    &&& 0 <= float_bits::place(tokens) <= float_bits::place(capacity)
}

/// The caller's arithmetic is exact up to `slack`, as `worth` measures amounts: `worth`
/// follows the order of numbers, a refill adds no more than `per_nano` for each
/// nanosecond, and a request takes the worth of one token.
pub open spec fn is_exact_up_to<A: Fn(u64, u64, u128) -> u64, S: Fn(u64, u64) -> u64>(
    accrue: A,
    spend: S,
    capacity: u64,
    rate: u64,
    worth: spec_fn(u64) -> int,
    per_nano: int,
    slack: int,
) -> bool {
    &&& slack >= 0
    &&& per_nano >= 0
    &&& worth(0) == 0
    &&& forall|a: u64, b: u64|
        #![trigger worth(a), worth(b)]
        float_bits::is_number(a) && float_bits::is_number(b) ==> (worth(a) < worth(b)
            <==> float_bits::place(a) < float_bits::place(b))
    &&& forall|tokens: u64, nanos: u128, sum: u64| #[trigger]
        accrue.ensures((tokens, rate, nanos), sum) && fits(tokens, capacity) ==> {
            &&& float_bits::is_number(sum)
            &&& float_bits::place(tokens) <= float_bits::place(sum)
            &&& worth(float_bits::smaller(sum, capacity)) <= worth(tokens) + per_nano * nanos
                + slack
        }
    &&& forall|tokens: u64, left: u64| #[trigger]
        spend.ensures((tokens, ONE_BITS), left) && fits(tokens, capacity) && float_bits::place(
            ONE_BITS,
        ) <= float_bits::place(tokens) ==> {
            &&& fits(left, tokens)
            &&& worth(tokens) - worth(ONE_BITS) - slack <= worth(left)
            &&& worth(left) <= worth(tokens) - worth(ONE_BITS) + slack
        }
}

/// The history of a bucket: request after request, at `times`, with the answers in
/// `granted`.
pub open spec fn is_history<A: Fn(u64, u64, u128) -> u64, S: Fn(u64, u64) -> u64>(
    buckets: Seq<TokenBucket>,
    times: Seq<u128>,
    granted: Seq<bool>,
    accrue: A,
    spend: S,
) -> bool {
    &&& times.len() == granted.len()
    &&& buckets.len() == granted.len() + 1
    &&& forall|m: int|
        0 <= m < granted.len() ==> buckets[m].last_refill <= #[trigger] times[m]
            && is_consumed(
            buckets[m],
            ONE_BITS,
            times[m],
            accrue,
            spend,
            buckets[m + 1],
            granted[m],
        )
}

/// How many requests are granted.
pub open spec fn grants(granted: Seq<bool>) -> nat
    decreases granted.len(),
{
    if granted.len() == 0 {
        0
    } else {
        grants(granted.drop_last()) + if granted.last() {
            1nat
        } else {
            0nat
        }
    }
}

/// What one request does to the worth of a bucket.
proof fn request_is_paid<A: Fn(u64, u64, u128) -> u64, S: Fn(u64, u64) -> u64>(
    before: TokenBucket,
    now: u128,
    accrue: A,
    spend: S,
    after: TokenBucket,
    granted: bool,
    worth: spec_fn(u64) -> int,
    per_nano: int,
    slack: int,
)
    requires
        is_exact_up_to(
            accrue,
            spend,
            before.capacity,
            before.refill_rate,
            worth,
            per_nano,
            slack,
        ),
        fits(before.tokens, before.capacity),
        before.last_refill <= now,
        is_consumed(before, ONE_BITS, now, accrue, spend, after, granted),
    ensures
        fits(after.tokens, after.capacity),
        after.capacity == before.capacity,
        after.refill_rate == before.refill_rate,
        after.last_refill == now,
        worth(after.tokens) + (if granted {
            worth(ONE_BITS) - slack
        } else {
            0
        }) <= worth(before.tokens) + per_nano * (now - before.last_refill) + slack,
        worth(after.tokens) + (if granted {
            worth(ONE_BITS) - slack
        } else {
            0
        }) <= worth(before.capacity),
        worth(before.tokens) >= worth(ONE_BITS) ==> granted && worth(after.tokens) >= worth(
            before.tokens,
        ) - worth(ONE_BITS) - slack,
{
    let refilled = choose|refilled: TokenBucket| #[trigger]
        is_refilled(before, now, accrue, refilled) && is_drawn(
            refilled,
            ONE_BITS,
            spend,
            after,
            granted,
        );
    let sum = choose|sum: u64|
        #[trigger] accrue.ensures(
            (before.tokens, before.refill_rate, elapsed(now, before.last_refill)),
            sum,
        ) && refilled == (TokenBucket {
            tokens: float_bits::smaller(sum, before.capacity),
            last_refill: now,
            ..before
        });
    assert(fits(refilled.tokens, before.capacity));
    assert(float_bits::place(before.tokens) <= float_bits::place(refilled.tokens));
    assert(worth(refilled.tokens) <= worth(before.tokens) + per_nano * (now - before.last_refill)
        + slack);
    assert(!(worth(refilled.tokens) < worth(before.tokens)));
    assert(!(worth(before.capacity) < worth(refilled.tokens)));
    assert(worth(refilled.tokens) < worth(ONE_BITS) <==> float_bits::place(refilled.tokens)
        < float_bits::place(ONE_BITS));
    if granted {
        assert(spend.ensures((refilled.tokens, ONE_BITS), after.tokens));
    }
}

/// A bucket grants no more than its burst and the steady rate: the requests granted from
/// the first to the last of a history are worth no more than the capacity and what the
/// time between them refills, up to the slack of the caller's arithmetic.
pub proof fn grants_are_bounded<A: Fn(u64, u64, u128) -> u64, S: Fn(u64, u64) -> u64>(
    buckets: Seq<TokenBucket>,
    times: Seq<u128>,
    granted: Seq<bool>,
    accrue: A,
    spend: S,
    worth: spec_fn(u64) -> int,
    per_nano: int,
    slack: int,
)
    requires
        is_history(buckets, times, granted, accrue, spend),
        fits(buckets[0].tokens, buckets[0].capacity),
        is_exact_up_to(
            accrue,
            spend,
            buckets[0].capacity,
            buckets[0].refill_rate,
            worth,
            per_nano,
            slack,
        ),
        granted.len() > 0,
    ensures
        grants(granted) * (worth(ONE_BITS) - slack) <= worth(buckets[0].capacity) + per_nano * (
        times.last() - times[0]) + granted.len() * slack,
{
    let n = granted.len() as int;
    assert(buckets[0].last_refill <= times[0]);
    request_is_paid(
        buckets[0],
        times[0],
        accrue,
        spend,
        buckets[1],
        granted[0],
        worth,
        per_nano,
        slack,
    );
    let later = buckets.skip(1);
    let later_times = times.skip(1);
    let later_granted = granted.skip(1);
    assert(is_history(later, later_times, later_granted, accrue, spend)) by {
        assert forall|m: int| 0 <= m < later_granted.len() implies later[m].last_refill
            <= #[trigger] later_times[m] && is_consumed(
            later[m],
            ONE_BITS,
            later_times[m],
            accrue,
            spend,
            later[m + 1],
            later_granted[m],
        ) by {
            assert(buckets[m + 1].last_refill <= times[m + 1]);
        }
    }
    history_is_paid(
        later,
        later_times,
        later_granted,
        accrue,
        spend,
        worth,
        per_nano,
        slack,
        n - 1,
    );
    assert(later_granted.take(n - 1) =~= later_granted);
    grants_from_the_first(granted);
    if n > 1 {
        history_is_paid(buckets, times, granted, accrue, spend, worth, per_nano, slack, n - 1);
        assert(buckets[n - 1].last_refill <= times[n - 1]);
        request_is_paid(
            buckets[n - 1],
            times[n - 1],
            accrue,
            spend,
            buckets[n],
            granted[n - 1],
            worth,
            per_nano,
            slack,
        );
    }
    assert(later[n - 1].last_refill == times.last());
    assert(!(worth(later[n - 1].tokens) < worth(0)));
    let price = worth(ONE_BITS) - slack;
    let g = grants(later_granted) as int;
    assert((g + 1) * price == g * price + price) by (nonlinear_arith);
    assert((n - 1) * slack <= n * slack) by (nonlinear_arith)
        requires
            slack >= 0,
    ;
}

proof fn grants_from_the_first(granted: Seq<bool>)
    requires
        granted.len() > 0,
    ensures
        grants(granted) == grants(granted.skip(1)) + if granted[0] {
            1nat
        } else {
            0nat
        },
    decreases granted.len(),
{
    if granted.len() > 1 {
        grants_from_the_first(granted.drop_last());
        assert(granted.drop_last().skip(1) =~= granted.skip(1).drop_last());
        assert(granted.skip(1).last() == granted.last());
    } else {
        assert(grants(granted.drop_last()) == 0);
        assert(grants(granted.skip(1)) == 0);
    }
}

proof fn history_is_paid<A: Fn(u64, u64, u128) -> u64, S: Fn(u64, u64) -> u64>(
    buckets: Seq<TokenBucket>,
    times: Seq<u128>,
    granted: Seq<bool>,
    accrue: A,
    spend: S,
    worth: spec_fn(u64) -> int,
    per_nano: int,
    slack: int,
    k: int,
)
    requires
        is_history(buckets, times, granted, accrue, spend),
        fits(buckets[0].tokens, buckets[0].capacity),
        is_exact_up_to(
            accrue,
            spend,
            buckets[0].capacity,
            buckets[0].refill_rate,
            worth,
            per_nano,
            slack,
        ),
        0 <= k <= granted.len(),
    ensures
        fits(buckets[k].tokens, buckets[k].capacity),
        buckets[k].capacity == buckets[0].capacity,
        buckets[k].refill_rate == buckets[0].refill_rate,
        worth(buckets[k].tokens) + grants(granted.take(k)) * (worth(ONE_BITS) - slack) <= worth(
            buckets[0].tokens,
        ) + per_nano * (buckets[k].last_refill - buckets[0].last_refill) + k * slack,
    decreases k,
{
    if k > 0 {
        let m = k - 1;
        history_is_paid(buckets, times, granted, accrue, spend, worth, per_nano, slack, m);
        assert(buckets[m].last_refill <= times[m]);
        request_is_paid(
            buckets[m],
            times[m],
            accrue,
            spend,
            buckets[k],
            granted[m],
            worth,
            per_nano,
            slack,
        );
        assert(granted.take(k).drop_last() =~= granted.take(m));
        let price = worth(ONE_BITS) - slack;
        let g = grants(granted.take(m)) as int;
        assert(grants(granted.take(k)) == g + if granted[m] {
            1int
        } else {
            0int
        });
        assert((g + 1) * price == g * price + price) by (nonlinear_arith);
        assert(k * slack == m * slack + slack) by (nonlinear_arith)
            requires
                k == m + 1,
        ;
        let t0 = buckets[0].last_refill as int;
        let t1 = buckets[m].last_refill as int;
        let t2 = buckets[k].last_refill as int;
        assert(per_nano * (t2 - t0) == per_nano * (t1 - t0) + per_nano * (t2 - t1))
            by (nonlinear_arith);
    } else {
        let price = worth(ONE_BITS) - slack;
        assert(grants(granted.take(0)) == 0);
        assert(0 * price == 0 && 0 * slack == 0 && per_nano * 0 == 0) by (nonlinear_arith);
    }
}

/// A burst within the tokens of a bucket is granted in full: with tokens for all of the
/// requests, up to the slack of the caller's arithmetic, none of them is refused.
pub proof fn burst_is_granted<A: Fn(u64, u64, u128) -> u64, S: Fn(u64, u64) -> u64>(
    buckets: Seq<TokenBucket>,
    times: Seq<u128>,
    granted: Seq<bool>,
    accrue: A,
    spend: S,
    worth: spec_fn(u64) -> int,
    per_nano: int,
    slack: int,
    m: int,
)
    requires
        is_history(buckets, times, granted, accrue, spend),
        fits(buckets[0].tokens, buckets[0].capacity),
        is_exact_up_to(
            accrue,
            spend,
            buckets[0].capacity,
            buckets[0].refill_rate,
            worth,
            per_nano,
            slack,
        ),
        worth(buckets[0].tokens) >= granted.len() * (worth(ONE_BITS) + slack),
        0 <= m < granted.len(),
    ensures
        granted[m],
        worth(buckets[m + 1].tokens) >= worth(buckets[0].tokens) - (m + 1) * (worth(ONE_BITS)
            + slack),
    decreases m,
{
    let cost = worth(ONE_BITS) + slack;
    history_is_paid(buckets, times, granted, accrue, spend, worth, per_nano, slack, m);
    if m > 0 {
        burst_is_granted(buckets, times, granted, accrue, spend, worth, per_nano, slack, m - 1);
    }
    assert(0 * cost == 0) by (nonlinear_arith);
    assert(worth(buckets[m].tokens) >= worth(buckets[0].tokens) - m * cost);
    assert((m + 1) * cost == m * cost + cost) by (nonlinear_arith);
    assert(worth(ONE_BITS) > worth(0));
    let n = granted.len() as int;
    assert(n * cost >= (m + 1) * cost) by (nonlinear_arith)
        requires
            n >= m + 1,
            cost >= 0,
    ;
    assert(buckets[m].last_refill <= times[m]);
    request_is_paid(
        buckets[m],
        times[m],
        accrue,
        spend,
        buckets[m + 1],
        granted[m],
        worth,
        per_nano,
        slack,
    );
}

/// A request extends the history of its client: where the history ends with the bucket
/// that is asked, last refilled when the limiter last read its clock or before, it goes
/// on with the bucket that the request leaves. That bucket is the one that the client's
/// next request asks.
pub proof fn check_extends_the_history<A: Fn(u64, u64, u128) -> u64, S: Fn(u64, u64) -> u64>(
    before: RateLimiter,
    after: RateLimiter,
    ip: IpAddr,
    accrue: A,
    spend: S,
    granted: bool,
    buckets: Seq<TokenBucket>,
    times: Seq<u128>,
    answers: Seq<bool>,
)
    requires
        is_checked(before, after, ip, accrue, spend, granted),
        is_history(buckets, times, answers, accrue, spend),
        buckets.last() == before.bucket_of(ip, after.latest()),
        before@.contains_key(ip) ==> before@[ip].last_refill <= before.latest(),
    ensures
        is_history(
            buckets.push(after@[ip]),
            times.push(after.latest()),
            answers.push(granted),
            accrue,
            spend,
        ),
        after@[ip].last_refill == after.latest(),
        forall|now: u128| #[trigger] after.bucket_of(ip, now) == after@[ip],
{
    let longer = buckets.push(after@[ip]);
    let asked = times.push(after.latest());
    let given = answers.push(granted);
    assert forall|m: int| 0 <= m < given.len() implies longer[m].last_refill <= #[trigger] asked[m]
        && is_consumed(
        longer[m],
        ONE_BITS,
        asked[m],
        accrue,
        spend,
        longer[m + 1],
        given[m],
    ) by {
        if m < answers.len() {
            assert(buckets[m].last_refill <= times[m]);
        }
    }
}

/// A run of a limiter: one request after the other, of any clients.
pub open spec fn is_run<A: Fn(u64, u64, u128) -> u64, S: Fn(u64, u64) -> u64>(
    limiters: Seq<RateLimiter>,
    ips: Seq<IpAddr>,
    answers: Seq<bool>,
    accrue: A,
    spend: S,
) -> bool {
    &&& ips.len() == answers.len()
    &&& limiters.len() == answers.len() + 1
    &&& forall|m: int|
        #![trigger ips[m]]
        0 <= m < answers.len() ==> is_checked(
            limiters[m],
            limiters[m + 1],
            ips[m],
            accrue,
            spend,
            answers[m],
        )
}

/// The answers that `ip` got.
pub open spec fn answers_to(ips: Seq<IpAddr>, answers: Seq<bool>, ip: IpAddr) -> Seq<bool>
    decreases ips.len(),
{
    if ips.len() == 0 {
        Seq::empty()
    } else {
        let before = answers_to(ips.drop_last(), answers.drop_last(), ip);
        if ips.last() == ip {
            before.push(answers.last())
        } else {
            before
        }
    }
}

/// The bucket of `ip`, if there is one, is kept under the settings in force: it holds no
/// more than its capacity, and was last refilled when the limiter last read its clock or
/// before.
pub open spec fn is_current(limiter: RateLimiter, ip: IpAddr) -> bool {
    limiter@.contains_key(ip) ==> {
        &&& limiter@[ip].capacity == limiter.bucket_capacity()
        &&& limiter@[ip].refill_rate == limiter.bucket_rate()
        &&& limiter@[ip].last_refill <= limiter.latest()
        &&& fits(limiter@[ip].tokens, limiter.bucket_capacity())
    }
}

/// The history of one client in a run, with the buckets and the times of its requests.
proof fn history_in_run<A: Fn(u64, u64, u128) -> u64, S: Fn(u64, u64) -> u64>(
    limiters: Seq<RateLimiter>,
    ips: Seq<IpAddr>,
    answers: Seq<bool>,
    ip: IpAddr,
    accrue: A,
    spend: S,
    worth: spec_fn(u64) -> int,
    per_nano: int,
    slack: int,
    k: int,
) -> (h: (Seq<TokenBucket>, Seq<u128>))
    requires
        is_run(limiters, ips, answers, accrue, spend),
        is_exact_up_to(
            accrue,
            spend,
            limiters[0].bucket_capacity(),
            limiters[0].bucket_rate(),
            worth,
            per_nano,
            slack,
        ),
        fits(limiters[0].bucket_capacity(), limiters[0].bucket_capacity()),
        is_current(limiters[0], ip),
        0 <= k <= answers.len(),
    ensures
        limiters[k].bucket_capacity() == limiters[0].bucket_capacity(),
        limiters[k].bucket_rate() == limiters[0].bucket_rate(),
        limiters[k].latest() >= limiters[0].latest(),
        is_current(limiters[k], ip),
        ({
            let given = answers_to(ips.take(k), answers.take(k), ip);
            if given.len() == 0 {
                limiters[k]@.contains_key(ip) == limiters[0]@.contains_key(ip)
            } else {
                &&& is_history(h.0, h.1, given, accrue, spend)
                &&& limiters[k]@.contains_key(ip)
                &&& h.0.last() == limiters[k]@[ip]
                &&& h.0[0].capacity == limiters[0].bucket_capacity()
                &&& h.0[0].refill_rate == limiters[0].bucket_rate()
                &&& fits(h.0[0].tokens, h.0[0].capacity)
                &&& h.1[0] >= limiters[0].latest()
                &&& h.1.last() <= limiters[k].latest()
                &&& !limiters[0]@.contains_key(ip) ==> h.0[0].tokens
                    == limiters[0].bucket_capacity()
            }
        }),
    decreases k,
{
    if k == 0 {
        assert(answers_to(ips.take(0), answers.take(0), ip).len() == 0);
        (Seq::empty(), Seq::empty())
    } else {
        let m = k - 1;
        let h = history_in_run(
            limiters,
            ips,
            answers,
            ip,
            accrue,
            spend,
            worth,
            per_nano,
            slack,
            m,
        );
        let before = limiters[m];
        let after = limiters[m + 1];
        assert(is_checked(before, after, ips[m], accrue, spend, answers[m]));
        assert(ips.take(k).drop_last() =~= ips.take(m));
        assert(answers.take(k).drop_last() =~= answers.take(m));
        if ips[m] == ip {
            let given = answers_to(ips.take(m), answers.take(m), ip);
            let asked = before.bucket_of(ip, after.latest());
            let (buckets, times) = if given.len() == 0 {
                (seq![asked], Seq::empty())
            } else {
                h
            };
            if given.len() == 0 {
                assert(given =~= Seq::empty());
            }
            assert(buckets.last() == asked);
            assert(asked.last_refill <= after.latest());
            check_extends_the_history(
                before,
                after,
                ip,
                accrue,
                spend,
                answers[m],
                buckets,
                times,
                given,
            );
            request_is_paid(
                asked,
                after.latest(),
                accrue,
                spend,
                after@[ip],
                answers[m],
                worth,
                per_nano,
                slack,
            );
            (buckets.push(after@[ip]), times.push(after.latest()))
        } else {
            clients_are_independent(before, after, ips[m], ip);
            h
        }
    }
}

/// A client gets no more than its burst and the steady rate: over any run of a limiter,
/// whoever else asks, the requests of one client that are granted are worth no more than
/// the capacity and what the time of the run refills, up to the slack of the caller's
/// arithmetic.
pub proof fn client_grants_are_bounded<A: Fn(u64, u64, u128) -> u64, S: Fn(u64, u64) -> u64>(
    limiters: Seq<RateLimiter>,
    ips: Seq<IpAddr>,
    answers: Seq<bool>,
    ip: IpAddr,
    accrue: A,
    spend: S,
    worth: spec_fn(u64) -> int,
    per_nano: int,
    slack: int,
)
    requires
        is_run(limiters, ips, answers, accrue, spend),
        is_exact_up_to(
            accrue,
            spend,
            limiters[0].bucket_capacity(),
            limiters[0].bucket_rate(),
            worth,
            per_nano,
            slack,
        ),
        fits(limiters[0].bucket_capacity(), limiters[0].bucket_capacity()),
        is_current(limiters[0], ip),
    ensures
        grants(answers_to(ips, answers, ip)) * (worth(ONE_BITS) - slack) <= worth(
            limiters[0].bucket_capacity(),
        ) + per_nano * (limiters.last().latest() - limiters[0].latest()) + answers_to(
            ips,
            answers,
            ip,
        ).len() * slack,
        is_current(limiters.last(), ip),
{
    let n = answers.len() as int;
    let h = history_in_run(
        limiters,
        ips,
        answers,
        ip,
        accrue,
        spend,
        worth,
        per_nano,
        slack,
        n,
    );
    assert(ips.take(n) =~= ips);
    assert(answers.take(n) =~= answers);
    let given = answers_to(ips, answers, ip);
    let capacity = limiters[0].bucket_capacity();
    let time = limiters.last().latest() - limiters[0].latest();
    let price = worth(ONE_BITS) - slack;
    assert(!(worth(capacity) < worth(0)));
    assert(per_nano * time >= 0) by (nonlinear_arith)
        requires
            per_nano >= 0,
            time >= 0,
    ;
    if given.len() == 0 {
        assert(0 * price == 0 && 0 * slack == 0) by (nonlinear_arith);
    } else {
        grants_are_bounded(h.0, h.1, given, accrue, spend, worth, per_nano, slack);
        let asked = h.1.last() - h.1[0];
        assert(per_nano * asked <= per_nano * time) by (nonlinear_arith)
            requires
                per_nano >= 0,
                asked <= time,
        ;
    }
}

/// A new client's burst is granted in full: over any run of a limiter that has not seen a
/// client before, whoever else asks, none of the client's requests is refused as long as
/// the capacity covers all of them, up to the slack of the caller's arithmetic.
pub proof fn new_client_burst_is_granted<A: Fn(u64, u64, u128) -> u64, S: Fn(u64, u64) -> u64>(
    limiters: Seq<RateLimiter>,
    ips: Seq<IpAddr>,
    answers: Seq<bool>,
    ip: IpAddr,
    accrue: A,
    spend: S,
    worth: spec_fn(u64) -> int,
    per_nano: int,
    slack: int,
    m: int,
)
    requires
        is_run(limiters, ips, answers, accrue, spend),
        is_exact_up_to(
            accrue,
            spend,
            limiters[0].bucket_capacity(),
            limiters[0].bucket_rate(),
            worth,
            per_nano,
            slack,
        ),
        fits(limiters[0].bucket_capacity(), limiters[0].bucket_capacity()),
        !limiters[0]@.contains_key(ip),
        worth(limiters[0].bucket_capacity()) >= answers_to(ips, answers, ip).len() * (worth(
            ONE_BITS,
        ) + slack),
        0 <= m < answers_to(ips, answers, ip).len(),
    ensures
        answers_to(ips, answers, ip)[m],
{
    let n = answers.len() as int;
    let h = history_in_run(
        limiters,
        ips,
        answers,
        ip,
        accrue,
        spend,
        worth,
        per_nano,
        slack,
        n,
    );
    assert(ips.take(n) =~= ips);
    assert(answers.take(n) =~= answers);
    burst_is_granted(
        h.0,
        h.1,
        answers_to(ips, answers, ip),
        accrue,
        spend,
        worth,
        per_nano,
        slack,
        m,
    );
}

/// A request of one client leaves the buckets of all others as they were.
pub proof fn clients_are_independent(
    before: RateLimiter,
    after: RateLimiter,
    ip: IpAddr,
    other: IpAddr,
)
    requires
        after@ == before@.insert(ip, after@[ip]),
        other != ip,
    ensures
        after@.contains_key(other) == before@.contains_key(other),
        before@.contains_key(other) ==> after@[other] == before@[other],
{
}

/// A refill adds what the time since the last refill brings, all of it, up to the
/// capacity: the caller's function is handed the tokens, the rate and the nanoseconds that
/// have passed, and its sum is what the bucket then holds, unless the capacity is less.
pub proof fn refill_brings_what_the_time_is_worth<A: Fn(u64, u64, u128) -> u64>(
    before: TokenBucket,
    now: u128,
    accrue: A,
    after: TokenBucket,
)
    requires
        is_refilled(before, now, accrue, after),
        float_bits::is_number(before.capacity),
        before.last_refill <= now,
    ensures
        exists|sum: u64|
            #[trigger] accrue.ensures(
                (before.tokens, before.refill_rate, (now - before.last_refill) as u128),
                sum,
            ) && (after.tokens == sum && !float_bits::less(before.capacity, sum)
                || after.tokens == before.capacity && !float_bits::less(sum, before.capacity)),
        after.capacity == before.capacity,
        after.refill_rate == before.refill_rate,
        after.last_refill == now,
{
    let sum = choose|sum: u64|
        #[trigger] accrue.ensures(
            (before.tokens, before.refill_rate, elapsed(now, before.last_refill)),
            sum,
        ) && after == (TokenBucket {
            tokens: float_bits::smaller(sum, before.capacity),
            last_refill: now,
            ..before
        });
    assert(accrue.ensures(
        (before.tokens, before.refill_rate, (now - before.last_refill) as u128),
        sum,
    ));
    float_bits::smaller_is_one_of_the_two(sum, before.capacity);
}

/// A request is granted exactly if the bucket holds no less than it asks for. What is
/// granted is taken; what is refused leaves the bucket alone.
pub proof fn request_is_granted_from_what_is_there<S: Fn(u64, u64) -> u64>(
    refilled: TokenBucket,
    amount: u64,
    spend: S,
    after: TokenBucket,
    granted: bool,
)
    requires
        is_drawn(refilled, amount, spend, after, granted),
    ensures
        granted <==> float_bits::is_number(refilled.tokens) && float_bits::is_number(amount)
            && !float_bits::less(refilled.tokens, amount),
        granted ==> spend.ensures((refilled.tokens, amount), after.tokens),
        !granted ==> after.tokens == refilled.tokens,
        after.capacity == refilled.capacity,
        after.refill_rate == refilled.refill_rate,
        after.last_refill == refilled.last_refill,
{
}

/// Waiting pays: a client that has waited until the time since its last request brings one
/// token is granted its request, if a bucket can hold one at all.
pub proof fn waiting_brings_a_token<A: Fn(u64, u64, u128) -> u64, S: Fn(u64, u64) -> u64>(
    before: TokenBucket,
    now: u128,
    accrue: A,
    spend: S,
    after: TokenBucket,
    granted: bool,
)
    requires
        is_consumed(before, 0x3ff0_0000_0000_0000, now, accrue, spend, after, granted),
        before.last_refill <= now,
        float_bits::is_number(before.capacity),
        !float_bits::less(before.capacity, 0x3ff0_0000_0000_0000),
        forall|sum: u64| #[trigger]
            accrue.ensures(
                (before.tokens, before.refill_rate, (now - before.last_refill) as u128),
                sum,
            ) ==> float_bits::is_number(sum) && !float_bits::less(sum, 0x3ff0_0000_0000_0000),
    ensures
        granted,
{
    let refilled = choose|refilled: TokenBucket| #[trigger]
        is_refilled(before, now, accrue, refilled) && is_drawn(
            refilled,
            0x3ff0_0000_0000_0000,
            spend,
            after,
            granted,
        );
    refill_brings_what_the_time_is_worth(before, now, accrue, refilled);
    request_is_granted_from_what_is_there(
        refilled,
        0x3ff0_0000_0000_0000,
        spend,
        after,
        granted,
    );
}

/// A client that has not been seen starts with a full bucket, refilled at that time; one
/// that has been seen asks its own, under the settings in force.
pub proof fn client_asks_its_own_bucket(limiter: RateLimiter, ip: IpAddr, now: u128)
    ensures
        limiter.bucket_of(ip, now).capacity == limiter.bucket_capacity(),
        limiter.bucket_of(ip, now).refill_rate == limiter.bucket_rate(),
        limiter@.contains_key(ip) ==> limiter.bucket_of(ip, now).tokens == limiter@[ip].tokens
            && limiter.bucket_of(ip, now).last_refill == limiter@[ip].last_refill,
        !limiter@.contains_key(ip) ==> limiter.bucket_of(ip, now).tokens
            == limiter.bucket_capacity() && limiter.bucket_of(ip, now).last_refill == now,
{
}

/// A check asks for one token at the time that the limiter's clock shows, which has not
/// gone back, and takes it from the client's own bucket.
pub proof fn check_asks_for_one_token<A: Fn(u64, u64, u128) -> u64, S: Fn(u64, u64) -> u64>(
    before: RateLimiter,
    after: RateLimiter,
    ip: IpAddr,
    other: IpAddr,
    accrue: A,
    spend: S,
    granted: bool,
)
    requires
        is_checked(before, after, ip, accrue, spend, granted),
    ensures
        after.latest() >= before.latest(),
        after.bucket_capacity() == before.bucket_capacity(),
        after.bucket_rate() == before.bucket_rate(),
        after@.contains_key(ip),
        is_consumed(
            before.bucket_of(ip, after.latest()),
            0x3ff0_0000_0000_0000,
            after.latest(),
            accrue,
            spend,
            after@[ip],
            granted,
        ),
        other != ip ==> after@.contains_key(other) == before@.contains_key(other) && (
        before@.contains_key(other) ==> after@[other] == before@[other]),
{
}

/// The limiter goes by its clock: where the clock shows more than at the last request, that
/// is the time of the request.
pub proof fn time_of_a_check_is_read_off_the_clock(before: RateLimiter, after: RateLimiter)
    requires
        reads_its_clock(before, after),
    ensures
        exists|nanos: u128| #[trigger]
            clock::has_passed(before.origin(), nanos) && after.latest() >= nanos && (nanos
                > before.latest() ==> after.latest() == nanos),
        after.origin() == before.origin(),
{
}

/// What a check leaves: the client's bucket was asked for one token, at a reading of the
/// limiter's clock that has not gone back; the settings and all other buckets are as they
/// were.
pub proof fn check_asks_at_the_time_of_the_clock<
    A: Fn(u64, u64, u128) -> u64,
    S: Fn(u64, u64) -> u64,
>(
    limiter: &mut RateLimiter,
    ip: IpAddr,
    other: IpAddr,
    accrue: A,
    spend: S,
    granted: bool,
)
    requires
        call_ensures(RateLimiter::check::<A, S>, (limiter, ip, accrue, spend), granted),
        other != ip,
    ensures
        exists|nanos: u128| #[trigger]
            clock::has_passed(old(limiter).origin(), nanos) && final(limiter).latest() >= nanos
                && (nanos > old(limiter).latest() ==> final(limiter).latest() == nanos),
        final(limiter).latest() >= old(limiter).latest(),
        final(limiter).origin() == old(limiter).origin(),
        final(limiter).bucket_capacity() == old(limiter).bucket_capacity(),
        final(limiter).bucket_rate() == old(limiter).bucket_rate(),
        final(limiter)@.contains_key(ip),
        is_consumed(
            old(limiter).bucket_of(ip, final(limiter).latest()),
            0x3ff0_0000_0000_0000,
            final(limiter).latest(),
            accrue,
            spend,
            final(limiter)@[ip],
            granted,
        ),
        final(limiter)@.contains_key(other) == old(limiter)@.contains_key(other),
        old(limiter)@.contains_key(other) ==> final(limiter)@[other] == old(limiter)@[other],
{
}

/// What a request for tokens leaves: the bucket is refilled for the time since its last
/// refill, up to its capacity, and if it then holds the tokens they are granted.
pub proof fn tokens_are_granted_from_the_refilled_bucket<
    A: Fn(u64, u64, u128) -> u64,
    S: Fn(u64, u64) -> u64,
>(
    bucket: &mut TokenBucket,
    amount: u64,
    now: u128,
    accrue: A,
    spend: S,
    granted: bool,
)
    requires
        call_ensures(
            TokenBucket::consume::<A, S>,
            (bucket, amount, now, accrue, spend),
            granted,
        ),
        float_bits::is_number(amount),
        float_bits::is_number(old(bucket).capacity),
    ensures
        final(bucket).capacity == old(bucket).capacity,
        final(bucket).refill_rate == old(bucket).refill_rate,
        final(bucket).last_refill == now,
        exists|sum: u64|
            {
                let held = #[trigger] float_bits::smaller(sum, old(bucket).capacity);
                &&& accrue.ensures(
                    (
                        old(bucket).tokens,
                        old(bucket).refill_rate,
                        if now >= old(bucket).last_refill {
                            (now - old(bucket).last_refill) as u128
                        } else {
                            0u128
                        },
                    ),
                    sum,
                )
                &&& granted <==> float_bits::place(held) >= float_bits::place(amount)
                &&& granted ==> spend.ensures((held, amount), final(bucket).tokens)
                &&& !granted ==> final(bucket).tokens == held
            },
{
    let refilled = choose|refilled: TokenBucket| #[trigger]
        is_refilled(*old(bucket), now, accrue, refilled) && is_drawn(
            refilled,
            amount,
            spend,
            *final(bucket),
            granted,
        );
    refill_respects_capacity(*old(bucket), now, accrue, refilled);
    let before = *old(bucket);
    let sum = choose|sum: u64| #[trigger]
        accrue.ensures(
            (before.tokens, before.refill_rate, elapsed(now, before.last_refill)),
            sum,
        ) && refilled == (TokenBucket {
            tokens: float_bits::smaller(sum, before.capacity),
            last_refill: now,
            ..before
        });
    assert(refilled.tokens == float_bits::smaller(sum, before.capacity));
}

/// New settings take effect at once, and clients keep what they have.
pub proof fn settings_are_put_in_force(
    limiter: &mut RateLimiter,
    capacity: u64,
    refill_rate: u64,
)
    requires
        call_ensures(RateLimiter::reconfigure, (limiter, capacity, refill_rate), ()),
    ensures
        final(limiter).bucket_capacity() == capacity,
        final(limiter).bucket_rate() == refill_rate,
        final(limiter)@ == old(limiter)@,
        final(limiter).latest() == old(limiter).latest(),
        final(limiter).origin() == old(limiter).origin(),
{
}

/// A limiter begins without clients, with the settings that it is given and a clock that is
/// started then; a new bucket is full.
pub proof fn limiter_begins_without_clients(
    capacity: u64,
    refill_rate: u64,
    limiter: RateLimiter,
    now: u128,
    bucket: TokenBucket,
    ip: IpAddr,
)
    requires
        call_ensures(RateLimiter::new, (capacity, refill_rate), limiter),
        call_ensures(TokenBucket::new, (capacity, refill_rate, now), bucket),
    ensures
        !limiter@.contains_key(ip),
        limiter.bucket_capacity() == capacity,
        limiter.bucket_rate() == refill_rate,
        limiter.latest() == 0,
        clock::is_instant(limiter.origin()),
        bucket == (TokenBucket { capacity, tokens: capacity, refill_rate, last_refill: now }),
{
}

/// What a check at a given time leaves: the client's bucket was asked for one token at that
/// time, and all other buckets are as they were.
pub proof fn check_asks_at_its_time<A: Fn(u64, u64, u128) -> u64, S: Fn(u64, u64) -> u64>(
    limiter: &mut RateLimiter,
    ip: IpAddr,
    now: u128,
    other: IpAddr,
    accrue: A,
    spend: S,
    granted: bool,
)
    requires
        call_ensures(RateLimiter::check_at::<A, S>, (limiter, ip, now, accrue, spend), granted),
        other != ip,
    ensures
        final(limiter).bucket_capacity() == old(limiter).bucket_capacity(),
        final(limiter).bucket_rate() == old(limiter).bucket_rate(),
        final(limiter)@.contains_key(ip),
        is_consumed(
            old(limiter).bucket_of(ip, now),
            0x3ff0_0000_0000_0000,
            now,
            accrue,
            spend,
            final(limiter)@[ip],
            granted,
        ),
        final(limiter)@.contains_key(other) == old(limiter)@.contains_key(other),
        old(limiter)@.contains_key(other) ==> final(limiter)@[other] == old(limiter)@[other],
{
}

} // verus!
