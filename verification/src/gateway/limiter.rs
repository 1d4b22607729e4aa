//! The rate limit that all gateways share, counted in a common store.

use vstd::prelude::*;
use vstd::string::StringExecFns;

verus! {

/// Where the common store is reached.
pub const STORE_URL: &'static str = "redis://127.0.0.1:6379/";

/// What the keys of the counters begin with.
pub const KEY_PREFIX: &'static str = "rate_limit:";

/// How much a request adds to its counter.
pub const STEP: u64 = 1;

/// How long a counter lives, in seconds.
pub const WINDOW_SECS: u64 = 60;

/// The key of the counter of the client with the address `ip`.
pub open spec fn key_of(ip: Seq<char>) -> Seq<char> {
    KEY_PREFIX@ + ip
}

/// How far the question whether a client is blocked has come.
#[derive(Clone, Copy, Debug, PartialEq, Eq, Structural)]
pub enum Stage {
    /// Waiting for a connection to the store.
    Connecting,
    /// Waiting for the counter.
    Counting,
    /// Waiting for the lifetime of the counter to be set.
    Expiring { count: u64 },
    /// Answered.
    Answered,
}

/// What the store did.
#[derive(Clone, Copy, Debug, PartialEq, Eq, Structural)]
pub enum StoreEvent {
    /// There is a connection.
    Connected,
    /// The counter was raised, to this value.
    Counted { count: u64 },
    /// The lifetime was set, or the attempt failed.
    ExpirySettled,
    /// There is no connection, or the counter could not be raised.
    Failed,
}

/// What is to be done next.
#[derive(Clone, Copy, Debug, PartialEq, Eq, Structural)]
pub enum Action {
    /// Raise the counter by `STEP`.
    Count,
    /// Let the counter expire after `WINDOW_SECS`.
    Expire,
    /// Answer whether the client is blocked.
    Answer { blocked: bool },
    /// Nothing.
    Wait,
}

/// The next stage, and what is to be done. Where the store fails, the client is not
/// blocked.
pub open spec fn step(max_requests: u64, stage: Stage, event: StoreEvent) -> (Stage, Action) {
    match (stage, event) {
        (Stage::Connecting, StoreEvent::Connected) => (Stage::Counting, Action::Count),
        (Stage::Counting, StoreEvent::Counted { count }) => if count == 1 {
            (Stage::Expiring { count }, Action::Expire)
        } else {
            (Stage::Answered, Action::Answer { blocked: count > max_requests })
        },
        (Stage::Expiring { count }, StoreEvent::ExpirySettled) => (
            Stage::Answered,
            Action::Answer { blocked: count > max_requests },
        ),
        (Stage::Connecting, StoreEvent::Failed) => (
            Stage::Answered,
            Action::Answer { blocked: false },
        ),
        (Stage::Counting, StoreEvent::Failed) => (
            Stage::Answered,
            Action::Answer { blocked: false },
        ),
        _ => (stage, Action::Wait),
    }
}

/// The limit on the requests of one client.
pub struct RateLimiter {
    max_requests: u64,
}

impl RateLimiter {
    /// How many requests are allowed while a counter lives.
    pub closed spec fn limit(&self) -> u64 {
        self.max_requests
    }

    /// A limit of `max_requests`.
    pub fn new(max_requests: u64) -> (r: RateLimiter)
        ensures
            r.limit() == max_requests,
    {
        RateLimiter { max_requests }
    }

    /// The key of the counter of the client with the address `ip`.
    pub fn key(&self, ip: &str) -> (r: String)
        ensures
            r@ == key_of(ip@),
    {
        let mut r = KEY_PREFIX.to_owned();
        r.append(ip);
        r
    }

    /// Decides whether a client is blocked, one event of the store after the other.
    /// The question begins at `Stage::Connecting`.
    pub fn is_blocked(&self, stage: Stage, event: StoreEvent) -> (r: (Stage, Action))
        ensures
            r == step(self.limit(), stage, event),
    {
        match (stage, event) {
            (Stage::Connecting, StoreEvent::Connected) => (Stage::Counting, Action::Count),
            (Stage::Counting, StoreEvent::Counted { count }) => if count == 1 {
                (Stage::Expiring { count }, Action::Expire)
            } else {
                (Stage::Answered, Action::Answer { blocked: count > self.max_requests })
            },
            (Stage::Expiring { count }, StoreEvent::ExpirySettled) => (
                Stage::Answered,
                Action::Answer { blocked: count > self.max_requests },
            ),
            (Stage::Connecting, StoreEvent::Failed) => (
                Stage::Answered,
                Action::Answer { blocked: false },
            ),
            (Stage::Counting, StoreEvent::Failed) => (
                Stage::Answered,
                Action::Answer { blocked: false },
            ),
            _ => (stage, Action::Wait),
        }
    }
}

/// The stage after `events`.
pub open spec fn stage_after(max_requests: u64, events: Seq<StoreEvent>) -> Stage
    decreases events.len(),
{
    if events.len() == 0 {
        Stage::Connecting
    } else {
        step(max_requests, stage_after(max_requests, events.drop_last()), events.last()).0
    }
}

/// The counter, if it has been read in the course of `events`.
pub open spec fn count_read(max_requests: u64, events: Seq<StoreEvent>) -> Option<u64>
    decreases events.len(),
{
    if events.len() == 0 {
        None
    } else {
        match (stage_after(max_requests, events.drop_last()), events.last()) {
            (Stage::Counting, StoreEvent::Counted { count }) => Some(count),
            _ => count_read(max_requests, events.drop_last()),
        }
    }
}

/// A client is blocked exactly if its counter was read and is above the limit: a
/// store that fails blocks nobody.
pub proof fn blocked_means_over_the_limit(
    max_requests: u64,
    events: Seq<StoreEvent>,
    event: StoreEvent,
)
    ensures
        ({
            let asked = events.push(event);
            let action = step(max_requests, stage_after(max_requests, events), event).1;
            action matches Action::Answer { blocked } ==> (blocked <==> (count_read(
                max_requests,
                asked,
            ) matches Some(count) && count > max_requests))
        }),
{
    let asked = events.push(event);
    assert(asked.drop_last() =~= events);
    count_belongs_to_stage(max_requests, events);
}

proof fn count_belongs_to_stage(max_requests: u64, events: Seq<StoreEvent>)
    ensures
        match stage_after(max_requests, events) {
            Stage::Connecting => count_read(max_requests, events) is None,
            Stage::Counting => count_read(max_requests, events) is None,
            Stage::Expiring { count } => count_read(max_requests, events) == Some(count),
            Stage::Answered => true,
        },
    decreases events.len(),
{
    if events.len() > 0 {
        count_belongs_to_stage(max_requests, events.drop_last());
    }
}

/// A counter is given its lifetime exactly when it has just been created.
pub proof fn first_request_starts_the_window(max_requests: u64, stage: Stage, event: StoreEvent)
    ensures
        step(max_requests, stage, event).1 == Action::Expire <==> stage == Stage::Counting
            && event == (StoreEvent::Counted { count: 1 }),
{
}

/// The question is answered once: nothing is done after the answer.
pub proof fn answer_is_final(max_requests: u64, event: StoreEvent)
    ensures
        step(max_requests, Stage::Answered, event) == (Stage::Answered, Action::Wait),
{
}

/// Each client is counted under a key of its own, which ends with its address.
pub proof fn clients_are_counted_apart(a: Seq<char>, b: Seq<char>)
    ensures
        key_of(a) == key_of(b) <==> a == b,
        key_of(a).len() == a.len() + 11,
        key_of(a).skip(11) == a,
        key_of(a).take(11) == "rate_limit:"@,
{
    reveal_strlit("rate_limit:");
    assert("rate_limit:"@.len() == 11);
    assert(key_of(a).skip(11) =~= a);
    assert(key_of(b).skip(11) =~= b);
    assert(key_of(a).take(11) =~= "rate_limit:"@);
}

/// A connection leads to a count, and a count to an answer: at once, or once the counter
/// of a first request has its lifetime. The client is blocked exactly if the count is above
/// the limit; where the store fails before there is a count, it is not blocked.
pub proof fn count_leads_to_an_answer(max_requests: u64, count: u64)
    ensures
        step(max_requests, Stage::Connecting, StoreEvent::Connected) == (
            Stage::Counting,
            Action::Count,
        ),
        count != 1 ==> step(max_requests, Stage::Counting, StoreEvent::Counted { count }) == (
            Stage::Answered,
            Action::Answer { blocked: !(count <= max_requests) },
        ),
        count == 1 ==> step(max_requests, Stage::Counting, StoreEvent::Counted { count }).1
            == Action::Expire,
        count == 1 ==> step(
            max_requests,
            step(max_requests, Stage::Counting, StoreEvent::Counted { count }).0,
            StoreEvent::ExpirySettled,
        ) == (Stage::Answered, Action::Answer { blocked: max_requests == 0 }),
        step(max_requests, Stage::Connecting, StoreEvent::Failed) == (
            Stage::Answered,
            Action::Answer { blocked: false },
        ),
        step(max_requests, Stage::Counting, StoreEvent::Failed) == (
            Stage::Answered,
            Action::Answer { blocked: false },
        ),
{
}

/// Within a window the first `max_requests` requests of a client pass and all further ones
/// are blocked: the counter goes up by one with each.
pub proof fn requests_pass_up_to_the_limit(max_requests: u64, nth: u64)
    requires
        nth >= 1,
    ensures
        ({
            let events = if nth == 1 {
                seq![
                    StoreEvent::Connected,
                    StoreEvent::Counted { count: nth },
                    StoreEvent::ExpirySettled,
                ]
            } else {
                seq![StoreEvent::Connected, StoreEvent::Counted { count: nth }]
            };
            let stage = stage_after(max_requests, events.drop_last());
            step(max_requests, stage, events.last()).1 == (Action::Answer {
                blocked: nth > max_requests,
            })
        }),
{
    let two = seq![StoreEvent::Connected, StoreEvent::Counted { count: nth }];
    let one = seq![StoreEvent::Connected];
    assert(one.drop_last() =~= Seq::empty());
    assert(stage_after(max_requests, one.drop_last()) == Stage::Connecting);
    assert(stage_after(max_requests, one) == Stage::Counting);
    assert(two.drop_last() =~= one);
    if nth == 1 {
        let three = seq![
            StoreEvent::Connected,
            StoreEvent::Counted { count: nth },
            StoreEvent::ExpirySettled,
        ];
        assert(three.drop_last() =~= two);
        assert(stage_after(max_requests, two) == (Stage::Expiring { count: nth }));
    }
}

/// The limiter goes by the limit that it was made with, and by the key of the client.
pub proof fn limiter_goes_by_its_limit(
    max_requests: u64,
    limiter: RateLimiter,
    stage: Stage,
    event: StoreEvent,
    answer: (Stage, Action),
    ip: &str,
    key: String,
)
    requires
        call_ensures(RateLimiter::new, (max_requests,), limiter),
        call_ensures(RateLimiter::is_blocked, (&limiter, stage, event), answer),
        call_ensures(RateLimiter::key, (&limiter, ip), key),
    ensures
        answer == step(max_requests, stage, event),
        key@ == "rate_limit:"@ + ip@,
{
}

/// An event that does not belong to the stage of the question changes nothing.
pub proof fn stray_event_is_passed_over(max_requests: u64, stage: Stage, event: StoreEvent)
    requires
        event is Connected ==> stage != Stage::Connecting,
        event is Counted ==> stage != Stage::Counting,
        event is ExpirySettled ==> !(stage is Expiring),
        event is Failed ==> stage != Stage::Connecting && stage != Stage::Counting,
    ensures
        step(max_requests, stage, event) == (stage, Action::Wait),
{
}

} // verus!
