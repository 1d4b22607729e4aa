//! The clocks: the time of day in milliseconds, and a monotonic count of
//! nanoseconds.

use std::time::{Duration, Instant, SystemTime, UNIX_EPOCH};
use vstd::prelude::*;

verus! {

/// A reading of the system clock; the library only carries it.
#[verifier::external_type_specification]
#[verifier::external_body]
pub struct ExSystemTime(SystemTime);

/// A reading of the monotonic clock; the library only carries it.
#[verifier::external_type_specification]
#[verifier::external_body]
pub struct ExInstant(Instant);

/// The system clock is set before the Unix epoch.
#[derive(Clone, Copy, Debug, PartialEq, Eq, Structural)]
pub struct ClockError;

/// `SystemTime::now`: the present reading of the system clock, of which nothing
/// is known beforehand.
#[verifier::external_body]
fn system_now() -> (r: SystemTime) {
    SystemTime::now()
}

/// `SystemTime::duration_since` the Unix epoch; `None` for a reading before the
/// epoch. Nothing is stated of the duration: a reading is opaque.
#[verifier::external_body]
fn since_epoch(now: SystemTime) -> (r: Option<Duration>) {
    match now.duration_since(UNIX_EPOCH) {
        Ok(elapsed) => Some(elapsed),
        Err(_) => None,
    }
}

/// `Instant::now`: the present reading of the monotonic clock.
#[verifier::external_body]
fn instant_now() -> (r: Instant) {
    Instant::now()
}

/// `Instant::elapsed`: the time since `origin`. Nothing is stated of it: it rests on
/// when the call is made.
#[verifier::external_body]
fn since(origin: &Instant) -> (r: Duration) {
    origin.elapsed()
}

/// `Duration::as_nanos`: the whole nanoseconds in a duration. Nothing is stated of
/// the number: a duration is opaque.
#[verifier::external_body]
fn whole_nanos(elapsed: &Duration) -> (r: u128) {
    elapsed.as_nanos()
}

/// How many nanoseconds a millisecond has.
pub const NANOS_PER_MILLI: u128 = 1_000_000;

/// The timestamp for what the system clock says, in nanoseconds since the Unix epoch:
/// the whole milliseconds of them, in the lowest 64 bits, or an error before the epoch.
pub open spec fn timestamp_result(since_epoch: Option<u128>) -> Result<u64, ClockError> {
    match since_epoch {
        Some(nanos) => Ok(((nanos / NANOS_PER_MILLI) % 0x1_0000_0000_0000_0000u128) as u64),
        None => Err(ClockError),
    }
}

/// The timestamp for what the system clock says, in nanoseconds since the Unix epoch:
/// the whole milliseconds of them, or an error where the clock is set before the epoch.
pub fn timestamp(since_epoch: Option<u128>) -> (r: Result<u64, ClockError>)
    ensures
        r == timestamp_result(since_epoch),
{
    match since_epoch {
        Some(nanos) => {
            let ms: u128 = nanos / NANOS_PER_MILLI;
            let low: u64 = #[verifier::truncate] (ms as u64);
            assert(low == ms % 0x1_0000_0000_0000_0000u128) by (bit_vector)
                requires
                    low == ms as u64,
            ;
            Ok(low)
        },
        None => Err(ClockError),
    }
}

/// `now` is a reading that the system clock gave when it was asked.
pub closed spec fn is_read(now: SystemTime) -> bool {
    call_ensures(system_now, (), now)
}

/// `elapsed` is the time from the Unix epoch to `now`, as it was worked out; `None` for a
/// reading before the epoch.
pub closed spec fn is_since_epoch(now: SystemTime, elapsed: Option<Duration>) -> bool {
    call_ensures(since_epoch, (now,), elapsed)
}

/// `nanos` is the number of nanoseconds in `elapsed`, as it was worked out.
pub closed spec fn is_nanos_of(elapsed: Duration, nanos: u128) -> bool {
    call_ensures(whole_nanos, (&elapsed,), nanos)
}

/// `result` is the timestamp of a reading of the system clock: the clock was asked, and
/// what it gave was turned into milliseconds since the Unix epoch, or into an error
/// because it lies before the epoch.
pub open spec fn shows(result: Result<u64, ClockError>) -> bool {
    exists|now: SystemTime, elapsed: Option<Duration>| #[trigger]
        is_since_epoch(now, elapsed) && is_read(now) && match elapsed {
            Some(elapsed) => exists|nanos: u128| #[trigger]
                is_nanos_of(elapsed, nanos) && result == timestamp_result(Some(nanos)),
            None => result == timestamp_result(None),
        }
}

/// Calls `f`; the result is one that `f` gave.
fn ask<R, F: Fn() -> R>(f: F) -> (r: R)
    requires
        f.requires(()),
    ensures
        f.ensures((), r),
{
    f()
}

/// Calls `f` on `x`; the result is one that `f` gave for `x`.
fn ask_of<T, R, F: Fn(T) -> R>(f: F, x: T) -> (r: R)
    requires
        f.requires((x,)),
    ensures
        f.ensures((x,), r),
{
    f(x)
}

/// The current time in milliseconds since the Unix epoch, or an error where the
/// system clock is set before the epoch. What the clock says is not known
/// beforehand; `timestamp` states what is made of it.
pub fn current_time_ms() -> (r: Result<u64, ClockError>)
    ensures
        shows(r),
        exists|since_epoch: Option<u128>| r == #[trigger] timestamp_result(since_epoch),
{
    let now = ask(system_now);
    let elapsed = ask_of(since_epoch, now);
    assert(is_since_epoch(now, elapsed) && is_read(now));
    match elapsed {
        Some(elapsed) => {
            let nanos: u128 = ask_of(whole_nanos, &elapsed);
            assert(is_nanos_of(elapsed, nanos));
            timestamp(Some(nanos))
        },
        None => timestamp(None),
    }
}

/// A monotonic clock that counts nanoseconds from its start. No reading is below
/// the one before it.
pub(crate) struct MonotonicClock {
    origin: Instant,
    last: u128,
}

/// `origin` is a reading that the monotonic clock gave when it was asked.
pub closed spec fn is_instant(origin: Instant) -> bool {
    call_ensures(instant_now, (), origin)
}

/// `nanos` nanoseconds had passed since `origin` when the monotonic clock was asked.
pub closed spec fn has_passed(origin: Instant, nanos: u128) -> bool {
    exists|elapsed: Duration| #[trigger]
        call_ensures(since, (&origin,), elapsed) && is_nanos_of(elapsed, nanos)
}

impl MonotonicClock {
    /// The last reading; zero before the first.
    pub(crate) closed spec fn latest(&self) -> u128 {
        self.last
    }

    /// When the clock was started.
    pub(crate) closed spec fn origin(&self) -> Instant {
        self.origin
    }

    /// Starts a clock at zero.
    pub(crate) fn start() -> (r: Self)
        ensures
            r.latest() == 0,
            is_instant(r.origin()),
    {
        MonotonicClock { origin: ask(instant_now), last: 0 }
    }

    /// Reads the clock: the nanoseconds since it was started, never fewer than at
    /// the last reading. How many have passed is not known beforehand.
    pub(crate) fn nanos(&mut self) -> (r: u128)
        ensures
            r >= old(self).latest(),
            final(self).latest() == r,
            final(self).origin() == old(self).origin(),
            exists|nanos: u128| #[trigger]
                has_passed(old(self).origin(), nanos) && r >= nanos && (r == nanos || r == old(
                    self,
                ).latest()),
    {
        let elapsed = ask_of(since, &self.origin);
        let passed: u128 = ask_of(whole_nanos, &elapsed);
        assert(has_passed(old(self).origin(), passed));
        if passed > self.last {
            self.last = passed;
        }
        self.last
    }
}

/// A timestamp is the number of whole milliseconds from the Unix epoch to a reading of
/// the system clock, and the error comes of a reading before the epoch and of no other.
pub proof fn timestamp_is_read_off_the_clock(result: Result<u64, ClockError>)
    requires
        shows(result),
    ensures
        result matches Ok(ms) ==> exists|now: SystemTime, elapsed: Duration, nanos: u128|
            #![trigger is_since_epoch(now, Some(elapsed)), is_nanos_of(elapsed, nanos)]
            is_read(now) && is_since_epoch(now, Some(elapsed)) && is_nanos_of(elapsed, nanos)
                && ms as int == (nanos as int / 1_000_000) % 0x1_0000_0000_0000_0000,
        result is Err ==> exists|now: SystemTime|
            #[trigger] is_since_epoch(now, None) && is_read(now),
{
}

/// A timestamp counts whole milliseconds: any part of one that has begun is left out.
pub proof fn timestamp_counts_milliseconds(ms: u64, part: u128)
    requires
        part < 1_000_000,
    ensures
        timestamp_result(Some((ms as u128 * 1_000_000 + part) as u128)) == Ok::<u64, ClockError>(
            ms,
        ),
        timestamp_result(None) == Err::<u64, ClockError>(ClockError),
{
    let nanos = (ms as u128 * 1_000_000 + part) as u128;
    assert(nanos == ms * 1_000_000 + part);
    assert(nanos / 1_000_000 == ms);
}

/// The current time is the timestamp of a reading of the system clock, taken when it is
/// asked for.
pub proof fn current_time_is_read_off_the_clock(r: Result<u64, ClockError>)
    requires
        call_ensures(current_time_ms, (), r),
    ensures
        shows(r),
        r matches Ok(ms) ==> exists|now: SystemTime, elapsed: Duration, nanos: u128|
            #![trigger is_since_epoch(now, Some(elapsed)), is_nanos_of(elapsed, nanos)]
            is_read(now) && is_since_epoch(now, Some(elapsed)) && is_nanos_of(elapsed, nanos)
                && ms as int == (nanos as int / 1_000_000) % 0x1_0000_0000_0000_0000,
        r is Err ==> exists|now: SystemTime| #[trigger] is_since_epoch(now, None) && is_read(now),
{
    timestamp_is_read_off_the_clock(r);
}

/// A timestamp made of nanoseconds counts the whole milliseconds in them.
pub proof fn timestamp_is_made_of_nanoseconds(nanos: u128, r: Result<u64, ClockError>)
    requires
        call_ensures(timestamp, (Some(nanos),), r),
        nanos / 1_000_000 <= u64::MAX,
    ensures
        r is Ok,
        r->Ok_0 * 1_000_000 <= nanos < (r->Ok_0 + 1) * 1_000_000,
{
}

/// What counts as a reading was given by the clock itself: only a call of `SystemTime::now`
/// gives a time, only its distance from the epoch is turned into a timestamp, and only a
/// call of `Instant::now` starts the count of nanoseconds that `Instant::elapsed` goes on
/// with.
proof fn readings_are_given_by_the_clock(
    now: SystemTime,
    elapsed: Option<Duration>,
    length: Duration,
    origin: Instant,
    nanos: u128,
)
    ensures
        is_read(now) ==> call_ensures(system_now, (), now),
        is_since_epoch(now, elapsed) ==> call_ensures(since_epoch, (now,), elapsed),
        is_nanos_of(length, nanos) ==> call_ensures(whole_nanos, (&length,), nanos),
        is_instant(origin) ==> call_ensures(instant_now, (), origin),
        has_passed(origin, nanos) ==> exists|length: Duration| #[trigger]
            call_ensures(since, (&origin,), length) && call_ensures(
                whole_nanos,
                (&length,),
                nanos,
            ),
{
}

} // verus!
