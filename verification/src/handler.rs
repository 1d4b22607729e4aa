//! The course of one HTTP request through the proxy: admission, forwarding, and
//! retries on other backends.

use crate::addr::{IpAddr, SocketAddr};
use crate::config::ProxyConfig;
use crate::health::{BackendView, HealthStatus};
use crate::router::BackendStats;
use crate::text::same_text;
use crate::{health, proxy_l7};
use vstd::prelude::*;

verus! {

/// The status of a reply to a client that has used up its tokens.
pub const TOO_MANY_REQUESTS: u16 = 429;

/// The status of a reply when the connection to the last backend was lost.
pub const BAD_GATEWAY: u16 = 502;

/// The status of a reply when no backend is available.
pub const SERVICE_UNAVAILABLE: u16 = 503;

/// How far a request has come.
#[derive(Clone, Copy, Debug, PartialEq, Eq, Structural)]
pub enum Stage {
    /// The client has not been admitted.
    Arrived,
    /// A backend is to be picked.
    Picking,
    /// A backend has the request.
    Forwarded(SocketAddr),
    /// The client has its answer.
    Answered,
}

/// A request under way.
#[derive(Clone, Copy, Debug, PartialEq, Eq, Structural)]
pub struct Exchange {
    /// How far it has come.
    pub stage: Stage,
    /// How often it may still be tried again.
    pub retries_left: usize,
}

/// What happens to a request.
#[derive(Clone, Copy, Debug, PartialEq, Eq, Structural)]
pub enum ExchangeEvent {
    /// The client has a token, or is not limited.
    Admitted,
    /// The client has no token.
    RateLimited,
    /// A backend was picked.
    Picked(SocketAddr),
    /// No backend is available.
    NoneAvailable,
    /// The backend has answered with a status.
    Response(u16),
    /// The connection to the backend failed or was dropped.
    Lost,
}

/// What is done with a request.
#[derive(Clone, Copy, Debug, PartialEq, Eq, Structural)]
pub enum ExchangeAction {
    /// Pick a backend.
    Pick,
    /// Send the buffered request to a backend.
    Forward(SocketAddr),
    /// Hand the backend's response to the client.
    Relay,
    /// Reply to the client with a status of the proxy's own.
    Reply(u16),
    /// Nothing: the event does not belong to this stage.
    Ignore,
}

/// What is done, and which backend, if any, is to be marked dead.
#[derive(Clone, Copy, Debug, PartialEq, Eq, Structural)]
pub struct Decision {
    /// What is done with the request.
    pub action: ExchangeAction,
    /// The backend to mark dead.
    pub dead: Option<SocketAddr>,
}

/// Whether a status is that of a server error.
pub open spec fn is_server_error(status: u16) -> bool {
    500 <= status < 600
}

/// The request after a backend has failed it: it is tried again if that may be
/// done, and `otherwise` is the answer if not.
pub open spec fn after_failure(
    exchange: Exchange,
    otherwise: ExchangeAction,
    dead: Option<SocketAddr>,
) -> (Exchange, Decision) {
    if exchange.retries_left > 0 {
        (
            Exchange {
                stage: Stage::Picking,
                retries_left: (exchange.retries_left - 1) as usize,
            },
            Decision { action: ExchangeAction::Pick, dead },
        )
    } else {
        (
            Exchange { stage: Stage::Answered, ..exchange },
            Decision { action: otherwise, dead },
        )
    }
}

/// The request after an event, and what is done.
pub open spec fn step(exchange: Exchange, event: ExchangeEvent) -> (Exchange, Decision) {
    let at = |stage: Stage, action: ExchangeAction|
        (Exchange { stage, ..exchange }, Decision { action, dead: None });
    match (exchange.stage, event) {
        (Stage::Arrived, ExchangeEvent::Admitted) => at(Stage::Picking, ExchangeAction::Pick),
        (Stage::Arrived, ExchangeEvent::RateLimited) => at(
            Stage::Answered,
            ExchangeAction::Reply(TOO_MANY_REQUESTS),
        ),
        (Stage::Picking, ExchangeEvent::Picked(addr)) => at(
            Stage::Forwarded(addr),
            ExchangeAction::Forward(addr),
        ),
        (Stage::Picking, ExchangeEvent::NoneAvailable) => at(
            Stage::Answered,
            ExchangeAction::Reply(SERVICE_UNAVAILABLE),
        ),
        (Stage::Forwarded(addr), ExchangeEvent::Response(status)) => if is_server_error(status) {
            after_failure(
                exchange,
                ExchangeAction::Relay,
                if status == BAD_GATEWAY {
                    Some(addr)
                } else {
                    None
                },
            )
        } else {
            at(Stage::Answered, ExchangeAction::Relay)
        },
        (Stage::Forwarded(addr), ExchangeEvent::Lost) => after_failure(
            exchange,
            ExchangeAction::Reply(BAD_GATEWAY),
            Some(addr),
        ),
        _ => at(exchange.stage, ExchangeAction::Ignore),
    }
}

/// A request that has just arrived and may be tried again `max_retries` times.
pub open spec fn arrived(max_retries: usize) -> Exchange {
    Exchange { stage: Stage::Arrived, retries_left: max_retries }
}

/// The request after a number of events.
pub open spec fn run(exchange: Exchange, events: Seq<ExchangeEvent>) -> Exchange
    decreases events.len(),
{
    if events.len() == 0 {
        exchange
    } else {
        step(run(exchange, events.drop_last()), events.last()).0
    }
}

/// How often a request is sent to a backend in the course of some events.
pub open spec fn forwards(exchange: Exchange, events: Seq<ExchangeEvent>) -> nat
    decreases events.len(),
{
    if events.len() == 0 {
        0
    } else {
        forwards(exchange, events.drop_last()) + if step(
            run(exchange, events.drop_last()),
            events.last(),
        ).1.action is Forward {
            1nat
        } else {
            0nat
        }
    }
}

impl Exchange {
    /// A request that has just arrived.
    pub fn new(max_retries: usize) -> (r: Self)
        ensures
            r == arrived(max_retries),
    {
        Exchange { stage: Stage::Arrived, retries_left: max_retries }
    }

    fn go(&mut self, stage: Stage, action: ExchangeAction) -> (r: Decision)
        ensures
            *final(self) == (Exchange { stage, ..*old(self) }),
            r == (Decision { action, dead: None }),
    {
        self.stage = stage;
        Decision { action, dead: None }
    }

    fn fail(&mut self, otherwise: ExchangeAction, dead: Option<SocketAddr>) -> (r: Decision)
        ensures
            (*final(self), r) == after_failure(*old(self), otherwise, dead),
    {
        if self.retries_left > 0 {
            self.stage = Stage::Picking;
            self.retries_left = self.retries_left - 1;
            Decision { action: ExchangeAction::Pick, dead }
        } else {
            self.stage = Stage::Answered;
            Decision { action: otherwise, dead }
        }
    }

    /// Takes an event, and says what is done.
    pub fn on(&mut self, event: ExchangeEvent) -> (r: Decision)
        ensures
            (*final(self), r) == step(*old(self), event),
    {
        match (self.stage, event) {
            (Stage::Arrived, ExchangeEvent::Admitted) => self.go(
                Stage::Picking,
                ExchangeAction::Pick,
            ),
            (Stage::Arrived, ExchangeEvent::RateLimited) => self.go(
                Stage::Answered,
                ExchangeAction::Reply(TOO_MANY_REQUESTS),
            ),
            (Stage::Picking, ExchangeEvent::Picked(addr)) => self.go(
                Stage::Forwarded(addr),
                ExchangeAction::Forward(addr),
            ),
            (Stage::Picking, ExchangeEvent::NoneAvailable) => self.go(
                Stage::Answered,
                ExchangeAction::Reply(SERVICE_UNAVAILABLE),
            ),
            (Stage::Forwarded(addr), ExchangeEvent::Response(status)) => {
                if 500 <= status && status < 600 {
                    let dead = if status == BAD_GATEWAY {
                        Some(addr)
                    } else {
                        None
                    };
                    self.fail(ExchangeAction::Relay, dead)
                } else {
                    self.go(Stage::Answered, ExchangeAction::Relay)
                }
            },
            (Stage::Forwarded(addr), ExchangeEvent::Lost) => self.fail(
                ExchangeAction::Reply(BAD_GATEWAY),
                Some(addr),
            ),
            _ => Decision { action: ExchangeAction::Ignore, dead: None },
        }
    }
}

/// Whether a header, named in lower case, speaks of one connection only and is
/// not passed on.
pub open spec fn is_hop_by_hop(name: Seq<char>) -> bool {
    ||| name == "connection"@
    ||| name == "keep-alive"@
    ||| name == "proxy-authenticate"@
    ||| name == "proxy-authorization"@
    ||| name == "te"@
    ||| name == "trailer"@
    ||| name == "transfer-encoding"@
    ||| name == "upgrade"@
}

/// Whether a header, named in lower case, is not passed on.
pub fn is_stripped(name: &str) -> (r: bool)
    ensures
        r == is_hop_by_hop(name@),
{
    same_text(name, "connection") || same_text(name, "keep-alive") || same_text(
        name,
        "proxy-authenticate",
    ) || same_text(name, "proxy-authorization") || same_text(name, "te") || same_text(
        name,
        "trailer",
    ) || same_text(name, "transfer-encoding") || same_text(name, "upgrade")
}

/// A request is sent to backends at most once more than it may be tried again.
pub proof fn retries_are_bounded(max_retries: usize, events: Seq<ExchangeEvent>)
    ensures
        forwards(arrived(max_retries), events) <= max_retries + 1,
{
    forwards_are_counted(max_retries, events);
}

proof fn forwards_are_counted(max_retries: usize, events: Seq<ExchangeEvent>)
    ensures
        ({
            let now = run(arrived(max_retries), events);
            let sent = forwards(arrived(max_retries), events);
            &&& now.retries_left <= max_retries
            &&& match now.stage {
                Stage::Arrived => sent == 0 && now.retries_left == max_retries,
                Stage::Picking => sent == max_retries - now.retries_left,
                Stage::Forwarded(_) => sent == max_retries - now.retries_left + 1,
                Stage::Answered => sent <= max_retries - now.retries_left + 1,
            }
        }),
    decreases events.len(),
{
    if events.len() > 0 {
        forwards_are_counted(max_retries, events.drop_last());
    }
}

/// While a request may be tried again, no server error reaches the client: every
/// failure leads to another pick.
pub proof fn failures_are_retried_while_possible(
    exchange: Exchange,
    addr: SocketAddr,
    event: ExchangeEvent,
)
    requires
        exchange.stage == Stage::Forwarded(addr),
        exchange.retries_left > 0,
        event is Lost || (event matches ExchangeEvent::Response(status) && is_server_error(status)),
    ensures
        step(exchange, event).1.action == ExchangeAction::Pick,
        step(exchange, event).0.stage == Stage::Picking,
{
}

/// A backend that drops the connection or answers with a bad gateway is marked
/// dead, and no other event marks one.
pub proof fn failing_backend_is_marked_dead(exchange: Exchange, event: ExchangeEvent)
    ensures
        step(exchange, event).1.dead == (match (exchange.stage, event) {
            (Stage::Forwarded(addr), ExchangeEvent::Lost) => Some(addr),
            (Stage::Forwarded(addr), ExchangeEvent::Response(502)) => Some(addr),
            _ => None,
        }),
{
}

/// A request that a failing backend lost is tried again on another one: the failing
/// one is marked dead before the next is picked.
pub proof fn lost_request_goes_to_another_backend<F: Fn(usize, u64) -> u64>(
    exchange: Exchange,
    event: ExchangeEvent,
    failed: SocketAddr,
    config: ProxyConfig,
    client_ip: IpAddr,
    backends: Seq<BackendView>,
    stats: Map<SocketAddr, BackendStats>,
    cost: F,
    next: SocketAddr,
)
    requires
        step(exchange, event).1 == (Decision { action: ExchangeAction::Pick, dead: Some(failed) }),
        proxy_l7::is_l7_choice(
            config,
            client_ip,
            health::with_status(backends, failed, HealthStatus::Dead),
            stats,
            cost,
            Some(next),
        ),
    ensures
        exchange.stage == Stage::Forwarded(failed),
        next != failed,
{
    proxy_l7::dead_backend_gets_no_request(
        config,
        client_ip,
        backends,
        stats,
        cost,
        failed,
        Some(next),
    );
}

/// A client without tokens is refused, and its request reaches no backend.
pub proof fn limited_client_is_refused(max_retries: usize, later: Seq<ExchangeEvent>)
    ensures
        step(arrived(max_retries), ExchangeEvent::RateLimited).1.action == ExchangeAction::Reply(
            429,
        ),
        forwards(step(arrived(max_retries), ExchangeEvent::RateLimited).0, later) == 0,
{
    answered_is_final(step(arrived(max_retries), ExchangeEvent::RateLimited).0, later);
}

/// Once the client has its answer, nothing more is done.
pub proof fn answered_is_final(exchange: Exchange, later: Seq<ExchangeEvent>)
    requires
        exchange.stage == Stage::Answered,
    ensures
        run(exchange, later) == exchange,
        forwards(exchange, later) == 0,
    decreases later.len(),
{
    if later.len() > 0 {
        answered_is_final(exchange, later.drop_last());
    }
}

/// What becomes of a response: with a status from 500 to 599 the request is picked a
/// backend for again while it may be tried again, at the price of one retry; with any
/// other status, and when no retry is left, it is relayed and the request is answered.
pub proof fn response_is_retried_or_relayed(exchange: Exchange, addr: SocketAddr, status: u16)
    requires
        exchange.stage == Stage::Forwarded(addr),
    ensures
        500 <= status <= 599 && exchange.retries_left > 0 ==> {
            let (after, decision) = step(exchange, ExchangeEvent::Response(status));
            &&& decision.action == ExchangeAction::Pick
            &&& after.stage == Stage::Picking
            &&& after.retries_left == exchange.retries_left - 1
        },
        !(500 <= status <= 599) || exchange.retries_left == 0 ==> {
            let (after, decision) = step(exchange, ExchangeEvent::Response(status));
            &&& decision.action == ExchangeAction::Relay
            &&& after.stage == Stage::Answered
            &&& after.retries_left == exchange.retries_left
        },
        step(exchange, ExchangeEvent::Response(status)).1.dead == if status == 502 {
            Some(addr)
        } else {
            None
        },
{
}

/// What becomes of a lost connection: the backend is marked dead, and the request is
/// picked a backend for again while it may be tried again, at the price of one retry; when
/// no retry is left the client is told of a bad gateway.
pub proof fn lost_connection_is_retried_or_reported(exchange: Exchange, addr: SocketAddr)
    requires
        exchange.stage == Stage::Forwarded(addr),
    ensures
        ({
            let (after, decision) = step(exchange, ExchangeEvent::Lost);
            &&& decision.dead == Some(addr)
            &&& exchange.retries_left > 0 ==> decision.action == ExchangeAction::Pick && after.stage
                == Stage::Picking && after.retries_left == exchange.retries_left - 1
            &&& exchange.retries_left == 0 ==> decision.action == ExchangeAction::Reply(502)
                && after.stage == Stage::Answered
        }),
{
}

/// A permitted request is picked a backend for, and sent to the one that was picked; where
/// there is none, the client is told that the service is unavailable. No retry is spent on
/// that.
pub proof fn picked_backend_gets_the_request(exchange: Exchange, addr: SocketAddr)
    ensures
        exchange.stage == Stage::Arrived ==> step(exchange, ExchangeEvent::Admitted) == (
            Exchange { stage: Stage::Picking, retries_left: exchange.retries_left },
            Decision { action: ExchangeAction::Pick, dead: None },
        ),
        exchange.stage == Stage::Picking ==> step(exchange, ExchangeEvent::Picked(addr)) == (
            Exchange { stage: Stage::Forwarded(addr), retries_left: exchange.retries_left },
            Decision { action: ExchangeAction::Forward(addr), dead: None },
        ),
        exchange.stage == Stage::Picking ==> step(exchange, ExchangeEvent::NoneAvailable) == (
            Exchange { stage: Stage::Answered, retries_left: exchange.retries_left },
            Decision { action: ExchangeAction::Reply(503), dead: None },
        ),
        exchange.stage == Stage::Arrived ==> step(exchange, ExchangeEvent::RateLimited) == (
            Exchange { stage: Stage::Answered, retries_left: exchange.retries_left },
            Decision { action: ExchangeAction::Reply(429), dead: None },
        ),
{
}

/// An event that does not belong to the stage of a request changes nothing: a request is
/// admitted once, forwarded only when a backend is picked, and answered for a backend only
/// while that has it.
pub proof fn stray_event_changes_nothing(exchange: Exchange, event: ExchangeEvent)
    requires
        event is Admitted || event is RateLimited ==> exchange.stage != Stage::Arrived,
        event is Picked || event is NoneAvailable ==> exchange.stage != Stage::Picking,
        event is Response || event is Lost ==> !(exchange.stage is Forwarded),
    ensures
        step(exchange, event) == (
            exchange,
            Decision { action: ExchangeAction::Ignore, dead: None },
        ),
{
}

/// Every retry is used before a failure reaches the client: a request whose backends all
/// answer with errors from 500 to 599, or drop the connection, is sent `max_retries + 1`
/// times, and is answered after the last of them and not before.
pub proof fn every_retry_is_used(
    max_retries: usize,
    backends: Seq<SocketAddr>,
    failures: Seq<ExchangeEvent>,
    k: int,
)
    requires
        0 <= k <= max_retries + 1,
        backends.len() == max_retries + 1,
        failures.len() == max_retries + 1,
        forall|i: int|
            0 <= i < failures.len() ==> ((#[trigger] failures[i]) is Lost || (
            failures[i] matches ExchangeEvent::Response(status) && 500 <= status <= 599)),
    ensures
        forwards(arrived(max_retries), failing_course(backends, failures, k)) == k,
        (run(arrived(max_retries), failing_course(backends, failures, k)).stage
            == Stage::Answered) <==> k == max_retries + 1,
        k <= max_retries ==> run(arrived(max_retries), failing_course(backends, failures, k)) == (
        Exchange { stage: Stage::Picking, retries_left: (max_retries - k) as usize }),
    decreases k,
{
    let course = failing_course(backends, failures, k);
    let start = arrived(max_retries);
    if k == 0 {
        assert(course.drop_last() =~= Seq::empty());
        assert(run(start, course.drop_last()) == start);
        assert(forwards(start, course.drop_last()) == 0);
    } else {
        every_retry_is_used(max_retries, backends, failures, k - 1);
        let before = failing_course(backends, failures, k - 1);
        let sent = before.push(ExchangeEvent::Picked(backends[k - 1]));
        assert(course.drop_last() =~= sent);
        assert(sent.drop_last() =~= before);
        assert(course.last() == failures[k - 1]);
        assert(run(start, sent).stage == Stage::Forwarded(backends[k - 1]));
        assert(run(start, sent).retries_left == max_retries - (k - 1));
        assert(forwards(start, sent) == k);
    }
}

/// The events of a request that is admitted and then fails at `k` backends in turn.
pub open spec fn failing_course(
    backends: Seq<SocketAddr>,
    failures: Seq<ExchangeEvent>,
    k: int,
) -> Seq<ExchangeEvent>
    decreases k,
{
    if k <= 0 {
        seq![ExchangeEvent::Admitted]
    } else {
        failing_course(backends, failures, k - 1).push(
            ExchangeEvent::Picked(backends[k - 1]),
        ).push(failures[k - 1])
    }
}

/// The headers that are not passed on are these eight, and no others.
pub proof fn eight_headers_are_stripped(name: Seq<char>)
    ensures
        is_hop_by_hop(name) <==> seq![
            "connection"@,
            "keep-alive"@,
            "proxy-authenticate"@,
            "proxy-authorization"@,
            "te"@,
            "trailer"@,
            "transfer-encoding"@,
            "upgrade"@,
        ].contains(name),
{
    let names = seq![
        "connection"@,
        "keep-alive"@,
        "proxy-authenticate"@,
        "proxy-authorization"@,
        "te"@,
        "trailer"@,
        "transfer-encoding"@,
        "upgrade"@,
    ];
    assert(names[0] == "connection"@ && names[1] == "keep-alive"@ && names[2]
        == "proxy-authenticate"@ && names[3] == "proxy-authorization"@ && names[4] == "te"@
        && names[5] == "trailer"@ && names[6] == "transfer-encoding"@ && names[7] == "upgrade"@);
}

/// What a request in the hands of a backend makes of a response: one with a status from 500
/// to 599 is tried again with one retry less while there are any; any other is relayed, and
/// the request is answered. A bad gateway marks its backend dead, and nothing else does.
pub proof fn response_decides(
    exchange: &mut Exchange,
    addr: SocketAddr,
    status: u16,
    decision: Decision,
)
    requires
        call_ensures(Exchange::on, (exchange, ExchangeEvent::Response(status)), decision),
        old(exchange).stage == Stage::Forwarded(addr),
    ensures
        500 <= status <= 599 && old(exchange).retries_left > 0 ==> decision.action
            == ExchangeAction::Pick && final(exchange).stage == Stage::Picking && final(exchange).retries_left == old(exchange).retries_left - 1,
        !(500 <= status <= 599) || old(exchange).retries_left == 0 ==> decision.action
            == ExchangeAction::Relay && final(exchange).stage == Stage::Answered,
        decision.dead == if status == 502 {
            Some(addr)
        } else {
            None
        },
{
}

/// A request follows its course one event at a time, from its arrival on.
pub proof fn exchange_follows_its_course(
    exchange: &mut Exchange,
    event: ExchangeEvent,
    decision: Decision,
    max_retries: usize,
    fresh: Exchange,
)
    requires
        call_ensures(Exchange::on, (exchange, event), decision),
        call_ensures(Exchange::new, (max_retries,), fresh),
    ensures
        (*final(exchange), decision) == step(*old(exchange), event),
        fresh.stage == Stage::Arrived,
        fresh.retries_left == max_retries,
{
}

/// A header is stripped exactly if it is one of the eight.
pub proof fn stripped_headers_are_the_eight(name: &str, stripped: bool)
    requires
        call_ensures(is_stripped, (name,), stripped),
    ensures
        stripped <==> seq![
            "connection"@,
            "keep-alive"@,
            "proxy-authenticate"@,
            "proxy-authorization"@,
            "te"@,
            "trailer"@,
            "transfer-encoding"@,
            "upgrade"@,
        ].contains(name@),
{
    eight_headers_are_stripped(name@);
}

} // verus!
