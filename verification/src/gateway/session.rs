//! The course of one client connection: the handshake, the rate limit, the choice of
//! a backend, and the exchange of bytes.

use crate::text;
use vstd::prelude::*;

verus! {

/// How long a connection to a backend may take, in seconds.
pub const CONNECT_TIMEOUT_SECS: u64 = 3;

/// How long the exchange of bytes may take, in seconds.
pub const EXCHANGE_TIMEOUT_SECS: u64 = 30;

/// How much of a request is read before it is turned away, in bytes. A request
/// that is left unread would reset the connection before the reply arrives.
pub const DRAIN_BYTES: usize = 1024;

/// How long to wait between two rounds of probes, in seconds.
pub const PROBE_INTERVAL_SECS: u64 = 5;

/// How long a probe may take, in seconds.
pub const PROBE_TIMEOUT_SECS: u64 = 1;

/// The port of the metrics.
pub const METRICS_PORT: u16 = 9090;

/// The file with the certificates.
pub const CERT_FILE: &'static str = "cert.pem";

/// The file with the private key.
pub const KEY_FILE: &'static str = "key.pem";

/// A reply of the gateway's own.
#[derive(Clone, Copy, Debug, PartialEq, Eq, Structural)]
pub enum Reply {
    /// The client made too many requests.
    RateLimited,
    /// No backend is healthy.
    NoBackend,
    /// The exchange took too long.
    BackendHung,
    /// The backend took too long to take the connection.
    ConnectTimedOut,
}

/// The status line of a reply, without the protocol.
pub open spec fn status_of(reply: Reply) -> Seq<char> {
    match reply {
        Reply::RateLimited => "429 Too Many Requests"@,
        Reply::NoBackend => "503 Service Unavailable"@,
        Reply::BackendHung => "504 Gateway Timeout"@,
        Reply::ConnectTimedOut => "504 Gateway Timeout"@,
    }
}

/// The body of a reply.
pub open spec fn body_of(reply: Reply) -> Seq<char> {
    match reply {
        Reply::RateLimited => "Rate Limit Exceeded. Slow Down!!"@,
        Reply::NoBackend => "All backend servers are down."@,
        Reply::BackendHung => "The server took too long to respond."@,
        Reply::ConnectTimedOut => "Connection timed out."@,
    }
}

/// The headers of a reply. All but one of the replies close the connection and give
/// the length of their body.
pub open spec fn headers_of(reply: Reply) -> Seq<char> {
    match reply {
        Reply::ConnectTimedOut => Seq::empty(),
        _ => "Connection: close\r\nContent-Length: "@ + text::decimal(body_of(reply).len())
            + "\r\n"@,
    }
}

/// The whole reply.
pub open spec fn reply_text(reply: Reply) -> Seq<char> {
    "HTTP/1.1 "@ + status_of(reply) + "\r\n"@ + headers_of(reply) + "\r\n"@ + body_of(reply)
}

proof fn two_digits(n: nat)
    requires
        10 <= n < 100,
    ensures
        text::decimal(n) == seq![text::digit(n / 10), text::digit(n % 10)],
{
    assert(text::decimal(n / 10) == seq![text::digit(n / 10)]);
    assert(text::decimal(n) == text::decimal(n / 10).push(text::digit(n % 10)));
}

impl Reply {
    /// The whole reply, as it is sent.
    pub fn text(&self) -> (r: &'static str)
        ensures
            r@ == reply_text(*self),
    {
        proof {
            reveal_strlit("HTTP/1.1 ");
            reveal_strlit("\r\n");
            reveal_strlit("Connection: close\r\nContent-Length: ");
        }
        match self {
            Reply::RateLimited => {
                let r = "HTTP/1.1 429 Too Many Requests\r\nConnection: close\r\nContent-Length: 32\r\n\r\nRate Limit Exceeded. Slow Down!!";
                proof {
                    reveal_strlit("429 Too Many Requests");
                    reveal_strlit("Rate Limit Exceeded. Slow Down!!");
                    reveal_strlit("HTTP/1.1 429 Too Many Requests\r\nConnection: close\r\nContent-Length: 32\r\n\r\nRate Limit Exceeded. Slow Down!!");
                    two_digits(32);
                    assert(r@ =~= reply_text(*self));
                }
                r
            },
            Reply::NoBackend => {
                let r = "HTTP/1.1 503 Service Unavailable\r\nConnection: close\r\nContent-Length: 29\r\n\r\nAll backend servers are down.";
                proof {
                    reveal_strlit("503 Service Unavailable");
                    reveal_strlit("All backend servers are down.");
                    reveal_strlit("HTTP/1.1 503 Service Unavailable\r\nConnection: close\r\nContent-Length: 29\r\n\r\nAll backend servers are down.");
                    two_digits(29);
                    assert(r@ =~= reply_text(*self));
                }
                r
            },
            Reply::BackendHung => {
                let r = "HTTP/1.1 504 Gateway Timeout\r\nConnection: close\r\nContent-Length: 36\r\n\r\nThe server took too long to respond.";
                proof {
                    reveal_strlit("504 Gateway Timeout");
                    reveal_strlit("The server took too long to respond.");
                    reveal_strlit("HTTP/1.1 504 Gateway Timeout\r\nConnection: close\r\nContent-Length: 36\r\n\r\nThe server took too long to respond.");
                    two_digits(36);
                    assert(r@ =~= reply_text(*self));
                }
                r
            },
            Reply::ConnectTimedOut => {
                let r = "HTTP/1.1 504 Gateway Timeout\r\n\r\nConnection timed out.";
                proof {
                    reveal_strlit("504 Gateway Timeout");
                    reveal_strlit("Connection timed out.");
                    reveal_strlit("HTTP/1.1 504 Gateway Timeout\r\n\r\nConnection timed out.");
                    assert(r@ =~= reply_text(*self));
                }
                r
            },
        }
    }
}

/// How far a connection has come.
#[derive(Clone, Copy, Debug, PartialEq, Eq, Structural)]
pub enum Stage {
    /// Waiting for the encrypted stream.
    Handshake,
    /// Waiting for the rate limit.
    Limiting,
    /// Waiting for a backend to be chosen.
    Routing,
    /// Waiting for the backend to take the connection.
    Connecting,
    /// Bytes go both ways.
    Exchanging,
    /// The connection is over.
    Closed,
}

/// What happened.
#[derive(Clone, Copy, Debug, PartialEq, Eq, Structural)]
pub enum Event {
    /// The handshake ended; whether it succeeded.
    Handshaken { ok: bool },
    /// The rate limit was asked.
    Limited { blocked: bool },
    /// A backend was asked for; whether there is one.
    Routed { found: bool },
    /// The backend took the connection.
    Connected,
    /// The backend refused the connection.
    ConnectFailed,
    /// The backend did not take the connection in time.
    ConnectExpired,
    /// The exchange ended, well or with an error.
    Exchanged,
    /// The exchange did not end in time.
    ExchangeExpired,
}

/// What is to be done next.
#[derive(Clone, Copy, Debug, PartialEq, Eq, Structural)]
pub enum Action {
    /// Ask the rate limit.
    AskLimit,
    /// Choose a backend.
    Route,
    /// Connect to the backend.
    Connect,
    /// Exchange bytes with the backend.
    Exchange,
    /// Send a reply and close; with `drain`, read the request first.
    Answer { reply: Reply, drain: bool },
    /// Drop the connection without a word.
    Hangup,
    /// Nothing.
    Wait,
}

/// The next stage, and what is to be done.
pub open spec fn step(stage: Stage, event: Event) -> (Stage, Action) {
    match (stage, event) {
        (Stage::Handshake, Event::Handshaken { ok }) => if ok {
            (Stage::Limiting, Action::AskLimit)
        } else {
            (Stage::Closed, Action::Hangup)
        },
        (Stage::Limiting, Event::Limited { blocked }) => if blocked {
            (Stage::Closed, Action::Answer { reply: Reply::RateLimited, drain: true })
        } else {
            (Stage::Routing, Action::Route)
        },
        (Stage::Routing, Event::Routed { found }) => if found {
            (Stage::Connecting, Action::Connect)
        } else {
            (Stage::Closed, Action::Answer { reply: Reply::NoBackend, drain: true })
        },
        (Stage::Connecting, Event::Connected) => (Stage::Exchanging, Action::Exchange),
        (Stage::Connecting, Event::ConnectFailed) => (Stage::Closed, Action::Hangup),
        (Stage::Connecting, Event::ConnectExpired) => (
            Stage::Closed,
            Action::Answer { reply: Reply::ConnectTimedOut, drain: false },
        ),
        (Stage::Exchanging, Event::Exchanged) => (Stage::Closed, Action::Hangup),
        (Stage::Exchanging, Event::ExchangeExpired) => (
            Stage::Closed,
            Action::Answer { reply: Reply::BackendHung, drain: false },
        ),
        _ => (stage, Action::Wait),
    }
}

/// The course of one client connection.
pub struct Session {
    stage: Stage,
}

impl View for Session {
    type V = Stage;

    closed spec fn view(&self) -> Stage {
        self.stage
    }
}

impl Session {
    /// A connection that has just been accepted.
    pub fn new() -> (r: Session)
        ensures
            r@ == Stage::Handshake,
    {
        Session { stage: Stage::Handshake }
    }

    /// Takes an event, and tells what is to be done.
    pub fn on(&mut self, event: Event) -> (r: Action)
        ensures
            (final(self)@, r) == step(old(self)@, event),
    {
        let (stage, action) = match (self.stage, event) {
            (Stage::Handshake, Event::Handshaken { ok }) => if ok {
                (Stage::Limiting, Action::AskLimit)
            } else {
                (Stage::Closed, Action::Hangup)
            },
            (Stage::Limiting, Event::Limited { blocked }) => if blocked {
                (Stage::Closed, Action::Answer { reply: Reply::RateLimited, drain: true })
            } else {
                (Stage::Routing, Action::Route)
            },
            (Stage::Routing, Event::Routed { found }) => if found {
                (Stage::Connecting, Action::Connect)
            } else {
                (Stage::Closed, Action::Answer { reply: Reply::NoBackend, drain: true })
            },
            (Stage::Connecting, Event::Connected) => (Stage::Exchanging, Action::Exchange),
            (Stage::Connecting, Event::ConnectFailed) => (Stage::Closed, Action::Hangup),
            (Stage::Connecting, Event::ConnectExpired) => (
                Stage::Closed,
                Action::Answer { reply: Reply::ConnectTimedOut, drain: false },
            ),
            (Stage::Exchanging, Event::Exchanged) => (Stage::Closed, Action::Hangup),
            (Stage::Exchanging, Event::ExchangeExpired) => (
                Stage::Closed,
                Action::Answer { reply: Reply::BackendHung, drain: false },
            ),
            (stage, _) => (stage, Action::Wait),
        };
        self.stage = stage;
        action
    }
}

/// The stage after `events`.
pub open spec fn stage_after(events: Seq<Event>) -> Stage
    decreases events.len(),
{
    if events.len() == 0 {
        Stage::Handshake
    } else {
        step(stage_after(events.drop_last()), events.last()).0
    }
}

/// A backend sees only clients that passed the handshake and the rate limit: before
/// a connection to a backend is made, both have succeeded and a backend was found.
pub proof fn backend_sees_only_permitted_clients(events: Seq<Event>)
    requires
        stage_after(events) == Stage::Connecting || stage_after(events) == Stage::Exchanging,
    ensures
        events.contains(Event::Handshaken { ok: true }),
        events.contains(Event::Limited { blocked: false }),
        events.contains(Event::Routed { found: true }),
{
    passed(events);
}

proof fn passed(events: Seq<Event>)
    ensures
        match stage_after(events) {
            Stage::Handshake => true,
            Stage::Limiting => events.contains(Event::Handshaken { ok: true }),
            Stage::Routing => events.contains(Event::Handshaken { ok: true }) && events.contains(
                Event::Limited { blocked: false },
            ),
            Stage::Connecting => events.contains(Event::Handshaken { ok: true })
                && events.contains(Event::Limited { blocked: false }) && events.contains(
                Event::Routed { found: true },
            ),
            Stage::Exchanging => events.contains(Event::Handshaken { ok: true })
                && events.contains(Event::Limited { blocked: false }) && events.contains(
                Event::Routed { found: true },
            ),
            Stage::Closed => true,
        },
    decreases events.len(),
{
    if events.len() > 0 {
        let before = events.drop_last();
        passed(before);
        assert forall|e: Event| #[trigger] before.contains(e) implies events.contains(e) by {
            let i = choose|i: int| 0 <= i < before.len() && before[i] == e;
            assert(events[i] == e);
        }
        assert(events[events.len() - 1] == events.last());
        assert(events.contains(events.last()));
    }
}

/// A client gets one reply at most: after a reply the connection is closed, and
/// nothing is done any more.
pub proof fn reply_is_final(stage: Stage, event: Event, later: Event)
    requires
        step(stage, event).1 is Answer || step(stage, event).1 is Hangup,
    ensures
        step(step(stage, event).0, later) == (Stage::Closed, Action::Wait),
{
}

/// A connection goes on as long as all is well: handshake, limit, choice of a backend,
/// connection to it, exchange.
pub proof fn connection_goes_on_while_all_is_well()
    ensures
        step(Stage::Handshake, Event::Handshaken { ok: true }) == (
            Stage::Limiting,
            Action::AskLimit,
        ),
        step(Stage::Limiting, Event::Limited { blocked: false }) == (
            Stage::Routing,
            Action::Route,
        ),
        step(Stage::Routing, Event::Routed { found: true }) == (
            Stage::Connecting,
            Action::Connect,
        ),
        step(Stage::Connecting, Event::Connected) == (Stage::Exchanging, Action::Exchange),
{
}

/// Whatever goes wrong ends the connection, and the client is told what it was: over its
/// limit, without a backend, a connection or an exchange that took too long. Only a failed
/// handshake, a refused connection and the end of the exchange go without a word. The
/// request is read before a client is turned away that no backend has heard.
pub proof fn failure_ends_the_connection(stage: Stage, event: Event)
    requires
        step(stage, event).0 == Stage::Closed,
        stage != Stage::Closed,
    ensures
        ({
            let action = step(stage, event).1;
            &&& event == (Event::Limited { blocked: true }) ==> action == (Action::Answer {
                reply: Reply::RateLimited,
                drain: true,
            })
            &&& event == (Event::Routed { found: false }) ==> action == (Action::Answer {
                reply: Reply::NoBackend,
                drain: true,
            })
            &&& event == Event::ConnectExpired ==> action == (Action::Answer {
                reply: Reply::ConnectTimedOut,
                drain: false,
            })
            &&& event == Event::ExchangeExpired ==> action == (Action::Answer {
                reply: Reply::BackendHung,
                drain: false,
            })
            &&& event == (Event::Handshaken { ok: false }) || event == Event::ConnectFailed
                || event == Event::Exchanged ==> action == Action::Hangup
            &&& action is Answer || action is Hangup
        }),
{
}

/// In every stage the event that tells of failure closes the connection.
pub proof fn failure_closes_in_every_stage()
    ensures
        step(Stage::Handshake, Event::Handshaken { ok: false }).0 == Stage::Closed,
        step(Stage::Limiting, Event::Limited { blocked: true }).0 == Stage::Closed,
        step(Stage::Routing, Event::Routed { found: false }).0 == Stage::Closed,
        step(Stage::Connecting, Event::ConnectFailed).0 == Stage::Closed,
        step(Stage::Connecting, Event::ConnectExpired).0 == Stage::Closed,
        step(Stage::Exchanging, Event::Exchanged).0 == Stage::Closed,
        step(Stage::Exchanging, Event::ExchangeExpired).0 == Stage::Closed,
{
}

/// A reply that gives the length of its body gives the right one, in the header before the
/// empty line that the body follows.
pub proof fn content_length_is_that_of_the_body(reply: Reply, sent: &'static str)
    requires
        call_ensures(Reply::text, (&reply,), sent),
        reply != Reply::ConnectTimedOut,
    ensures
        ({
            let body = body_of(reply);
            let head = sent@.len() - body.len();
            &&& sent@.skip(head) == body
            &&& exists|from: int|
                #![trigger sent@.subrange(from, head - 4)]
                0 <= from <= head - 4 && text::parsed_u64(sent@.subrange(from, head - 4)) == Some(
                    body.len() as u64,
                )
            &&& sent@.subrange(head - 4, head) == "\r\n\r\n"@
        }),
{
    let body = body_of(reply);
    let front = "HTTP/1.1 "@ + status_of(reply) + "\r\n"@
        + "Connection: close\r\nContent-Length: "@;
    let length = text::decimal(body.len());
    reveal_strlit("\r\n");
    reveal_strlit("\r\n\r\n");
    assert(sent@ =~= front + length + "\r\n\r\n"@ + body);
    let head = sent@.len() - body.len();
    assert(sent@.skip(head) =~= body);
    assert(sent@.subrange(front.len() as int, head - 4) =~= length);
    assert(sent@.subrange(head - 4, head) =~= "\r\n\r\n"@);
    bodies_are_short(reply);
    text::decimal_is_read_back(body.len() as u64);
}

proof fn bodies_are_short(reply: Reply)
    ensures
        body_of(reply).len() < 100,
{
    reveal_strlit("Rate Limit Exceeded. Slow Down!!");
    reveal_strlit("All backend servers are down.");
    reveal_strlit("The server took too long to respond.");
    reveal_strlit("Connection timed out.");
}

/// A connection follows its course one event at a time, from its handshake on.
pub proof fn session_follows_its_course(
    session: &mut Session,
    event: Event,
    action: Action,
    fresh: Session,
)
    requires
        call_ensures(Session::on, (session, event), action),
        call_ensures(Session::new, (), fresh),
    ensures
        (final(session)@, action) == step(old(session)@, event),
        fresh@ == Stage::Handshake,
{
}

/// An event that does not belong to the stage of a connection changes nothing.
pub proof fn stray_event_is_passed_over(stage: Stage, event: Event)
    requires
        event is Handshaken ==> stage != Stage::Handshake,
        event is Limited ==> stage != Stage::Limiting,
        event is Routed ==> stage != Stage::Routing,
        event is Connected || event is ConnectFailed || event is ConnectExpired ==> stage
            != Stage::Connecting,
        event is Exchanged || event is ExchangeExpired ==> stage != Stage::Exchanging,
    ensures
        step(stage, event) == (stage, Action::Wait),
{
}

/// Every reply is one of HTTP/1.1 whose status says what is wrong, and ends with a body
/// that says it in words; all but that to an expired connection say that the connection is
/// closed.
pub proof fn reply_says_what_is_wrong(reply: Reply, sent: &'static str)
    requires
        call_ensures(Reply::text, (&reply,), sent),
    ensures
        ({
            let head = match reply {
                Reply::RateLimited => "HTTP/1.1 429 Too Many Requests\r\n"@,
                Reply::NoBackend => "HTTP/1.1 503 Service Unavailable\r\n"@,
                Reply::BackendHung => "HTTP/1.1 504 Gateway Timeout\r\n"@,
                Reply::ConnectTimedOut => "HTTP/1.1 504 Gateway Timeout\r\n"@,
            };
            let body = match reply {
                Reply::RateLimited => "Rate Limit Exceeded. Slow Down!!"@,
                Reply::NoBackend => "All backend servers are down."@,
                Reply::BackendHung => "The server took too long to respond."@,
                Reply::ConnectTimedOut => "Connection timed out."@,
            };
            let close = "Connection: close\r\nContent-Length: "@;
            &&& sent@.len() >= head.len() + body.len()
            &&& sent@.take(head.len() as int) == head
            &&& sent@.skip(sent@.len() - body.len()) == body
            &&& reply == Reply::ConnectTimedOut ==> sent@ == head + "\r\n"@ + body
            &&& reply != Reply::ConnectTimedOut ==> sent@.skip(head.len() as int).take(
                close.len() as int,
            ) == close
        }),
{
    reveal_strlit("HTTP/1.1 ");
    reveal_strlit("\r\n");
    reveal_strlit("429 Too Many Requests");
    reveal_strlit("503 Service Unavailable");
    reveal_strlit("504 Gateway Timeout");
    reveal_strlit("HTTP/1.1 429 Too Many Requests\r\n");
    reveal_strlit("HTTP/1.1 503 Service Unavailable\r\n");
    reveal_strlit("HTTP/1.1 504 Gateway Timeout\r\n");
    let close = "Connection: close\r\nContent-Length: "@;
    let head = match reply {
        Reply::RateLimited => "HTTP/1.1 429 Too Many Requests\r\n"@,
        Reply::NoBackend => "HTTP/1.1 503 Service Unavailable\r\n"@,
        Reply::BackendHung => "HTTP/1.1 504 Gateway Timeout\r\n"@,
        Reply::ConnectTimedOut => "HTTP/1.1 504 Gateway Timeout\r\n"@,
    };
    assert(head =~= "HTTP/1.1 "@ + status_of(reply) + "\r\n"@);
    let body = body_of(reply);
    assert(sent@ == head + headers_of(reply) + "\r\n"@ + body);
    assert(sent@.take(head.len() as int) =~= head);
    assert(sent@.skip(sent@.len() - body.len()) =~= body);
    if reply == Reply::ConnectTimedOut {
        assert(sent@ =~= head + "\r\n"@ + body);
    } else {
        assert(sent@.skip(head.len() as int).take(close.len() as int) =~= close);
    }
}

} // verus!
