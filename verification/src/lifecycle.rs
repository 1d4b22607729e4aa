//! The life of a listener: it serves connections until it is told to shut down,
//! and then waits for the ones under way.

use vstd::prelude::*;

verus! {

/// What a listener is told.
#[derive(Clone, Copy, Debug, PartialEq, Eq, Structural)]
pub enum ListenerEvent {
    /// A client has connected.
    Accepted,
    /// A client could not be accepted.
    AcceptFailed,
    /// The process is to shut down.
    Shutdown,
    /// A connection that was under way has been waited for.
    TaskEnded,
}

/// What a listener does next.
#[derive(Clone, Copy, Debug, PartialEq, Eq, Structural)]
pub enum ListenerAction {
    /// Serve the client that has connected, and accept the next.
    Serve,
    /// Accept the next client.
    Accept,
    /// Wait for one of the connections under way.
    AwaitTask,
    /// Stop: nothing is under way.
    Finish,
}

/// A listener: whether it has been told to shut down, and how many connections
/// it has begun and not waited for.
#[derive(Clone, Copy, Debug, PartialEq, Eq, Structural)]
pub struct Listener {
    /// Whether the listener has been told to shut down.
    pub draining: bool,
    /// The connections begun and not waited for.
    pub tasks: usize,
}

/// What a listener that drains does with `tasks` connections to wait for.
pub open spec fn drain_action(tasks: usize) -> ListenerAction {
    if tasks == 0 {
        ListenerAction::Finish
    } else {
        ListenerAction::AwaitTask
    }
}

/// The listener after an event, and what it does next.
pub open spec fn step(listener: Listener, event: ListenerEvent) -> (Listener, ListenerAction) {
    if listener.draining {
        let tasks = if event == ListenerEvent::TaskEnded && listener.tasks > 0 {
            (listener.tasks - 1) as usize
        } else {
            listener.tasks
        };
        (Listener { draining: true, tasks }, drain_action(tasks))
    } else {
        match event {
            ListenerEvent::Accepted => (
                Listener { draining: false, tasks: (listener.tasks + 1) as usize },
                ListenerAction::Serve,
            ),
            ListenerEvent::AcceptFailed | ListenerEvent::TaskEnded => (
                listener,
                ListenerAction::Accept,
            ),
            ListenerEvent::Shutdown => (
                Listener { draining: true, tasks: listener.tasks },
                drain_action(listener.tasks),
            ),
        }
    }
}

/// The listener after a number of events.
pub open spec fn run(listener: Listener, events: Seq<ListenerEvent>) -> Listener
    decreases events.len(),
{
    if events.len() == 0 {
        listener
    } else {
        step(run(listener, events.drop_last()), events.last()).0
    }
}

/// How many of `events` are the end of a connection.
pub open spec fn ends(events: Seq<ListenerEvent>) -> nat
    decreases events.len(),
{
    if events.len() == 0 {
        0
    } else {
        ends(events.drop_last()) + if events.last() == ListenerEvent::TaskEnded {
            1nat
        } else {
            0nat
        }
    }
}

impl Listener {
    /// A listener that has begun no connection.
    pub fn new() -> (r: Self)
        ensures
            r == (Listener { draining: false, tasks: 0 }),
    {
        Listener { draining: false, tasks: 0 }
    }

    /// Takes an event, and says what to do next.
    pub fn on(&mut self, event: ListenerEvent) -> (r: ListenerAction)
        requires
            !old(self).draining && event == ListenerEvent::Accepted ==> old(self).tasks
                < usize::MAX,
        ensures
            (*final(self), r) == step(*old(self), event),
    {
        if self.draining {
            if self.tasks > 0 {
                if let ListenerEvent::TaskEnded = event {
                    self.tasks = self.tasks - 1;
                }
            }
            self.drain()
        } else {
            match event {
                ListenerEvent::Accepted => {
                    self.tasks = self.tasks + 1;
                    ListenerAction::Serve
                },
                ListenerEvent::AcceptFailed | ListenerEvent::TaskEnded => ListenerAction::Accept,
                ListenerEvent::Shutdown => {
                    self.draining = true;
                    self.drain()
                },
            }
        }
    }

    fn drain(&self) -> (r: ListenerAction)
        ensures
            r == drain_action(self.tasks),
    {
        if self.tasks == 0 {
            ListenerAction::Finish
        } else {
            ListenerAction::AwaitTask
        }
    }
}

/// Once told to shut down, a listener serves no client any more, whatever happens.
pub proof fn no_client_is_served_after_shutdown(
    listener: Listener,
    events: Seq<ListenerEvent>,
    next: ListenerEvent,
)
    requires
        listener.draining,
    ensures
        run(listener, events).draining,
        step(run(listener, events), next).1 != ListenerAction::Serve,
        step(run(listener, events), next).1 != ListenerAction::Accept,
    decreases events.len(),
{
    if events.len() > 0 {
        no_client_is_served_after_shutdown(listener, events.drop_last(), next);
    }
}

/// A listener that shuts down waits for every connection under way: after any
/// events it has left to wait for those that have not ended.
pub proof fn shutdown_waits_for_every_connection(listener: Listener, events: Seq<ListenerEvent>)
    requires
        listener.draining,
    ensures
        run(listener, events).tasks == (if ends(events) >= listener.tasks {
            0
        } else {
            listener.tasks - ends(events)
        }),
        drain_action(run(listener, events).tasks) == ListenerAction::Finish <==> ends(events)
            >= listener.tasks,
    decreases events.len(),
{
    if events.len() > 0 {
        shutdown_waits_for_every_connection(listener, events.drop_last());
        no_client_is_served_after_shutdown(listener, events.drop_last(), events.last());
    }
}

/// A shutdown drops none of the connections under way.
pub proof fn shutdown_keeps_connections(listener: Listener)
    ensures
        step(listener, ListenerEvent::Shutdown).0.tasks == listener.tasks,
        step(listener, ListenerEvent::Shutdown).0.draining,
{
}

/// How many clients were accepted before the listener was told to shut down.
pub open spec fn accepted(events: Seq<ListenerEvent>) -> nat
    decreases events.len(),
{
    if events.len() == 0 {
        0
    } else {
        accepted(events.drop_last()) + if events.last() == ListenerEvent::Accepted
            && !events.drop_last().contains(ListenerEvent::Shutdown) {
            1nat
        } else {
            0nat
        }
    }
}

/// How many connections ended since the listener was told to shut down.
pub open spec fn ended_since_shutdown(events: Seq<ListenerEvent>) -> nat
    decreases events.len(),
{
    if events.len() == 0 {
        0
    } else {
        ended_since_shutdown(events.drop_last()) + if events.last() == ListenerEvent::TaskEnded
            && events.drop_last().contains(ListenerEvent::Shutdown) {
            1nat
        } else {
            0nat
        }
    }
}

/// How often a listener serves a client in the course of some events.
pub open spec fn serves(start: Listener, events: Seq<ListenerEvent>) -> nat
    decreases events.len(),
{
    if events.len() == 0 {
        0
    } else {
        serves(start, events.drop_last()) + if step(
            run(start, events.drop_last()),
            events.last(),
        ).1 == ListenerAction::Serve {
            1nat
        } else {
            0nat
        }
    }
}

/// Every connection that was served is waited for. Over any events of a new listener: each
/// client that connects before the shutdown is served, and no other; until the shutdown
/// the listener goes on accepting; and from the shutdown on it waits as long as fewer
/// connections have ended than were served, and stops when all of them have.
pub proof fn every_served_connection_is_waited_for(
    start: Listener,
    events: Seq<ListenerEvent>,
    next: ListenerEvent,
)
    requires
        call_ensures(Listener::new, (), start),
        events.len() < usize::MAX,
    ensures
        ({
            let action = step(run(start, events), next).1;
            let all = events.push(next);
            &&& serves(start, all) == accepted(all)
            &&& action == ListenerAction::Serve <==> next == ListenerEvent::Accepted
                && !events.contains(ListenerEvent::Shutdown)
            &&& action == ListenerAction::Accept <==> next != ListenerEvent::Accepted
                && !all.contains(ListenerEvent::Shutdown)
            &&& action == ListenerAction::Finish <==> all.contains(ListenerEvent::Shutdown)
                && ended_since_shutdown(all) >= serves(start, all)
            &&& action == ListenerAction::AwaitTask <==> all.contains(ListenerEvent::Shutdown)
                && ended_since_shutdown(all) < serves(start, all)
        }),
{
    let all = events.push(next);
    assert(all.drop_last() =~= events);
    waits_for_the_rest(start, events);
    waits_for_the_rest(start, all);
    shut_down_or_not(events, next);
    if next == ListenerEvent::Shutdown && !events.contains(ListenerEvent::Shutdown) {
        none_ended_before_shutdown(events);
    }
}

proof fn shut_down_or_not(events: Seq<ListenerEvent>, next: ListenerEvent)
    ensures
        events.push(next).contains(ListenerEvent::Shutdown) <==> events.contains(
            ListenerEvent::Shutdown,
        ) || next == ListenerEvent::Shutdown,
{
    let all = events.push(next);
    if events.contains(ListenerEvent::Shutdown) {
        let i = choose|i: int| 0 <= i < events.len() && events[i] == ListenerEvent::Shutdown;
        assert(all[i] == ListenerEvent::Shutdown);
    }
    if next == ListenerEvent::Shutdown {
        assert(all[events.len() as int] == ListenerEvent::Shutdown);
    }
    if all.contains(ListenerEvent::Shutdown) && next != ListenerEvent::Shutdown {
        let i = choose|i: int| 0 <= i < all.len() && all[i] == ListenerEvent::Shutdown;
        assert(events[i] == ListenerEvent::Shutdown);
    }
}

proof fn none_ended_before_shutdown(events: Seq<ListenerEvent>)
    requires
        !events.contains(ListenerEvent::Shutdown),
    ensures
        ended_since_shutdown(events) == 0,
    decreases events.len(),
{
    if events.len() > 0 {
        let init = events.drop_last();
        assert(init.push(events.last()) =~= events);
        shut_down_or_not(init, events.last());
        none_ended_before_shutdown(init);
    }
}

proof fn waits_for_the_rest(start: Listener, events: Seq<ListenerEvent>)
    requires
        call_ensures(Listener::new, (), start),
        events.len() <= usize::MAX,
    ensures
        run(start, events).draining == events.contains(ListenerEvent::Shutdown),
        run(start, events).tasks == (if accepted(events) >= ended_since_shutdown(events) {
            accepted(events) - ended_since_shutdown(events)
        } else {
            0
        }),
        serves(start, events) == accepted(events),
        accepted(events) <= events.len(),
    decreases events.len(),
{
    if events.len() > 0 {
        let init = events.drop_last();
        waits_for_the_rest(start, init);
        assert(init.push(events.last()) =~= events);
        shut_down_or_not(init, events.last());
        if !init.contains(ListenerEvent::Shutdown) {
            none_ended_before_shutdown(init);
        }
    }
}

/// A listener follows its course one event at a time: it takes the step that its state and
/// the event call for, and begins without a connection.
pub proof fn listener_follows_its_course(
    listener: &mut Listener,
    event: ListenerEvent,
    action: ListenerAction,
    fresh: Listener,
)
    requires
        call_ensures(Listener::on, (listener, event), action),
        call_ensures(Listener::new, (), fresh),
    ensures
        (*final(listener), action) == step(*old(listener), event),
        !fresh.draining,
        fresh.tasks == 0,
        !old(listener).draining && event == ListenerEvent::Accepted && old(listener).tasks
            < usize::MAX ==> action == ListenerAction::Serve && final(listener).tasks == old(listener).tasks + 1,
        old(listener).draining && old(listener).tasks > 0 && event == ListenerEvent::TaskEnded
            ==> final(listener).tasks == old(listener).tasks - 1 && (action
            == ListenerAction::Finish <==> final(listener).tasks == 0),
        event == ListenerEvent::Shutdown ==> final(listener).draining && final(listener).tasks
            == old(listener).tasks,
{
}

} // verus!
