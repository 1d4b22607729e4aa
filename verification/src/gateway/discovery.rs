//! Targets announced by containers as they start and die.

use crate::pairs;
use crate::pairs::{copy_values, get_value, put_pair, remove_key};
use crate::text;
use crate::text::{join_colon, same_text};
use vstd::prelude::*;

verus! {

/// The label of a container that wants traffic; its value has to be `true`.
pub const ENABLE_LABEL: &'static str = "iron-proxy";

/// The label with the port that a container listens on.
pub const PORT_LABEL: &'static str = "iron-proxy.port";

/// The port of a container without a port label.
pub const DEFAULT_PORT: &'static str = "8000";

/// The network whose addresses are used.
pub const NETWORK: &'static str = "bridge";

/// The action of a container that has started.
pub const START_ACTION: &'static str = "start";

/// The action of a container that has ended.
pub const DIE_ACTION: &'static str = "die";

/// The resource whose events are followed.
pub const EVENT_TYPE: &'static str = "container";

/// An event of a container. What the event leaves out is empty.
pub struct ContainerEvent {
    pub action: String,
    pub container_id: String,
    pub attributes: Vec<(String, String)>,
}

/// What is to be done about an event.
pub enum DiscoveryAction {
    /// Nothing.
    Ignore,
    /// Look up the addresses of the container, and report them with this port.
    Inspect { port: String },
    /// Announce these targets; the one that left comes with them.
    Publish { targets: Vec<String>, removed: String },
}

/// A target that has come up, with all the targets there are now.
pub struct Announcement {
    pub target: String,
    pub targets: Vec<String>,
}

/// Whether the container wants traffic.
pub open spec fn is_enabled(attributes: Seq<(Seq<char>, Seq<char>)>) -> bool {
    pairs::value_of(attributes, ENABLE_LABEL@) == Some("true"@)
}

/// The port that the container listens on.
pub open spec fn port_of(attributes: Seq<(Seq<char>, Seq<char>)>) -> Seq<char> {
    match pairs::value_of(attributes, PORT_LABEL@) {
        Some(port) => port,
        None => DEFAULT_PORT@,
    }
}

/// The address in the network that is used, if the container has one there.
pub open spec fn address_in(networks: Seq<(Seq<char>, Seq<char>)>) -> Option<Seq<char>> {
    match pairs::value_of(networks, NETWORK@) {
        Some(ip) => if ip.len() > 0 {
            Some(ip)
        } else {
            None
        },
        None => None,
    }
}

/// The running containers that take traffic, each with its target.
pub struct Containers {
    active: Vec<(String, String)>,
}

impl View for Containers {
    type V = Seq<(Seq<char>, Seq<char>)>;

    closed spec fn view(&self) -> Seq<(Seq<char>, Seq<char>)> {
        pairs::pair_views(self.active@)
    }
}

impl Containers {
    /// No container is known twice.
    pub open spec fn wf(&self) -> bool {
        pairs::no_repeats(self@)
    }

    /// No container is known.
    pub fn new() -> (r: Containers)
        ensures
            r.wf(),
            r@.len() == 0,
    {
        Containers { active: Vec::new() }
    }

    /// Takes an event. A container that starts is to be inspected; one that dies
    /// takes its target with it.
    pub fn on_event(&mut self, event: &ContainerEvent) -> (r: DiscoveryAction)
        requires
            old(self).wf(),
        ensures
            final(self).wf(),
            ({
                let attributes = pairs::pair_views(event.attributes@);
                let id = event.container_id@;
                if is_enabled(attributes) && event.action@ == START_ACTION@ {
                    &&& r matches DiscoveryAction::Inspect { port } && port@ == port_of(attributes)
                    &&& final(self)@ == old(self)@
                } else if is_enabled(attributes) && event.action@ == DIE_ACTION@
                    && pairs::value_of(old(self)@, id) is Some {
                    &&& final(self)@ == pairs::without(old(self)@, id)
                    &&& r matches DiscoveryAction::Publish { targets, removed } && text::texts(
                        targets@,
                    ) == pairs::values(final(self)@) && Some(removed@) == pairs::value_of(
                        old(self)@,
                        id,
                    )
                } else {
                    r is Ignore && final(self)@ == old(self)@
                }
            }),
    {
        let enabled = match get_value(&event.attributes, ENABLE_LABEL) {
            Some(value) => same_text(value.as_str(), "true"),
            None => false,
        };
        if !enabled {
            return DiscoveryAction::Ignore;
        }
        if same_text(event.action.as_str(), START_ACTION) {
            let port = match get_value(&event.attributes, PORT_LABEL) {
                Some(port) => port,
                None => DEFAULT_PORT.to_owned(),
            };
            return DiscoveryAction::Inspect { port };
        }
        if same_text(event.action.as_str(), DIE_ACTION) {
            proof {
                pairs::without_unmaps_the_key(self@, event.container_id@);
            }
            match remove_key(&mut self.active, event.container_id.as_str()) {
                Some(removed) => {
                    return DiscoveryAction::Publish {
                        targets: copy_values(&self.active),
                        removed,
                    };
                },
                None => {},
            }
        }
        DiscoveryAction::Ignore
    }

    /// Takes the addresses of a started container, `None` if it could not be
    /// inspected. Gives what to announce, if the container has an address that can be
    /// used.
    pub fn on_inspected(
        &mut self,
        container_id: String,
        port: &String,
        networks: &Option<Vec<(String, String)>>,
    ) -> (r: Option<Announcement>)
        requires
            old(self).wf(),
        ensures
            final(self).wf(),
            match networks {
                Some(networks) => match address_in(pairs::pair_views(networks@)) {
                    Some(ip) => {
                        let target = text::colon_joined(ip, port@);
                        &&& final(self)@ == pairs::put(old(self)@, container_id@, target)
                        &&& r matches Some(announcement) && announcement.target@ == target
                            && text::texts(announcement.targets@) == pairs::values(final(self)@)
                    },
                    None => r is None && final(self)@ == old(self)@,
                },
                None => r is None && final(self)@ == old(self)@,
            },
    {
        match networks {
            Some(networks) => match get_value(networks, NETWORK) {
                Some(ip) => {
                    if is_empty_text(&ip) {
                        return None;
                    }
                    let target = join_colon(ip.as_str(), port.as_str());
                    proof {
                        pairs::put_maps_the_key(self@, container_id@, target@);
                    }
                    put_pair(&mut self.active, container_id, target.clone());
                    Some(Announcement { target, targets: copy_values(&self.active) })
                },
                None => None,
            },
            None => None,
        }
    }
}

fn is_empty_text(s: &String) -> (r: bool)
    ensures
        r == (s@.len() == 0),
{
    crate::text::chars_of(s.as_str()).len() == 0
}

/// A container that starts and dies leaves the targets as they were, if it was not
/// known before.
pub proof fn start_and_die_leave_no_target(
    containers: Seq<(Seq<char>, Seq<char>)>,
    id: Seq<char>,
    target: Seq<char>,
)
    requires
        pairs::value_of(containers, id) is None,
    ensures
        pairs::without(pairs::put(containers, id, target), id) == containers,
{
    pairs::place_is_first(containers, id);
    let after = pairs::put(containers, id, target);
    pairs::place_is_first(after, id);
    let p = pairs::place_of(after, id);
    let n = containers.len() as int;
    if p < n {
        assert(after[p] == containers[p]);
        assert(containers[p].0 != id);
    } else {
        assert(after[n].0 == id);
        assert(p <= n);
    }
    assert(after.remove(n) =~= containers);
}

/// The announced targets are those of the running containers.
pub proof fn announced_are_running(containers: Seq<(Seq<char>, Seq<char>)>, target: Seq<char>)
    requires
        pairs::no_repeats(containers),
    ensures
        pairs::values(containers).contains(target) <==> pairs::as_map(containers).contains_value(
            target,
        ),
{
    let map = pairs::as_map(containers);
    let values = pairs::values(containers);
    if values.contains(target) {
        let i = choose|i: int| 0 <= i < values.len() && values[i] == target;
        let key = containers[i].0;
        pairs::place_is_first(containers, key);
        let p = pairs::place_of(containers, key);
        if p < i {
            assert(containers[p].0 != containers[i].0);
        }
        assert(map.contains_key(key) && map[key] == target);
    }
    if map.contains_value(target) {
        let key = choose|key: Seq<char>| #[trigger] map.contains_key(key) && map[key] == target;
        pairs::place_is_first(containers, key);
        assert(values[pairs::place_of(containers, key)] == target);
    }
}

/// A container takes traffic exactly if it is labelled for it; its port is the one on the
/// label, `8000` without one; and its address is the one on the bridge, if it has one
/// there.
pub proof fn labels_decide(
    attributes: Seq<(Seq<char>, Seq<char>)>,
    networks: Seq<(Seq<char>, Seq<char>)>,
    i: int,
    j: int,
)
    requires
        pairs::no_repeats(attributes),
        pairs::no_repeats(networks),
        0 <= i < attributes.len(),
        0 <= j < networks.len(),
    ensures
        attributes[i].0 == "iron-proxy"@ ==> (is_enabled(attributes) <==> attributes[i].1
            == "true"@),
        is_enabled(attributes) ==> attributes.contains(("iron-proxy"@, "true"@)),
        attributes[i].0 == "iron-proxy.port"@ ==> port_of(attributes) == attributes[i].1,
        (forall|k: int|
            0 <= k < attributes.len() ==> (#[trigger] attributes[k]).0 != "iron-proxy.port"@)
            ==> port_of(attributes) == "8000"@,
        networks[j].0 == "bridge"@ ==> address_in(networks) == if networks[j].1.len() > 0 {
            Some(networks[j].1)
        } else {
            None
        },
        (forall|k: int| 0 <= k < networks.len() ==> (#[trigger] networks[k]).0 != "bridge"@)
            ==> address_in(networks) is None,
{
    pairs::value_is_that_of_the_pair(attributes, "iron-proxy"@, i);
    pairs::value_is_that_of_the_pair(attributes, "iron-proxy.port"@, i);
    pairs::value_is_that_of_the_pair(networks, "bridge"@, j);
}

/// A container that has been announced is known under its target until it dies; the
/// targets of the other containers stay.
pub proof fn container_is_known_until_it_dies(
    containers: Seq<(Seq<char>, Seq<char>)>,
    id: Seq<char>,
    target: Seq<char>,
    other: Seq<char>,
)
    requires
        pairs::no_repeats(containers),
        other != id,
    ensures
        pairs::value_of(pairs::put(containers, id, target), id) == Some(target),
        pairs::value_of(pairs::without(containers, id), id) is None,
        pairs::value_of(pairs::put(containers, id, target), other) == pairs::value_of(
            containers,
            other,
        ),
        pairs::value_of(pairs::without(containers, id), other) == pairs::value_of(
            containers,
            other,
        ),
{
    let after = pairs::put(containers, id, target);
    let gone = pairs::without(containers, id);
    pairs::put_maps_the_key(containers, id, target);
    pairs::without_unmaps_the_key(containers, id);
    pairs::value_is_that_of_the_pair(containers, other, 0);
    pairs::value_is_that_of_the_pair(after, id, 0);
    pairs::value_is_that_of_the_pair(after, other, 0);
    pairs::value_is_that_of_the_pair(gone, id, 0);
    pairs::value_is_that_of_the_pair(gone, other, 0);
}

/// What an event leaves: a labelled container that starts is inspected for its port; one
/// that dies takes its target with it, and the others are announced; every other event is
/// ignored.
pub proof fn event_is_answered(
    containers: &mut Containers,
    event: ContainerEvent,
    action: DiscoveryAction,
    other: Seq<char>,
)
    requires
        call_ensures(Containers::on_event, (containers, &event), action),
        old(containers).wf(),
        other != event.container_id@,
    ensures
        ({
            let attributes = pairs::pair_views(event.attributes@);
            let labelled = pairs::value_of(attributes, "iron-proxy"@) == Some("true"@);
            let known = pairs::value_of(old(containers)@, event.container_id@);
            &&& action is Inspect <==> labelled && event.action@ == "start"@
            &&& action is Publish <==> labelled && event.action@ == "die"@ && known is Some
            &&& !(action is Publish) ==> final(containers)@ == old(containers)@
            &&& action matches DiscoveryAction::Inspect { port } ==> port@ == (
            match pairs::value_of(attributes, "iron-proxy.port"@) {
                Some(port) => port,
                None => "8000"@,
            })
            &&& action matches DiscoveryAction::Publish { targets, removed } ==> {
                &&& Some(removed@) == known
                &&& text::texts(targets@) == pairs::values(final(containers)@)
                &&& pairs::value_of(final(containers)@, event.container_id@) is None
                &&& pairs::value_of(final(containers)@, other) == pairs::value_of(
                    old(containers)@,
                    other,
                )
            }
        }),
{
    reveal_strlit("start");
    reveal_strlit("die");
    assert("start"@.len() != "die"@.len());
    container_is_known_until_it_dies(old(containers)@, event.container_id@, ""@, other);
}

/// What an inspection leaves: a container with an address on the bridge is known under that
/// address and its port, and all targets are announced; any other is left out.
pub proof fn inspection_is_answered(
    containers: &mut Containers,
    id: String,
    port: String,
    networks: Option<Vec<(String, String)>>,
    announced: Option<Announcement>,
    other: Seq<char>,
)
    requires
        call_ensures(Containers::on_inspected, (containers, id, &port, &networks), announced),
        old(containers).wf(),
        other != id@,
    ensures
        ({
            let ip = match networks {
                Some(list) => pairs::value_of(pairs::pair_views(list@), "bridge"@),
                None => None,
            };
            &&& announced is Some <==> ip is Some && ip->0.len() > 0
            &&& announced is None ==> final(containers)@ == old(containers)@
            &&& announced matches Some(news) ==> {
                &&& news.target@ == ip->0 + seq![':'] + port@
                &&& text::texts(news.targets@) == pairs::values(final(containers)@)
                &&& pairs::value_of(final(containers)@, id@) == Some(news.target@)
                &&& pairs::value_of(final(containers)@, other) == pairs::value_of(
                    old(containers)@,
                    other,
                )
            }
        }),
{
    if let Some(news) = announced {
        container_is_known_until_it_dies(old(containers)@, id@, news.target@, other);
    }
}

/// No container is known at first.
pub proof fn no_container_is_known_at_first(containers: Containers, id: Seq<char>)
    requires
        call_ensures(Containers::new, (), containers),
    ensures
        pairs::value_of(containers@, id) is None,
        containers.wf(),
{
    pairs::value_is_that_of_the_pair(containers@, id, 0);
}

} // verus!
