//! The administrative API: the summary of the cluster's health.

use crate::health::{BackendView, HealthRegistry, HealthStatus};
use crate::pairs;
use crate::pairs::put_pair;
use vstd::prelude::*;

verus! {

/// The path of the health summary.
pub const HEALTH_PATH: &'static str = "/api/v1/health";

/// The path of the metrics.
pub const METRICS_PATH: &'static str = "/metrics";

/// The health of the whole cluster and of each backend.
pub struct SystemHealthResponse {
    /// The health of the cluster.
    pub status: String,
    /// The text of each backend with the name of its health, each text once.
    pub backends: Vec<(String, String)>,
}

/// The name of a backend's health.
pub open spec fn status_name(status: HealthStatus) -> Seq<char> {
    match status {
        HealthStatus::Healthy => "Healthy"@,
        HealthStatus::Dead => "Dead"@,
    }
}

/// The texts of the backends with the names of their health. Where backends share
/// a text, the last of them counts.
pub open spec fn named_backends(backends: Seq<BackendView>) -> Map<Seq<char>, Seq<char>>
    decreases backends.len(),
{
    if backends.len() == 0 {
        Map::empty()
    } else {
        named_backends(backends.drop_last()).insert(
            backends.last().text,
            status_name(backends.last().status),
        )
    }
}

/// The health of the cluster: degraded as soon as one backend is dead.
pub open spec fn overall_status(backends: Seq<BackendView>) -> Seq<char> {
    if backends.len() == 0 {
        "No backends Configured"@
    } else if forall|i: int|
        0 <= i < backends.len() ==> (#[trigger] backends[i]).status == HealthStatus::Healthy {
        "OK"@
    } else {
        "Degraded"@
    }
}

/// The summary of the cluster's health.
pub fn get_health_status(registry: &HealthRegistry) -> (r: SystemHealthResponse)
    ensures
        r.status@ == overall_status(registry@),
        pairs::no_repeats(pairs::pair_views(r.backends@)),
        pairs::as_map(pairs::pair_views(r.backends@)) == named_backends(registry@),
{
    let mut backends: Vec<(String, String)> = Vec::new();
    let mut all_healthy = true;
    let mut i: usize = 0;
    let n: usize = registry.len();
    proof {
        assert(registry@.take(0) =~= Seq::empty());
        assert(pairs::as_map(pairs::pair_views(backends@)) =~= Map::empty());
    }
    while i < n
        invariant
            i <= n == registry@.len(),
            pairs::no_repeats(pairs::pair_views(backends@)),
            pairs::as_map(pairs::pair_views(backends@)) == named_backends(
                registry@.take(i as int),
            ),
            i > 0 <==> backends@.len() > 0,
            all_healthy == (forall|j: int|
                0 <= j < i ==> (#[trigger] registry@[j]).status == HealthStatus::Healthy),
        decreases n - i,
    {
        let name = match registry.status_at(i) {
            HealthStatus::Healthy => "Healthy".to_owned(),
            HealthStatus::Dead => {
                all_healthy = false;
                "Dead".to_owned()
            },
        };
        proof {
            assert(registry@.take(i + 1).drop_last() =~= registry@.take(i as int));
            pairs::put_maps_the_key(
                pairs::pair_views(backends@),
                registry@[i as int].text,
                name@,
            );
        }
        put_pair(&mut backends, registry.text_at(i), name);
        i = i + 1;
    }
    proof {
        assert(registry@.take(i as int) =~= registry@);
    }
    let status = if backends.len() == 0 {
        "No backends Configured".to_owned()
    } else if all_healthy {
        "OK".to_owned()
    } else {
        "Degraded".to_owned()
    };
    SystemHealthResponse { status, backends }
}

/// The cluster is reported as degraded exactly if one of its backends is dead.
pub proof fn degraded_means_a_dead_backend(backends: Seq<BackendView>)
    ensures
        overall_status(backends) == "Degraded"@ <==> exists|i: int|
            0 <= i < backends.len() && (#[trigger] backends[i]).status == HealthStatus::Dead,
{
    reveal_strlit("Degraded");
    reveal_strlit("OK");
    reveal_strlit("No backends Configured");
    assert("Degraded"@.len() == 8 && "OK"@.len() == 2 && "No backends Configured"@.len() == 22);
    if exists|i: int|
        0 <= i < backends.len() && (#[trigger] backends[i]).status == HealthStatus::Dead {
        let i = choose|i: int|
            0 <= i < backends.len() && (#[trigger] backends[i]).status == HealthStatus::Dead;
        assert(backends[i].status != HealthStatus::Healthy);
    }
}

/// The cluster is reported as fine exactly if it has backends and all are healthy, and as
/// empty exactly if it has none.
pub proof fn ok_means_all_are_healthy(registry: HealthRegistry, r: SystemHealthResponse)
    requires
        call_ensures(get_health_status, (&registry,), r),
    ensures
        r.status@ == "OK"@ <==> registry@.len() > 0 && forall|i: int|
            0 <= i < registry@.len() ==> (#[trigger] registry@[i]).status == HealthStatus::Healthy,
        r.status@ == "No backends Configured"@ <==> registry@.len() == 0,
        r.status@ == "Degraded"@ <==> exists|i: int|
            0 <= i < registry@.len() && (#[trigger] registry@[i]).status == HealthStatus::Dead,
{
    reveal_strlit("Degraded");
    reveal_strlit("OK");
    reveal_strlit("No backends Configured");
    assert("Degraded"@.len() == 8 && "OK"@.len() == 2 && "No backends Configured"@.len() == 22);
    degraded_means_a_dead_backend(registry@);
}

/// Every backend is reported under its text with its own health, where no two backends
/// share a text; and nothing else is reported.
pub proof fn every_backend_is_reported(registry: HealthRegistry, r: SystemHealthResponse, i: int)
    requires
        call_ensures(get_health_status, (&registry,), r),
        0 <= i < registry@.len(),
        forall|a: int, b: int|
            0 <= a < b < registry@.len() ==> (#[trigger] registry@[a]).text != (
            #[trigger] registry@[b]).text,
    ensures
        ({
            let reported = pairs::as_map(pairs::pair_views(r.backends@));
            &&& reported.contains_key(registry@[i].text)
            &&& registry@[i].status == HealthStatus::Healthy ==> reported[registry@[i].text]
                == "Healthy"@
            &&& registry@[i].status == HealthStatus::Dead ==> reported[registry@[i].text]
                == "Dead"@
            &&& forall|text: Seq<char>| #[trigger]
                reported.contains_key(text) ==> exists|k: int|
                    0 <= k < registry@.len() && (#[trigger] registry@[k]).text == text
        }),
{
    backends_are_named(registry@, i);
    assert forall|text: Seq<char>| #[trigger]
        named_backends(registry@).contains_key(text) implies exists|k: int|
        0 <= k < registry@.len() && (#[trigger] registry@[k]).text == text by {
        names_are_of_backends(registry@, text);
    }
}

proof fn backends_are_named(backends: Seq<BackendView>, i: int)
    requires
        0 <= i < backends.len(),
        forall|a: int, b: int|
            0 <= a < b < backends.len() ==> (#[trigger] backends[a]).text != (
            #[trigger] backends[b]).text,
    ensures
        named_backends(backends).contains_key(backends[i].text),
        named_backends(backends)[backends[i].text] == status_name(backends[i].status),
    decreases backends.len(),
{
    let init = backends.drop_last();
    if i < init.len() {
        assert forall|a: int, b: int| 0 <= a < b < init.len() implies (#[trigger] init[a]).text != (
        #[trigger] init[b]).text by {
            assert(backends[a].text != backends[b].text);
        }
        backends_are_named(init, i);
        assert(init[i] == backends[i]);
        assert(backends[i].text != backends[backends.len() - 1].text);
    }
}

proof fn names_are_of_backends(backends: Seq<BackendView>, text: Seq<char>)
    requires
        named_backends(backends).contains_key(text),
    ensures
        exists|k: int| 0 <= k < backends.len() && (#[trigger] backends[k]).text == text,
    decreases backends.len(),
{
    if backends.len() > 0 {
        if backends.last().text == text {
            assert(backends[backends.len() - 1].text == text);
        } else {
            names_are_of_backends(backends.drop_last(), text);
            let k = choose|k: int|
                0 <= k < backends.len() - 1 && (#[trigger] backends.drop_last()[k]).text == text;
            assert(backends[k].text == text);
        }
    }
}

} // verus!
