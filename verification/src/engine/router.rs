//! Routing: protocol identification followed by backend selection, with the
//! fallback backend for identified traffic whose pools have no healthy
//! backend.
use crate::engine::balancer::{
    lemma_pick_complete, lemma_pick_sound, pool_pick, pool_select, pool_status, select, BalancerView, LoadBalancer,
    PoolView,
};
use crate::engine::health::{healthy, HealthMonitor};
use crate::engine::types::{route_views, ProtocolRoute};
use crate::engine::balancer::{build_fallback, build_pools, status_entries};
use crate::protocols::hooks::HookId;
use crate::protocols::{probe_all, Protocol, ProtocolRegistry, ProtocolView};
use crate::util::{assoc_map, keys_unique, opt_view};
use vstd::prelude::*;

verus! {

/// The result of a routing attempt.
pub enum RouteResult {
    /// A protocol was identified and a backend chosen: the protocol's name,
    /// the backend address and the protocol that identified the traffic.
    Matched(String, String, Protocol),
    /// The traffic is sent to the fallback backend.
    Fallback(String),
    /// No backend is available for the traffic.
    Discarded,
}

/// The content of a [`RouteResult`].
pub enum RouteOutcome {
    /// Protocol name, backend address, identifying protocol.
    Matched(Seq<char>, Seq<char>, ProtocolView),
    /// Fallback backend address.
    Fallback(Seq<char>),
    /// Dropped.
    Discarded,
}

impl View for RouteResult {
    type V = RouteOutcome;

    open spec fn view(&self) -> RouteOutcome {
        match self {
            RouteResult::Matched(p, a, i) => RouteOutcome::Matched(p@, a@, i@),
            RouteResult::Fallback(a) => RouteOutcome::Fallback(a@),
            RouteResult::Discarded => RouteOutcome::Discarded,
        }
    }
}

/// The view of an optional route result.
pub open spec fn outcome_view(r: Option<RouteResult>) -> Option<RouteOutcome> {
    match r {
        Some(x) => Some(x@),
        None => None,
    }
}

/// The hooks that traffic of a routing outcome runs through: those attached
/// to the protocol that identified matched traffic; none otherwise.
pub open spec fn outcome_hooks(o: RouteOutcome) -> Seq<HookId> {
    match o {
        RouteOutcome::Matched(_, _, p) => p.hooks(),
        _ => Seq::empty(),
    }
}

/// The handles of the hooks that the traffic of a routing result runs
/// through, in order.
pub fn hooks_of(r: &RouteResult) -> (v: Vec<HookId>)
    ensures
        v@ == outcome_hooks(r@),
{
    match r {
        RouteResult::Matched(_, _, p) => p.hooks(),
        _ => Vec::new(),
    }
}

/// The content of a [`Router`].
pub struct RouterView {
    /// The protocols, in probing order.
    pub registry: Seq<ProtocolView>,
    /// The load balancer.
    pub balancer: BalancerView,
}

/// Routing to the fallback backend.
pub open spec fn fallback_route(lb: BalancerView, statuses: Map<Seq<char>, bool>) -> (
    RouteOutcome,
    BalancerView,
) {
    let (f, lb2) = select(lb, "fallback"@, None, statuses);
    match f {
        Some(a) => (RouteOutcome::Fallback(a), lb2),
        None => (RouteOutcome::Discarded, lb2),
    }
}

/// Routing of some initial bytes: `None` while no protocol identifies them
/// (more data is needed); otherwise a backend of the identified protocol,
/// else the fallback backend, else nothing.
pub open spec fn route_data(rv: RouterView, data: Seq<u8>, statuses: Map<Seq<char>, bool>) -> (
    Option<RouteOutcome>,
    BalancerView,
) {
    match probe_all(rv.registry, data) {
        None => (None, rv.balancer),
        Some(m) => {
            let (a, lb1) = select(rv.balancer, m.name, m.metadata, statuses);
            match a {
                Some(addr) => (Some(RouteOutcome::Matched(m.name, addr, m.implementation)), lb1),
                None => {
                    let (o, lb2) = fallback_route(lb1, statuses);
                    (Some(o), lb2)
                },
            }
        },
    }
}

/// A router: a protocol registry combined with a load balancer.
pub struct Router {
    registry: ProtocolRegistry,
    balancer: LoadBalancer,
}

impl View for Router {
    type V = RouterView;

    closed spec fn view(&self) -> RouterView {
        RouterView { registry: self.registry@, balancer: self.balancer@ }
    }
}

impl Router {
    /// The router's internal invariant.
    pub closed spec fn wf(&self) -> bool {
        self.balancer.wf()
    }

    /// Creates a router from a registry and a balancer.
    pub fn new(registry: ProtocolRegistry, balancer: LoadBalancer) -> (r: Router)
        requires
            balancer.wf(),
        ensures
            r.wf(),
            r@ == (RouterView { registry: registry@, balancer: balancer@ }),
    {
        Router { registry, balancer }
    }

    /// Identifies the protocol of `data` and routes it. Returns `None` while
    /// no protocol identifies the data.
    pub fn route(&mut self, data: &[u8], health: &HealthMonitor) -> (r: Option<RouteResult>)
        requires
            old(self).wf(),
        ensures
            final(self).wf(),
            final(self)@.registry == old(self)@.registry,
            (outcome_view(r), final(self)@.balancer) == route_data(old(self)@, data@, health@),
    {
        match self.registry.probe(data) {
            None => None,
            Some(m) => {
                let metadata: Option<&str> = match &m.metadata {
                    Some(s) => Some(s.as_str()),
                    None => None,
                };
                match self.balancer.next_available(m.name.as_str(), metadata, health) {
                    Some(addr) => Some(RouteResult::Matched(m.name, addr, m.implementation)),
                    None => Some(self.route_fallback(health)),
                }
            },
        }
    }

    /// Routes to the fallback backend (used when identification times out).
    pub fn route_fallback(&mut self, health: &HealthMonitor) -> (r: RouteResult)
        requires
            old(self).wf(),
        ensures
            final(self).wf(),
            final(self)@.registry == old(self)@.registry,
            (r@, final(self)@.balancer) == fallback_route(old(self)@.balancer, health@),
    {
        match self.balancer.next_available("fallback", None, health) {
            Some(addr) => RouteResult::Fallback(addr),
            None => RouteResult::Discarded,
        }
    }

    /// Replaces the routes; the balancer is rebuilt from them and the
    /// registry is kept.
    pub fn update_balancer(&mut self, routes: Vec<ProtocolRoute>)
        ensures
            final(self).wf(),
            final(self)@.registry == old(self)@.registry,
            final(self)@.balancer.pools == build_pools(route_views(routes@)),
            final(self)@.balancer.fallback == build_fallback(route_views(routes@)),
    {
        self.balancer = LoadBalancer::new(routes);
    }

    /// The health status of every configured backend, by route key.
    pub fn get_health_status(&self, health: &HealthMonitor) -> (r: Vec<(String, Vec<(String, bool)>)>)
        requires
            self.wf(),
        ensures
            keys_unique(status_entries(r@)),
            assoc_map(status_entries(r@)) == self@.balancer.pools.map_values(
                |p: PoolView| pool_status(p, health@),
            ),
    {
        self.balancer.get_status(health)
    }
}

// ---------------------------------------------------------------------------
// Laws
// ---------------------------------------------------------------------------

/// A backend chosen by the load balancer is healthy.
pub proof fn lemma_select_healthy(
    lb: BalancerView,
    protocol: Seq<char>,
    metadata: Option<Seq<char>>,
    statuses: Map<Seq<char>, bool>,
)
    ensures
        match select(lb, protocol, metadata, statuses).0 {
            Some(a) => healthy(statuses, a),
            None => true,
        },
{
    if let Some(m) = metadata {
        let key = protocol + ":"@ + m;
        if lb.pools.contains_key(key) {
            lemma_pick_sound(lb.pools[key], statuses);
        }
        let lb1 = pool_select(lb, key, statuses).1;
        if lb1.pools.contains_key(protocol) {
            lemma_pick_sound(lb1.pools[protocol], statuses);
        }
    } else {
        if lb.pools.contains_key(protocol) {
            lemma_pick_sound(lb.pools[protocol], statuses);
        }
    }
}

/// Traffic is never routed to a backend marked down: a matched or fallback
/// route always names a healthy backend.
pub proof fn lemma_route_healthy(rv: RouterView, data: Seq<u8>, statuses: Map<Seq<char>, bool>)
    ensures
        match route_data(rv, data, statuses).0 {
            Some(RouteOutcome::Matched(_, a, _)) => healthy(statuses, a),
            Some(RouteOutcome::Fallback(a)) => healthy(statuses, a),
            _ => true,
        },
{
    if let Some(m) = probe_all(rv.registry, data) {
        lemma_select_healthy(rv.balancer, m.name, m.metadata, statuses);
        let lb1 = select(rv.balancer, m.name, m.metadata, statuses).1;
        lemma_select_healthy(lb1, "fallback"@, None, statuses);
    }
}

/// Routing only touches rotation counters: the routes and the fallback stay
/// as they were.
pub proof fn lemma_select_keeps_routes(
    lb: BalancerView,
    protocol: Seq<char>,
    metadata: Option<Seq<char>>,
    statuses: Map<Seq<char>, bool>,
)
    ensures
        select(lb, protocol, metadata, statuses).1.fallback == lb.fallback,
        select(lb, protocol, metadata, statuses).1.pools.dom() == lb.pools.dom(),
        forall|k: Seq<char>| #[trigger]
            lb.pools.contains_key(k) ==> select(lb, protocol, metadata, statuses).1.pools[k].addresses
                == lb.pools[k].addresses,
{
    let key = match metadata {
        Some(m) => protocol + ":"@ + m,
        None => protocol,
    };
    if lb.pools.contains_key(key) {
        lemma_pick_sound(lb.pools[key], statuses);
    }
    let lb1 = match metadata {
        Some(m) => pool_select(lb, protocol + ":"@ + m, statuses).1,
        None => lb,
    };
    assert(lb1.pools.dom() =~= lb.pools.dom());
    if lb1.pools.contains_key(protocol) {
        lemma_pick_sound(lb1.pools[protocol], statuses);
    }
    assert(select(lb, protocol, metadata, statuses).1.pools.dom() =~= lb.pools.dom());
}


/// Fail-fast with fallback: when the identified protocol has a pool without
/// a healthy backend (and no metadata), traffic goes to the fallback backend
/// where it is healthy, and is discarded where there is none.
pub proof fn lemma_route_uses_fallback(rv: RouterView, data: Seq<u8>, statuses: Map<Seq<char>, bool>)
    requires
        probe_all(rv.registry, data) matches Some(m) && m.metadata is None && rv.balancer.pools.contains_key(m.name)
            && forall|i: int|
            0 <= i < rv.balancer.pools[m.name].addresses.len() ==> !healthy(
                statuses,
                #[trigger] rv.balancer.pools[m.name].addresses[i],
            ),
        !rv.balancer.pools.contains_key("fallback"@),
    ensures
        route_data(rv, data, statuses).0 == Some(
            match rv.balancer.fallback {
                Some(fb) => if healthy(statuses, fb) {
                    RouteOutcome::Fallback(fb)
                } else {
                    RouteOutcome::Discarded
                },
                None => RouteOutcome::Discarded,
            },
        ),
{
    let m = probe_all(rv.registry, data).unwrap();
    let p = rv.balancer.pools[m.name];
    lemma_pick_sound(p, statuses);
    if let Some(a) = pool_pick(p, statuses).0 {
        let i = choose|i: int| 0 <= i < p.addresses.len() && p.addresses[i] == a;
        assert(!healthy(statuses, p.addresses[i]));
    }
    let lb1 = select(rv.balancer, m.name, m.metadata, statuses).1;
    lemma_select_keeps_routes(rv.balancer, m.name, m.metadata, statuses);
    assert(!lb1.pools.contains_key("fallback"@));
}

/// Traffic that no protocol identifies is not routed yet: more data is
/// needed.
pub proof fn lemma_route_needs_identification(rv: RouterView, data: Seq<u8>, statuses: Map<Seq<char>, bool>)
    requires
        probe_all(rv.registry, data) is None,
    ensures
        route_data(rv, data, statuses) == (None::<RouteOutcome>, rv.balancer),
{
}


/// Health-aware selection: a chosen backend is healthy and is an address of
/// the pool of `protocol:metadata`, of the pool of `protocol`, or, for the
/// name `fallback`, the fallback backend; and where the pool of `protocol`
/// exists and the metadata's pool yields nothing, nothing is chosen exactly
/// when every address of that pool is down.
pub proof fn lemma_select_law(
    lb: BalancerView,
    protocol: Seq<char>,
    metadata: Option<Seq<char>>,
    statuses: Map<Seq<char>, bool>,
)
    ensures
        match select(lb, protocol, metadata, statuses).0 {
            Some(a) => healthy(statuses, a) && ((metadata matches Some(m) && lb.pools.contains_key(
                protocol + ":"@ + m,
            ) && lb.pools[protocol + ":"@ + m].addresses.contains(a)) || (lb.pools.contains_key(protocol)
                && lb.pools[protocol].addresses.contains(a)) || (protocol == "fallback"@ && lb.fallback
                == Some(a))),
            None => true,
        },
        lb.pools.contains_key(protocol) && (match metadata {
            Some(m) => pool_select(lb, protocol + ":"@ + m, statuses).0 is None,
            None => true,
        }) ==> (select(lb, protocol, metadata, statuses).0 is None <==> forall|i: int|
            0 <= i < lb.pools[protocol].addresses.len() ==> !healthy(
                statuses,
                #[trigger] lb.pools[protocol].addresses[i],
            )),
{
    lemma_select_healthy(lb, protocol, metadata, statuses);
    let lb1 = match metadata {
        Some(m) => pool_select(lb, protocol + ":"@ + m, statuses).1,
        None => lb,
    };
    if let Some(m) = metadata {
        let key = protocol + ":"@ + m;
        if lb.pools.contains_key(key) {
            lemma_pick_sound(lb.pools[key], statuses);
        }
    }
    assert(lb1.pools.dom() == lb.pools.dom());
    assert(lb1.fallback == lb.fallback);
    if lb1.pools.contains_key(protocol) {
        assert(lb1.pools[protocol].addresses == lb.pools[protocol].addresses);
        let p = lb1.pools[protocol];
        lemma_pick_sound(p, statuses);
        if pool_pick(p, statuses).0 is None {
            assert forall|i: int| 0 <= i < p.addresses.len() implies !healthy(
                statuses,
                #[trigger] p.addresses[i],
            ) by {
                if healthy(statuses, p.addresses[i]) {
                    lemma_pick_complete(p, statuses, i);
                }
            }
        }
    }
}


/// Identified traffic without a backend goes to the fallback: whenever the
/// balancer has no backend for a match (with or without metadata), a
/// healthy fallback backend takes the traffic, and without one it is
/// discarded.
pub proof fn lemma_route_falls_back(rv: RouterView, data: Seq<u8>, statuses: Map<Seq<char>, bool>)
    requires
        probe_all(rv.registry, data) matches Some(m) && select(rv.balancer, m.name, m.metadata, statuses).0 is None,
        !rv.balancer.pools.contains_key("fallback"@),
    ensures
        route_data(rv, data, statuses).0 == Some(
            match rv.balancer.fallback {
                Some(fb) => if healthy(statuses, fb) {
                    RouteOutcome::Fallback(fb)
                } else {
                    RouteOutcome::Discarded
                },
                None => RouteOutcome::Discarded,
            },
        ),
{
    let m = probe_all(rv.registry, data).unwrap();
    lemma_select_keeps_routes(rv.balancer, m.name, m.metadata, statuses);
    let lb1 = select(rv.balancer, m.name, m.metadata, statuses).1;
    assert(!lb1.pools.contains_key("fallback"@));
}

} // verus!
