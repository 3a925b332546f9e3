//! Fluent configuration of the engine.
use crate::engine::balancer::{build_fallback, build_pools, duplicated_key, find_duplicate_key, has_duplicate_key, LoadBalancer};
use crate::engine::health::{monitored, HealthMonitor};
use crate::engine::router::{Router, RouterView};
use crate::engine::types::{route_views, ProtocolRoute, RouteView};
use crate::engine::{new_cancel_token, Refractium, RefractiumView};
use crate::errors::RefractiumError;
use crate::protocols::{ProtocolRegistry, ProtocolView};
use crate::util::{concat, str_views};
use tokio_util::sync::CancellationToken;
use vstd::prelude::*;

verus! {

/// All backend addresses of a list of routes, route by route.
pub open spec fn route_targets(routes: Seq<RouteView>) -> Seq<Seq<char>>
    decreases routes.len(),
{
    if routes.len() == 0 {
        Seq::empty()
    } else {
        route_targets(routes.drop_last()) + routes.last().addresses
    }
}

/// The protocols of a list of routes, in order.
pub open spec fn route_protocols(routes: Seq<RouteView>) -> Seq<ProtocolView> {
    routes.map_values(|r: RouteView| r.protocol)
}

/// The router that a list of routes defines: their protocols, probed in
/// route order, and the balancer built from them.
pub open spec fn router_of(routes: Seq<RouteView>) -> RouterView {
    RouterView {
        registry: route_protocols(routes),
        balancer: crate::engine::balancer::BalancerView {
            pools: build_pools(routes),
            fallback: build_fallback(routes),
        },
    }
}

/// The message about a route key that two routes share.
pub open spec fn duplicate_message(k: Seq<char>) -> Seq<char> {
    "Duplicate route: '"@ + k + "'"@
}

/// A configuration error naming a key that two of `routes` share.
pub open spec fn names_duplicate(e: RefractiumError, routes: Seq<RouteView>) -> bool {
    e matches RefractiumError::ConfigError(m) && exists|k: Seq<char>|
        #[trigger] duplicated_key(routes, k) && m@ == duplicate_message(k)
}

/// The outcome of building an engine from TCP and UDP routes: where two
/// routes of a transport share a key (TCP checked first), an error naming
/// it; otherwise an engine with content `v` that holds the given
/// cancellation token, where one is given.
pub open spec fn built(
    r: Result<Refractium, RefractiumError>,
    tcp: Seq<RouteView>,
    udp: Seq<RouteView>,
    token: Option<CancellationToken>,
    v: RefractiumView,
) -> bool {
    if has_duplicate_key(tcp) {
        r matches Err(e) && names_duplicate(e, tcp)
    } else if has_duplicate_key(udp) {
        r matches Err(e) && names_duplicate(e, udp)
    } else {
        r matches Ok(e) && e.wf() && e@ == v && (token matches Some(t) ==> e.token() == t)
    }
}

/// The error about a key that two of `routes` share, if any.
pub(crate) fn check_duplicates(routes: &Vec<ProtocolRoute>) -> (r: Option<RefractiumError>)
    ensures
        match r {
            Some(e) => has_duplicate_key(route_views(routes@)) && names_duplicate(e, route_views(routes@)),
            None => !has_duplicate_key(route_views(routes@)),
        },
{
    match find_duplicate_key(routes) {
        Some(k) => {
            let m = concat(concat("Duplicate route: '", k.as_str()).as_str(), "'");
            Some(RefractiumError::ConfigError(m))
        },
        None => None,
    }
}

/// The content of a [`RefractiumBuilder`].
pub struct BuilderView {
    /// TCP routes.
    pub tcp: Seq<RouteView>,
    /// UDP routes.
    pub udp: Seq<RouteView>,
    /// Peek buffer size in bytes.
    pub peek_size: usize,
    /// Peek timeout in milliseconds.
    pub peek_timeout: u64,
    /// Cap on concurrent connections.
    pub max_connections: usize,
    /// Cap on concurrent connections per client IP.
    pub max_connections_per_ip: usize,
    /// The cancellation token attached, if any.
    pub cancel_token: Option<CancellationToken>,
}

/// The settings of a new builder: no routes, a 1024-byte peek buffer, a
/// 3000 ms peek timeout, at most 10000 connections and at most 50 per client
/// IP.
pub open spec fn default_builder() -> BuilderView {
    BuilderView {
        tcp: Seq::empty(),
        udp: Seq::empty(),
        peek_size: 1024,
        peek_timeout: 3000,
        max_connections: 10000,
        max_connections_per_ip: 50,
        cancel_token: None,
    }
}

/// A fluent builder for the [`Refractium`] engine.
pub struct RefractiumBuilder {
    pub(crate) routes_tcp: Vec<ProtocolRoute>,
    pub(crate) routes_udp: Vec<ProtocolRoute>,
    pub(crate) peek_size: usize,
    pub(crate) peek_timeout: u64,
    pub(crate) max_connections: usize,
    pub(crate) max_connections_per_ip: usize,
    pub(crate) cancel_token: Option<CancellationToken>,
}

impl View for RefractiumBuilder {
    type V = BuilderView;

    closed spec fn view(&self) -> BuilderView {
        BuilderView {
            tcp: route_views(self.routes_tcp@),
            udp: route_views(self.routes_udp@),
            peek_size: self.peek_size,
            peek_timeout: self.peek_timeout,
            max_connections: self.max_connections,
            max_connections_per_ip: self.max_connections_per_ip,
            cancel_token: self.cancel_token,
        }
    }
}

/// Collects the backend addresses of `routes` after those already in `out`.
pub(crate) fn collect_targets(routes: &Vec<ProtocolRoute>, out: &mut Vec<String>)
    ensures
        str_views(final(out)@) == str_views(old(out)@) + route_targets(route_views(routes@)),
{
    let ghost rv = route_views(routes@);
    let mut i: usize = 0;
    assert(rv.subrange(0, 0) =~= Seq::<RouteView>::empty());
    assert(str_views(out@) =~= str_views(old(out)@) + route_targets(rv.subrange(0, 0)));
    while i < routes.len()
        invariant
            i <= routes.len(),
            rv == route_views(routes@),
            str_views(out@) == str_views(old(out)@) + route_targets(rv.subrange(0, i as int)),
        decreases routes.len() - i,
    {
        let addrs = routes[i].forward_to.to_vec();
        let ghost before = out@;
        let mut j: usize = 0;
        while j < addrs.len()
            invariant
                j <= addrs.len(),
                str_views(out@) == str_views(before) + str_views(addrs@).subrange(0, j as int),
            decreases addrs.len() - j,
        {
            let ghost prev = out@;
            let a = addrs[j].clone();
            assert(a@ == str_views(addrs@)[j as int]);
            out.push(a);
            assert(str_views(out@) =~= str_views(prev).push(a@));
            assert(str_views(addrs@).subrange(0, j + 1) =~= str_views(addrs@).subrange(0, j as int).push(a@));
            assert(str_views(out@) =~= str_views(before) + str_views(addrs@).subrange(0, j + 1));
            j = j + 1;
        }
        assert(str_views(addrs@).subrange(0, addrs@.len() as int) =~= str_views(addrs@));
        assert(rv.subrange(0, i + 1).drop_last() =~= rv.subrange(0, i as int));
        assert(str_views(out@) =~= str_views(old(out)@) + route_targets(rv.subrange(0, i + 1)));
        i = i + 1;
    }
    assert(rv.subrange(0, routes@.len() as int) =~= rv);
}

/// A registry holding the protocols of `routes`, in order.
pub(crate) fn registry_of(routes: &Vec<ProtocolRoute>) -> (r: ProtocolRegistry)
    ensures
        r@ == route_protocols(route_views(routes@)),
{
    let mut reg = ProtocolRegistry::new();
    let mut i: usize = 0;
    while i < routes.len()
        invariant
            i <= routes.len(),
            reg@ == route_protocols(route_views(routes@)).subrange(0, i as int),
        decreases routes.len() - i,
    {
        reg.register(routes[i].protocol.duplicate());
        assert(reg@ =~= route_protocols(route_views(routes@)).subrange(0, i + 1));
        i = i + 1;
    }
    assert(route_protocols(route_views(routes@)).subrange(0, routes@.len() as int)
        =~= route_protocols(route_views(routes@)));
    reg
}

impl RefractiumBuilder {
    /// A builder with no routes, a 1024-byte peek buffer, a 3000 ms peek
    /// timeout, at most 10000 connections and at most 50 per client IP.
    pub fn new() -> (r: RefractiumBuilder)
        ensures
            r@ == default_builder(),
    {
        let r = RefractiumBuilder {
            routes_tcp: Vec::new(),
            routes_udp: Vec::new(),
            peek_size: 1024,
            peek_timeout: 3000,
            max_connections: 10000,
            max_connections_per_ip: 50,
            cancel_token: None,
        };
        assert(route_views(r.routes_tcp@) =~= Seq::empty());
        assert(route_views(r.routes_udp@) =~= Seq::empty());
        r
    }

    /// Sets the routing tables for TCP and UDP.
    pub fn routes(self, tcp: Vec<ProtocolRoute>, udp: Vec<ProtocolRoute>) -> (r: RefractiumBuilder)
        ensures
            r@ == (BuilderView { tcp: route_views(tcp@), udp: route_views(udp@), ..self@ }),
    {
        RefractiumBuilder { routes_tcp: tcp, routes_udp: udp, ..self }
    }

    /// Sets the peek buffer size and the peek timeout of the identification
    /// phase.
    pub fn peek_config(self, size: usize, timeout_ms: u64) -> (r: RefractiumBuilder)
        ensures
            r@ == (BuilderView { peek_size: size, peek_timeout: timeout_ms, ..self@ }),
    {
        RefractiumBuilder { peek_size: size, peek_timeout: timeout_ms, ..self }
    }

    /// Sets the maximum number of concurrent connections.
    pub fn max_connections(self, max: usize) -> (r: RefractiumBuilder)
        ensures
            r@ == (BuilderView { max_connections: max, ..self@ }),
    {
        RefractiumBuilder { max_connections: max, ..self }
    }

    /// Sets the maximum number of concurrent connections per client IP.
    pub fn max_connections_per_ip(self, max: usize) -> (r: RefractiumBuilder)
        ensures
            r@ == (BuilderView { max_connections_per_ip: max, ..self@ }),
    {
        RefractiumBuilder { max_connections_per_ip: max, ..self }
    }

    /// Attaches an external cancellation token to the engine.
    pub fn cancel_token(self, token: CancellationToken) -> (r: RefractiumBuilder)
        ensures
            r@ == (BuilderView { cancel_token: Some(token), ..self@ }),
    {
        RefractiumBuilder { cancel_token: Some(token), ..self }
    }

    /// Builds the engine: one router per transport from its routes, a health
    /// table monitoring every backend address (TCP routes first), and the
    /// configured limits. Two routes of a transport with the same key
    /// (protocol, and SNI where given) are a configuration error.
    pub fn build(self) -> (r: Result<Refractium, RefractiumError>)
        ensures
            built(r, self@.tcp, self@.udp, self@.cancel_token, RefractiumView {
                tcp: router_of(self@.tcp),
                udp: router_of(self@.udp),
                health: monitored(
                    Map::empty(),
                    route_targets(self@.tcp) + route_targets(self@.udp),
                ),
                peek_buffer_size: self@.peek_size,
                peek_timeout_ms: self@.peek_timeout,
                max_connections: self@.max_connections,
                max_connections_per_ip: self@.max_connections_per_ip,
            }),
    {
        if let Some(e) = check_duplicates(&self.routes_tcp) {
            return Err(e);
        }
        if let Some(e) = check_duplicates(&self.routes_udp) {
            return Err(e);
        }
        let mut health = HealthMonitor::new();
        let mut targets: Vec<String> = Vec::new();
        assert(str_views(targets@) =~= Seq::empty());
        collect_targets(&self.routes_tcp, &mut targets);
        collect_targets(&self.routes_udp, &mut targets);
        health.start_monitoring(&targets);
        let reg_tcp = registry_of(&self.routes_tcp);
        let reg_udp = registry_of(&self.routes_udp);
        let ghost tcp_v = self@.tcp;
        let ghost udp_v = self@.udp;
        let router_tcp = Router::new(reg_tcp, LoadBalancer::new(self.routes_tcp));
        let router_udp = Router::new(reg_udp, LoadBalancer::new(self.routes_udp));
        let cancel_token = match self.cancel_token {
            Some(t) => t,
            None => new_cancel_token(),
        };
        let e = Refractium {
            router_tcp,
            router_udp,
            health,
            peek_buffer_size: self.peek_size,
            peek_timeout_ms: self.peek_timeout,
            max_connections: self.max_connections,
            max_connections_per_ip: self.max_connections_per_ip,
            cancel_token,
        };
        assert(Seq::<Seq<char>>::empty() + route_targets(tcp_v) + route_targets(udp_v) =~= route_targets(tcp_v) + route_targets(udp_v));
        Ok(e)
    }
}

impl Default for RefractiumBuilder {
    fn default() -> (r: RefractiumBuilder)
        ensures
            r@ == default_builder(),
    {
        RefractiumBuilder::new()
    }
}

} // verus!
