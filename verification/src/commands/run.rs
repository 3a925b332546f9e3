//! The engine's routing tables as the configuration defines them, and the
//! engine set up from a configuration.
use crate::engine::builder::{built, route_targets, router_of};
use crate::engine::health::monitored;
use crate::engine::types::{
    route_views, ForwardTarget, ProtocolRoute, ProxyConfig, ProxyView, RouteDataView, RouteView,
    TomlRouteData, Transport,
};
use crate::engine::{Refractium, RefractiumView};
use crate::errors::RefractiumError;
use crate::protocols::dns::Dns;
use crate::protocols::ftp::Ftp;
use crate::protocols::http::Http;
use crate::protocols::https::Https;
use crate::protocols::ssh::Ssh;
use crate::protocols::{
    BuiltinProtocol, DynamicProtocol, DynamicView, FallbackProtocol, Protocol, ProtocolView,
};
use crate::util::{concat, copy_opt_string, copy_string, copy_strings, str_eq};
use tokio_util::sync::CancellationToken;
use vstd::prelude::*;

verus! {

/// The built-in protocol of a name, if there is one.
pub open spec fn builtin_protocol(name: Seq<char>) -> Option<ProtocolView> {
    if name == "http"@ {
        Some(ProtocolView::Http)
    } else if name == "https"@ {
        Some(ProtocolView::Https)
    } else if name == "ssh"@ {
        Some(ProtocolView::Ssh)
    } else if name == "ftp"@ {
        Some(ProtocolView::Ftp)
    } else if name == "dns"@ {
        Some(ProtocolView::Dns)
    } else {
        None
    }
}

/// The protocol of a configured route: a pattern-based protocol where
/// patterns are given, else the built-in protocol of its name.
pub open spec fn protocol_for(r: RouteDataView) -> Option<ProtocolView> {
    match r.patterns {
        Some(p) => Some(ProtocolView::Dynamic(DynamicView { name: r.name, patterns: p })),
        None => builtin_protocol(r.name),
    }
}

/// The message for a route whose protocol is unknown.
pub open spec fn unknown_protocol_message(name: Seq<char>) -> Seq<char> {
    "Unknown protocol: '"@ + name + "'. Built-in or patterns required."@
}

/// A route of transport `t` serves a server of transport `filter`.
pub open spec fn selects(t: Transport, filter: Transport) -> bool {
    t == filter || t == Transport::Both
}

/// The routes of the configured routes that serve `filter`, in order; the
/// name of the first of them whose protocol is unknown where there is one.
pub open spec fn engine_routes(routes: Seq<RouteDataView>, filter: Transport) -> Result<
    Seq<RouteView>,
    Seq<char>,
>
    decreases routes.len(),
{
    if routes.len() == 0 {
        Ok(Seq::empty())
    } else {
        match engine_routes(routes.drop_last(), filter) {
            Err(n) => Err(n),
            Ok(prev) => {
                let r = routes.last();
                if !selects(r.transport, filter) {
                    Ok(prev)
                } else {
                    match protocol_for(r) {
                        None => Err(r.name),
                        Some(p) => Ok(
                            prev.push(
                                RouteView {
                                    protocol: p,
                                    sni: r.sni,
                                    addresses: r.forward_to.addresses(),
                                },
                            ),
                        ),
                    }
                }
            },
        }
    }
}

/// The fallback route of a transport, where one is configured.
pub open spec fn fallback_routes(c: ProxyView, filter: Transport) -> Seq<RouteView> {
    let fb = match filter {
        Transport::Tcp => c.fallback_tcp,
        Transport::Udp => c.fallback_udp,
        Transport::Both => None,
    };
    match fb {
        Some(a) => seq![RouteView { protocol: ProtocolView::Fallback, sni: None, addresses: seq![a] }],
        None => Seq::empty(),
    }
}

/// The routing table of a transport: the selected routes followed by the
/// fallback route, or the message about the first unknown protocol.
pub open spec fn routes_for(c: ProxyView, filter: Transport) -> Result<Seq<RouteView>, Seq<char>> {
    match engine_routes(c.protocols, filter) {
        Err(n) => Err(unknown_protocol_message(n)),
        Ok(v) => Ok(v + fallback_routes(c, filter)),
    }
}

/// The protocol of a configured route.
pub fn build_protocol(route: &TomlRouteData) -> (r: Result<Protocol, RefractiumError>)
    ensures
        match protocol_for(route@) {
            Some(p) => r matches Ok(x) && x@ == p,
            None => r matches Err(RefractiumError::ConfigError(m)) && m@ == unknown_protocol_message(
                route@.name,
            ),
        },
{
    if let Some(patterns) = &route.patterns {
        return Ok(
            Protocol::Dynamic(
                DynamicProtocol { name: copy_string(&route.name), patterns: copy_strings(patterns) },
            ),
        );
    }
    let name: &str = route.name.as_str();
    if str_eq(name, "http") {
        Ok(Protocol::Http(Http))
    } else if str_eq(name, "https") {
        Ok(Protocol::Https(Https))
    } else if str_eq(name, "ssh") {
        Ok(Protocol::Ssh(Ssh))
    } else if str_eq(name, "ftp") {
        Ok(Protocol::Ftp(Ftp))
    } else if str_eq(name, "dns") {
        Ok(Protocol::Dns(Dns))
    } else {
        let msg = concat(concat("Unknown protocol: '", name).as_str(), "'. Built-in or patterns required.");
        Err(RefractiumError::ConfigError(msg))
    }
}

/// Appends the fallback route of a transport, where one is configured.
fn add_fallback(config: &ProxyConfig, filter: Transport, routes: &mut Vec<ProtocolRoute>)
    ensures
        route_views(final(routes)@) == route_views(old(routes)@) + fallback_routes(config@, filter),
{
    let fb = match filter {
        Transport::Tcp => &config.fallback_tcp,
        Transport::Udp => &config.fallback_udp,
        Transport::Both => {
            assert(route_views(routes@) =~= route_views(old(routes)@) + fallback_routes(config@, filter));
            return;
        },
    };
    if let Some(target) = fb {
        routes.push(
            ProtocolRoute {
                protocol: Protocol::Fallback(FallbackProtocol),
                sni: None,
                forward_to: ForwardTarget::Single(copy_string(target)),
            },
        );
    }
    assert(route_views(routes@) =~= route_views(old(routes)@) + fallback_routes(config@, filter));
}

/// The routing table of a transport.
pub fn setup_engine(config: &ProxyConfig, filter: Transport) -> (r: Result<Vec<ProtocolRoute>, RefractiumError>)
    ensures
        match routes_for(config@, filter) {
            Ok(v) => r matches Ok(x) && route_views(x@) == v,
            Err(m) => r matches Err(RefractiumError::ConfigError(x)) && x@ == m,
        },
{
    let mut routes: Vec<ProtocolRoute> = Vec::new();
    let ghost all = config@.protocols;
    let mut i: usize = 0;
    assert(route_views(routes@) =~= Seq::<RouteView>::empty());
    assert(all.subrange(0, 0) =~= Seq::<RouteDataView>::empty());
    while i < config.protocols.len()
        invariant
            i <= config.protocols.len(),
            all == config@.protocols,
            engine_routes(all.subrange(0, i as int), filter) == Ok::<Seq<RouteView>, Seq<char>>(
                route_views(routes@),
            ),
        decreases config.protocols.len() - i,
    {
        let route = &config.protocols[i];
        assert(all.subrange(0, i + 1).drop_last() =~= all.subrange(0, i as int));
        assert(all.subrange(0, i + 1).last() == route@);
        if route.transport == filter || route.transport == Transport::Both {
            match build_protocol(route) {
                Ok(protocol) => {
                    let ghost before = routes@;
                    routes.push(
                        ProtocolRoute {
                            protocol,
                            sni: copy_opt_string(&route.sni),
                            forward_to: route.forward_to.duplicate(),
                        },
                    );
                    assert(route_views(routes@) =~= route_views(before).push(routes@.last()@));
                },
                Err(e) => {
                    proof {
                        lemma_engine_routes_err(all, filter, i as int);
                    }
                    return Err(e);
                },
            }
        }
        i = i + 1;
    }
    assert(all.subrange(0, all.len() as int) =~= all);
    add_fallback(config, filter, &mut routes);
    Ok(routes)
}

/// An unknown protocol in the first `i + 1` routes is reported for the whole
/// list.
proof fn lemma_engine_routes_err(routes: Seq<RouteDataView>, filter: Transport, i: int)
    requires
        0 <= i < routes.len(),
        engine_routes(routes.subrange(0, i + 1), filter) is Err,
    ensures
        engine_routes(routes, filter) == engine_routes(routes.subrange(0, i + 1), filter),
    decreases routes.len() - i,
{
    if i + 1 == routes.len() {
        assert(routes.subrange(0, i + 1) =~= routes);
    } else {
        assert(routes.subrange(0, i + 2).drop_last() =~= routes.subrange(0, i + 1));
        lemma_engine_routes_err(routes, filter, i + 1);
    }
}

/// The routing table of a transport.
pub fn get_routes(config: &ProxyConfig, filter: Transport) -> (r: Result<Vec<ProtocolRoute>, RefractiumError>)
    ensures
        match routes_for(config@, filter) {
            Ok(v) => r matches Ok(x) && route_views(x@) == v,
            Err(m) => r matches Err(RefractiumError::ConfigError(x)) && x@ == m,
        },
{
    setup_engine(config, filter)
}

/// Sets the engine up from a configuration: the routing tables of both
/// transports, the peek settings and the connection caps.
pub fn setup_refractium(config: &ProxyConfig, cancel_token: CancellationToken) -> (r: Result<Refractium, RefractiumError>)
    ensures
        match (routes_for(config@, Transport::Tcp), routes_for(config@, Transport::Udp)) {
            (Err(m), _) => r matches Err(RefractiumError::ConfigError(x)) && x@ == m,
            (Ok(_), Err(m)) => r matches Err(RefractiumError::ConfigError(x)) && x@ == m,
            (Ok(t), Ok(u)) => built(r, t, u, Some(cancel_token), RefractiumView {
                tcp: router_of(t),
                udp: router_of(u),
                health: monitored(Map::empty(), route_targets(t) + route_targets(u)),
                peek_buffer_size: config@.peek_buffer_size,
                peek_timeout_ms: config@.peek_timeout_ms,
                max_connections: config@.max_connections,
                max_connections_per_ip: config@.max_connections_per_ip,
            }),
        },
{
    let routes_tcp = match setup_engine(config, Transport::Tcp) {
        Ok(v) => v,
        Err(e) => return Err(e),
    };
    let routes_udp = match setup_engine(config, Transport::Udp) {
        Ok(v) => v,
        Err(e) => return Err(e),
    };
    Refractium::builder()
        .routes(routes_tcp, routes_udp)
        .peek_config(config.peek_buffer_size, config.peek_timeout_ms)
        .max_connections(config.max_connections)
        .max_connections_per_ip(config.max_connections_per_ip)
        .cancel_token(cancel_token)
        .build()
}


/// The routing entry of a configured route whose protocol is known.
pub open spec fn route_of(r: RouteDataView) -> RouteView {
    RouteView { protocol: protocol_for(r).unwrap(), sni: r.sni, addresses: r.forward_to.addresses() }
}

/// Whether a configured route serves `filter`.
pub open spec fn serves(filter: Transport) -> spec_fn(RouteDataView) -> bool {
    |r: RouteDataView| selects(r.transport, filter)
}

/// The routing entry of a configured route, as a function.
pub open spec fn entry() -> spec_fn(RouteDataView) -> RouteView {
    |r: RouteDataView| route_of(r)
}

/// Every configured route of `routes` that serves `filter` names a known
/// protocol.
pub open spec fn all_known(routes: Seq<RouteDataView>, filter: Transport) -> bool {
    forall|i: int|
        0 <= i < routes.len() && selects(#[trigger] routes[i].transport, filter) ==> protocol_for(
            routes[i],
        ) is Some
}

proof fn lemma_engine_routes(routes: Seq<RouteDataView>, filter: Transport)
    ensures
        engine_routes(routes, filter) is Ok <==> all_known(routes, filter),
        all_known(routes, filter) ==> engine_routes(routes, filter) == Ok::<Seq<RouteView>, Seq<char>>(
            routes.filter(serves(filter)).map_values(entry()),
        ),
        engine_routes(routes, filter) matches Err(n) ==> exists|i: int|
            0 <= i < routes.len() && selects(#[trigger] routes[i].transport, filter) && protocol_for(routes[i])
                is None && routes[i].name == n && all_known(routes.take(i), filter),
    decreases routes.len(),
{
    reveal(Seq::filter);
    let sel = serves(filter);
    let conv = entry();
    if routes.len() == 0 {
        assert(routes.filter(sel).map_values(conv) =~= Seq::<RouteView>::empty());
    } else {
        let front = routes.drop_last();
        let r = routes.last();
        lemma_engine_routes(front, filter);
        assert(all_known(routes, filter) ==> all_known(front, filter)) by {
            if all_known(routes, filter) {
                assert forall|i: int| 0 <= i < front.len() && selects(#[trigger] front[i].transport, filter)
                    implies protocol_for(front[i]) is Some by {
                    assert(front[i] == routes[i]);
                }
            }
        }
        assert(all_known(front, filter) && (selects(r.transport, filter) ==> protocol_for(r) is Some)
            ==> all_known(routes, filter)) by {
            if all_known(front, filter) && (selects(r.transport, filter) ==> protocol_for(r) is Some) {
                assert forall|i: int| 0 <= i < routes.len() && selects(#[trigger] routes[i].transport, filter)
                    implies protocol_for(routes[i]) is Some by {
                    if i < front.len() {
                        assert(front[i] == routes[i]);
                    }
                }
            }
        }
        if all_known(routes, filter) {
            let fv = front.filter(sel);
            if sel(r) {
                assert(routes.filter(sel) == fv.push(r));
                assert(fv.push(r).map_values(conv) =~= fv.map_values(conv).push(route_of(r)));
            } else {
                assert(routes.filter(sel) == fv);
            }
        }
        if let Err(n) = engine_routes(routes, filter) {
            if engine_routes(front, filter) is Err {
                let i = choose|i: int|
                    0 <= i < front.len() && selects(#[trigger] front[i].transport, filter) && protocol_for(
                        front[i],
                    ) is None && front[i].name == n && all_known(front.take(i), filter);
                assert(routes[i] == front[i]);
                assert(routes.take(i) =~= front.take(i));
            } else {
                let i = routes.len() - 1;
                assert(routes[i] == r);
                assert(routes.take(i) =~= front);
            }
        }
    }
}

/// The routing table of a transport: where every configured route serving it
/// names a known protocol, those routes in configuration order, followed by
/// the transport's fallback route; otherwise the error about the first such
/// route whose protocol is unknown.
pub proof fn lemma_routes_for(c: ProxyView, filter: Transport)
    ensures
        all_known(c.protocols, filter) ==> routes_for(c, filter) == Ok::<Seq<RouteView>, Seq<char>>(
            c.protocols.filter(serves(filter)).map_values(entry()) + fallback_routes(c, filter),
        ),
        !all_known(c.protocols, filter) ==> exists|i: int|
            0 <= i < c.protocols.len() && selects(#[trigger] c.protocols[i].transport, filter)
                && protocol_for(c.protocols[i]) is None && all_known(c.protocols.take(i), filter)
                && routes_for(c, filter) == Err::<Seq<RouteView>, Seq<char>>(
                unknown_protocol_message(c.protocols[i].name),
            ),
{
    lemma_engine_routes(c.protocols, filter);
}


/// Every built-in identifier is found under its own name, so a route that
/// names it without patterns gets it; and a name finds only the built-in
/// identifier that bears that name.
pub proof fn lemma_builtin_names(b: BuiltinProtocol, n: Seq<char>, r: RouteDataView)
    ensures
        builtin_protocol(b@.name()) == Some(b@),
        builtin_protocol(n) matches Some(p) ==> p.name() == n,
        r.patterns is None && r.name == b@.name() ==> protocol_for(r) == Some(b@),
{
    reveal_strlit("http");
    reveal_strlit("https");
    reveal_strlit("ssh");
    reveal_strlit("ftp");
    reveal_strlit("dns");
    assert("http"@ != "https"@ && "http"@ != "ssh"@ && "http"@ != "ftp"@ && "http"@ != "dns"@) by {
        assert("http"@.len() != "https"@.len() && "http"@.len() != "ssh"@.len());
        assert("http"@[0] != "ftp"@[0] && "http"@[0] != "dns"@[0]);
    }
    assert("https"@ != "ssh"@ && "https"@ != "ftp"@ && "https"@ != "dns"@) by {
        assert("https"@.len() != "ssh"@.len() && "https"@.len() != "ftp"@.len());
        assert("https"@.len() != "dns"@.len());
    }
    assert("ssh"@ != "ftp"@ && "ssh"@ != "dns"@ && "ftp"@ != "dns"@) by {
        assert("ssh"@[0] != "ftp"@[0] && "ssh"@[0] != "dns"@[0] && "ftp"@[0] != "dns"@[0]);
    }
}

} // verus!
