//! The routing core: health table, load balancing, routing, connection
//! limits and the engine that holds them.
pub mod balancer;
pub mod builder;
pub mod health;
pub mod limits;
pub mod router;
pub mod sessions;
pub mod types;

use crate::engine::balancer::{build_fallback, build_pools, pool_status, status_entries, PoolView};
use crate::engine::builder::{
    check_duplicates, default_builder, names_duplicate, registry_of, route_targets, router_of,
    BuilderView, RefractiumBuilder,
};
use crate::engine::balancer::{has_duplicate_key, LoadBalancer};
use crate::errors::RefractiumError;
use crate::engine::health::{monitored, HealthMonitor};
use crate::engine::router::{fallback_route, outcome_view, route_data, RouteResult, Router, RouterView};
use crate::engine::types::{route_views, ProtocolRoute};
use crate::util::{assoc_map, concat, keys_unique, str_views};
use tokio_util::sync::CancellationToken;
use vstd::prelude::*;
use vstd::string::*;

verus! {

// ---------------------------------------------------------------------------
// Outside type and calls
// ---------------------------------------------------------------------------

/// The cancellation token of `tokio_util`, carried through unchanged.
#[verifier::external_type_specification]
#[verifier::external_body]
pub struct ExCancellationToken(CancellationToken);

/// Calls `CancellationToken::default`, which makes a new token in the
/// non-cancelled state. Nothing is claimed of the token.
#[verifier::external_body]
pub(crate) fn new_cancel_token() -> CancellationToken {
    CancellationToken::default()
}

/// Calls `CancellationToken::clone`: the clone shares the token's state, so
/// it is cancelled whenever the token is, and the other way round; the two
/// compare equal. The contract claims that the clone is the same token.
#[verifier::external_body]
fn clone_cancel_token(token: &CancellationToken) -> (r: CancellationToken)
    ensures
        r == *token,
{
    token.clone()
}

// ---------------------------------------------------------------------------
// Health report
// ---------------------------------------------------------------------------

/// The status word of a backend, coloured green (up) or red (down).
pub open spec fn status_word(up: bool) -> Seq<char> {
    if up {
        "\x1b[32mUP\x1b[0m"@
    } else {
        "\x1b[31mDOWN\x1b[0m"@
    }
}

/// One backend in a report line: `addr [STATUS]`.
pub open spec fn backend_text(b: (Seq<char>, bool)) -> Seq<char> {
    b.0 + " ["@ + status_word(b.1) + "]"@
}

/// The backends of a report line, separated by `, `.
pub open spec fn join_backends(bs: Seq<(Seq<char>, bool)>) -> Seq<char>
    decreases bs.len(),
{
    if bs.len() == 0 {
        Seq::empty()
    } else if bs.len() == 1 {
        backend_text(bs[0])
    } else {
        join_backends(bs.drop_last()) + ", "@ + backend_text(bs.last())
    }
}

/// The report line of one route key: `  key -> addr [STATUS], ...`.
pub open spec fn status_line(entry: (Seq<char>, Seq<(Seq<char>, bool)>)) -> Seq<char> {
    "  "@ + entry.0 + " -> "@ + join_backends(entry.1)
}

/// The report lines of some route keys.
pub open spec fn status_lines(entries: Seq<(Seq<char>, Seq<(Seq<char>, bool)>)>) -> Seq<Seq<char>> {
    entries.map_values(|e: (Seq<char>, Seq<(Seq<char>, bool)>)| status_line(e))
}

/// The lines of a section of the report: a header, then one line per route
/// key; nothing where there are no route keys.
pub open spec fn report_section(header: Seq<char>, entries: Seq<(Seq<char>, Seq<(Seq<char>, bool)>)>) -> Seq<
    Seq<char>,
> {
    if entries.len() == 0 {
        Seq::empty()
    } else {
        seq![header] + status_lines(entries)
    }
}

/// The lines of a health report: the TCP section, the UDP section and an
/// empty line.
pub open spec fn report_lines(
    tcp: Seq<(Seq<char>, Seq<(Seq<char>, bool)>)>,
    udp: Seq<(Seq<char>, Seq<(Seq<char>, bool)>)>,
) -> Seq<Seq<char>> {
    report_section("\n[TCP Backends]"@, tcp) + report_section("\n[UDP Backends]"@, udp) + seq![
        Seq::<char>::empty(),
    ]
}

/// Formats one report line.
pub fn format_status_line(key: &str, backends: &Vec<(String, bool)>) -> (r: String)
    ensures
        r@ == status_line((key@, crate::util::keyed(backends@))),
{
    let mut line = concat("  ", key);
    line.append(" -> ");
    let ghost head = line@;
    let mut i: usize = 0;
    let ghost kb = crate::util::keyed(backends@);
    assert(kb.subrange(0, 0) =~= Seq::<(Seq<char>, bool)>::empty());
    while i < backends.len()
        invariant
            i <= backends.len(),
            kb == crate::util::keyed(backends@),
            line@ == head + join_backends(kb.subrange(0, i as int)),
        decreases backends.len() - i,
    {
        if i > 0 {
            line.append(", ");
        }
        line.append(backends[i].0.as_str());
        line.append(" [");
        if backends[i].1 {
            line.append("\x1b[32mUP\x1b[0m");
        } else {
            line.append("\x1b[31mDOWN\x1b[0m");
        }
        line.append("]");
        assert(kb.subrange(0, i + 1).drop_last() =~= kb.subrange(0, i as int));
        assert(kb.subrange(0, i + 1).last() == kb[i as int]);
        if i == 0 {
            assert(kb.subrange(0, 1)[0] == kb[0]);
        }
        assert(line@ =~= head + join_backends(kb.subrange(0, i + 1)));
        i = i + 1;
    }
    assert(kb.subrange(0, backends@.len() as int) =~= kb);
    line
}

/// Formats the health report of the TCP and UDP status lists.
pub fn format_report(
    tcp: &Vec<(String, Vec<(String, bool)>)>,
    udp: &Vec<(String, Vec<(String, bool)>)>,
) -> (r: Vec<String>)
    ensures
        str_views(r@) == report_lines(status_entries(tcp@), status_entries(udp@)),
{
    let mut lines: Vec<String> = Vec::new();
    assert(str_views(lines@) =~= Seq::<Seq<char>>::empty());
    append_section(&mut lines, "\n[TCP Backends]", tcp);
    append_section(&mut lines, "\n[UDP Backends]", udp);
    lines.push(String::new());
    assert(str_views(lines@) =~= report_lines(status_entries(tcp@), status_entries(udp@)));
    lines
}

fn append_section(lines: &mut Vec<String>, header: &str, entries: &Vec<(String, Vec<(String, bool)>)>)
    ensures
        str_views(final(lines)@) == str_views(old(lines)@) + report_section(header@, status_entries(entries@)),
{
    if entries.len() == 0 {
        assert(str_views(lines@) =~= str_views(old(lines)@) + report_section(header@, status_entries(entries@)));
        return;
    }
    lines.push(String::from_str(header));
    let ghost base = str_views(lines@);
    let ghost se = status_entries(entries@);
    let mut i: usize = 0;
    while i < entries.len()
        invariant
            i <= entries.len(),
            se == status_entries(entries@),
            str_views(lines@) == base + status_lines(se).subrange(0, i as int),
        decreases entries.len() - i,
    {
        let line = format_status_line(entries[i].0.as_str(), &entries[i].1);
        assert(se[i as int] == (entries@[i as int].0@, crate::util::keyed(entries@[i as int].1@)));
        assert(line@ == status_line(se[i as int]));
        let ghost prev = lines@;
        lines.push(line);
        assert(str_views(lines@) =~= str_views(prev).push(line@));
        assert(status_lines(se).subrange(0, i + 1) =~= status_lines(se).subrange(0, i as int).push(line@));
        assert(str_views(lines@) =~= base + status_lines(se).subrange(0, i + 1));
        i = i + 1;
    }
    assert(status_lines(se).subrange(0, entries@.len() as int) =~= status_lines(se));
    assert(str_views(lines@) =~= str_views(old(lines)@) + report_section(header@, se));
}

// ---------------------------------------------------------------------------
// Engine
// ---------------------------------------------------------------------------

/// The content of a [`Refractium`] engine.
pub struct RefractiumView {
    /// The TCP router.
    pub tcp: RouterView,
    /// The UDP router.
    pub udp: RouterView,
    /// The health table.
    pub health: Map<Seq<char>, bool>,
    /// Peek buffer size in bytes.
    pub peek_buffer_size: usize,
    /// Peek timeout in milliseconds.
    pub peek_timeout_ms: u64,
    /// Cap on concurrent connections.
    pub max_connections: usize,
    /// Cap on concurrent connections per client IP.
    pub max_connections_per_ip: usize,
}

/// The engine: a router per transport, the health table of the backends and
/// the connection settings.
pub struct Refractium {
    pub(crate) router_tcp: Router,
    pub(crate) router_udp: Router,
    pub(crate) health: HealthMonitor,
    pub(crate) peek_buffer_size: usize,
    pub(crate) peek_timeout_ms: u64,
    pub(crate) max_connections: usize,
    pub(crate) max_connections_per_ip: usize,
    pub(crate) cancel_token: CancellationToken,
}

impl View for Refractium {
    type V = RefractiumView;

    closed spec fn view(&self) -> RefractiumView {
        RefractiumView {
            tcp: self.router_tcp@,
            udp: self.router_udp@,
            health: self.health@,
            peek_buffer_size: self.peek_buffer_size,
            peek_timeout_ms: self.peek_timeout_ms,
            max_connections: self.max_connections,
            max_connections_per_ip: self.max_connections_per_ip,
        }
    }
}

impl Refractium {
    /// The engine's internal invariant.
    pub closed spec fn wf(&self) -> bool {
        self.router_tcp.wf() && self.router_udp.wf() && self.health.wf()
    }

    /// A new builder with the default settings.
    pub fn builder() -> (r: RefractiumBuilder)
        ensures
            r@ == default_builder(),
    {
        RefractiumBuilder::new()
    }

    /// Replaces the routes of both transports: the routers (protocols and
    /// balancers) are rebuilt from the new routes, and every backend address
    /// of the new routes is monitored. Where two routes of a transport share a
    /// key, nothing changes and the error names it.
    pub fn reload_routes(&mut self, tcp: Vec<ProtocolRoute>, udp: Vec<ProtocolRoute>) -> (r: Result<(), RefractiumError>)
        requires
            old(self).wf(),
        ensures
            final(self).wf(),
            final(self).token() == old(self).token(),
            has_duplicate_key(route_views(tcp@)) ==> (r matches Err(e) && names_duplicate(e, route_views(tcp@))
                && final(self)@ == old(self)@),
            !has_duplicate_key(route_views(tcp@)) && has_duplicate_key(route_views(udp@)) ==> (r matches Err(e)
                && names_duplicate(e, route_views(udp@)) && final(self)@ == old(self)@),
            !has_duplicate_key(route_views(tcp@)) && !has_duplicate_key(route_views(udp@)) ==> r is Ok
                && final(self)@ == (RefractiumView {
                tcp: router_of(route_views(tcp@)),
                udp: router_of(route_views(udp@)),
                health: monitored(
                    old(self)@.health,
                    route_targets(route_views(tcp@)) + route_targets(route_views(udp@)),
                ),
                ..old(self)@
            }),
    {
        if let Some(e) = check_duplicates(&tcp) {
            return Err(e);
        }
        if let Some(e) = check_duplicates(&udp) {
            return Err(e);
        }
        let mut targets: Vec<String> = Vec::new();
        assert(str_views(targets@) =~= Seq::empty());
        crate::engine::builder::collect_targets(&tcp, &mut targets);
        crate::engine::builder::collect_targets(&udp, &mut targets);
        assert(Seq::<Seq<char>>::empty() + route_targets(route_views(tcp@)) + route_targets(route_views(udp@))
            =~= route_targets(route_views(tcp@)) + route_targets(route_views(udp@)));
        let reg_tcp = registry_of(&tcp);
        let reg_udp = registry_of(&udp);
        self.router_tcp = Router::new(reg_tcp, LoadBalancer::new(tcp));
        self.router_udp = Router::new(reg_udp, LoadBalancer::new(udp));
        self.health.start_monitoring(&targets);
        Ok(())
    }

    /// The engine's cancellation token: cancelling it stops the servers.
    pub closed spec fn token(&self) -> CancellationToken {
        self.cancel_token
    }

    /// A clone of the engine's cancellation token.
    pub fn cancel_token(&self) -> (r: CancellationToken)
        ensures
            r == self.token(),
    {
        clone_cancel_token(&self.cancel_token)
    }

    /// Routes initial TCP data; `None` while no protocol identifies it.
    pub fn route_tcp(&mut self, data: &[u8]) -> (r: Option<RouteResult>)
        requires
            old(self).wf(),
        ensures
            final(self).wf(),
            final(self).token() == old(self).token(),
            (outcome_view(r), final(self)@.tcp.balancer) == route_data(old(self)@.tcp, data@, old(self)@.health),
            final(self)@ == (RefractiumView { tcp: RouterView { balancer: final(self)@.tcp.balancer, ..old(self)@.tcp }, ..old(self)@ }),
    {
        self.router_tcp.route(data, &self.health)
    }

    /// Routes a UDP packet; `None` while no protocol identifies it.
    pub fn route_udp(&mut self, data: &[u8]) -> (r: Option<RouteResult>)
        requires
            old(self).wf(),
        ensures
            final(self).wf(),
            final(self).token() == old(self).token(),
            (outcome_view(r), final(self)@.udp.balancer) == route_data(old(self)@.udp, data@, old(self)@.health),
            final(self)@ == (RefractiumView { udp: RouterView { balancer: final(self)@.udp.balancer, ..old(self)@.udp }, ..old(self)@ }),
    {
        self.router_udp.route(data, &self.health)
    }

    /// Routes TCP traffic that could not be identified in time to the
    /// fallback backend.
    pub fn route_fallback_tcp(&mut self) -> (r: RouteResult)
        requires
            old(self).wf(),
        ensures
            final(self).wf(),
            final(self).token() == old(self).token(),
            (r@, final(self)@.tcp.balancer) == fallback_route(old(self)@.tcp.balancer, old(self)@.health),
            final(self)@ == (RefractiumView { tcp: RouterView { balancer: final(self)@.tcp.balancer, ..old(self)@.tcp }, ..old(self)@ }),
    {
        self.router_tcp.route_fallback(&self.health)
    }

    /// Routes UDP traffic that no protocol identifies to the fallback
    /// backend.
    pub fn route_fallback_udp(&mut self) -> (r: RouteResult)
        requires
            old(self).wf(),
        ensures
            final(self).wf(),
            final(self).token() == old(self).token(),
            (r@, final(self)@.udp.balancer) == fallback_route(old(self)@.udp.balancer, old(self)@.health),
            final(self)@ == (RefractiumView { udp: RouterView { balancer: final(self)@.udp.balancer, ..old(self)@.udp }, ..old(self)@ }),
    {
        self.router_udp.route_fallback(&self.health)
    }

    /// Records the outcome of a probe of a backend.
    pub fn set_backend_status(&mut self, addr: &str, up: bool)
        requires
            old(self).wf(),
        ensures
            final(self).wf(),
            final(self).token() == old(self).token(),
            final(self)@ == (RefractiumView { health: old(self)@.health.insert(addr@, up), ..old(self)@ }),
    {
        self.health.set_status(addr, up);
    }

    /// The monitored backend addresses, each once.
    pub fn health_targets(&self) -> (r: Vec<String>)
        requires
            self.wf(),
        ensures
            forall|a: Seq<char>| #[trigger] str_views(r@).contains(a) == self@.health.contains_key(a),
            forall|i: int, j: int| 0 <= i < j < r@.len() ==> r@[i]@ != r@[j]@,
    {
        self.health.targets()
    }

    /// The health status of the TCP and UDP backends, by route key.
    pub fn health_status(&self) -> (r: (Vec<(String, Vec<(String, bool)>)>, Vec<(String, Vec<(String, bool)>)>))
        requires
            self.wf(),
        ensures
            keys_unique(status_entries(r.0@)),
            assoc_map(status_entries(r.0@)) == self@.tcp.balancer.pools.map_values(
                |p: PoolView| pool_status(p, self@.health),
            ),
            keys_unique(status_entries(r.1@)),
            assoc_map(status_entries(r.1@)) == self@.udp.balancer.pools.map_values(
                |p: PoolView| pool_status(p, self@.health),
            ),
    {
        (self.router_tcp.get_health_status(&self.health), self.router_udp.get_health_status(&self.health))
    }

    /// The lines of a health report of all backends: a section per
    /// transport with backends, then an empty line.
    pub fn health_report(&self) -> (r: Vec<String>)
        requires
            self.wf(),
        ensures
            exists|tcp: Seq<(Seq<char>, Seq<(Seq<char>, bool)>)>, udp: Seq<(Seq<char>, Seq<(Seq<char>, bool)>)>|
                {
                    &&& keys_unique(tcp)
                    &&& assoc_map(tcp) == self@.tcp.balancer.pools.map_values(
                        |p: PoolView| pool_status(p, self@.health),
                    )
                    &&& keys_unique(udp)
                    &&& assoc_map(udp) == self@.udp.balancer.pools.map_values(
                        |p: PoolView| pool_status(p, self@.health),
                    )
                    &&& str_views(r@) == report_lines(tcp, udp)
                },
    {
        let (tcp, udp) = self.health_status();
        format_report(&tcp, &udp)
    }

    /// The peek buffer size in bytes.
    pub fn peek_buffer_size(&self) -> (r: usize)
        ensures
            r == self@.peek_buffer_size,
    {
        self.peek_buffer_size
    }

    /// The peek timeout in milliseconds.
    pub fn peek_timeout_ms(&self) -> (r: u64)
        ensures
            r == self@.peek_timeout_ms,
    {
        self.peek_timeout_ms
    }

    /// The cap on concurrent connections.
    pub fn max_connections(&self) -> (r: usize)
        ensures
            r == self@.max_connections,
    {
        self.max_connections
    }

    /// The cap on concurrent connections per client IP.
    pub fn max_connections_per_ip(&self) -> (r: usize)
        ensures
            r == self@.max_connections_per_ip,
    {
        self.max_connections_per_ip
    }
}

} // verus!
