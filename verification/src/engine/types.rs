//! Types shared by the routing core, the protocol identifiers and the
//! configuration code.
use crate::protocols::{Protocol, ProtocolView};
use crate::util::{copy_string, copy_strings, opt_view, str_views};
use vstd::prelude::*;

verus! {

/// Supported transport layer protocols.
#[derive(Debug, Clone, Copy, PartialEq, Eq, Structural)]
pub enum Transport {
    /// Transmission Control Protocol (stream based).
    Tcp,
    /// User Datagram Protocol (packet based).
    Udp,
    /// The protocol can operate over both TCP and UDP.
    Both,
}

/// The result of a successful protocol identification.
pub struct ProtocolMatch {
    /// The canonical name of the identified protocol (e.g. "http").
    pub name: String,
    /// Optional metadata taken from the initial bytes (e.g. an SNI hostname).
    pub metadata: Option<String>,
    /// The protocol that identified the traffic.
    pub implementation: Protocol,
}

/// The mathematical content of a [`ProtocolMatch`].
pub struct MatchView {
    /// The matched protocol's name.
    pub name: Seq<char>,
    /// The extracted metadata.
    pub metadata: Option<Seq<char>>,
    /// The protocol that identified the traffic.
    pub implementation: ProtocolView,
}

impl View for ProtocolMatch {
    type V = MatchView;

    open spec fn view(&self) -> MatchView {
        MatchView {
            name: self.name@,
            metadata: opt_view(self.metadata),
            implementation: self.implementation@,
        }
    }
}

/// The view of an optional match.
pub open spec fn match_view(m: Option<ProtocolMatch>) -> Option<MatchView> {
    match m {
        Some(m) => Some(m@),
        None => None,
    }
}

/// The destination backend(s) of a protocol route.
#[derive(Debug)]
pub enum ForwardTarget {
    /// A single backend address (e.g. `"127.0.0.1:8080"`).
    Single(String),
    /// Several backend addresses for load balancing.
    Multiple(Vec<String>),
}

/// The content of a destination: one address, or a list of them.
pub enum TargetView {
    /// One address.
    Single(Seq<char>),
    /// A list of addresses.
    Multiple(Seq<Seq<char>>),
}

impl TargetView {
    /// The addresses, in order.
    pub open spec fn addresses(self) -> Seq<Seq<char>> {
        match self {
            TargetView::Single(s) => seq![s],
            TargetView::Multiple(v) => v,
        }
    }
}

impl View for ForwardTarget {
    type V = TargetView;

    open spec fn view(&self) -> TargetView {
        match self {
            ForwardTarget::Single(s) => TargetView::Single(s@),
            ForwardTarget::Multiple(v) => TargetView::Multiple(str_views(v@)),
        }
    }
}

impl ForwardTarget {
    /// The backend addresses, in order.
    pub open spec fn addresses(&self) -> Seq<Seq<char>> {
        match self {
            ForwardTarget::Single(s) => seq![s@],
            ForwardTarget::Multiple(v) => str_views(v@),
        }
    }

    /// Converts the target into a vector of address strings.
    pub fn to_vec(&self) -> (r: Vec<String>)
        ensures
            str_views(r@) == self.addresses(),
    {
        match self {
            ForwardTarget::Single(s) => {
                let mut v: Vec<String> = Vec::new();
                v.push(copy_string(s));
                assert(str_views(v@) =~= seq![s@]);
                v
            },
            ForwardTarget::Multiple(v) => copy_strings(v),
        }
    }

    /// A copy of this target.
    pub fn duplicate(&self) -> (r: ForwardTarget)
        ensures
            r@ == self@,
            r.addresses() == self.addresses(),
    {
        match self {
            ForwardTarget::Single(s) => ForwardTarget::Single(copy_string(s)),
            ForwardTarget::Multiple(v) => ForwardTarget::Multiple(copy_strings(v)),
        }
    }
}

/// A routing rule that associates a protocol with a destination.
pub struct ProtocolRoute {
    /// The logic used to identify the protocol.
    pub protocol: Protocol,
    /// Optional Server Name Indication; when set, the route only serves
    /// traffic whose identification carried this hostname.
    pub sni: Option<String>,
    /// Where to forward the traffic upon a match.
    pub forward_to: ForwardTarget,
}

/// The mathematical content of a [`ProtocolRoute`].
pub struct RouteView {
    /// The route's protocol.
    pub protocol: ProtocolView,
    /// The SNI filter.
    pub sni: Option<Seq<char>>,
    /// The backend addresses.
    pub addresses: Seq<Seq<char>>,
}

impl View for ProtocolRoute {
    type V = RouteView;

    open spec fn view(&self) -> RouteView {
        RouteView {
            protocol: self.protocol@,
            sni: opt_view(self.sni),
            addresses: self.forward_to.addresses(),
        }
    }
}

/// The views of a list of routes.
pub open spec fn route_views(v: Seq<ProtocolRoute>) -> Seq<RouteView> {
    v.map_values(|r: ProtocolRoute| r@)
}

/// Full configuration state used by the engine.
#[derive(Debug)]
pub struct ProxyConfig {
    /// The interface address to bind to (e.g. `"0.0.0.0"`).
    pub bind: String,
    /// The port to listen on.
    pub port: u16,
    /// Maximum size of the peek buffer in bytes.
    pub peek_buffer_size: usize,
    /// Maximum time in milliseconds to wait for identification data.
    pub peek_timeout_ms: u64,
    /// Maximum number of concurrent connections.
    pub max_connections: usize,
    /// Maximum number of concurrent connections from a single IP.
    pub max_connections_per_ip: usize,
    /// Whether to watch the configuration file for changes.
    pub hot_reload: bool,
    /// The defined protocol routes.
    pub protocols: Vec<TomlRouteData>,
    /// Default backend for unidentified TCP traffic.
    pub fallback_tcp: Option<String>,
    /// Default backend for unidentified UDP traffic.
    pub fallback_udp: Option<String>,
}

/// The content of a [`TomlRouteData`].
pub struct RouteDataView {
    /// Protocol name.
    pub name: Seq<char>,
    /// SNI filter.
    pub sni: Option<Seq<char>>,
    /// Byte patterns.
    pub patterns: Option<Seq<Seq<char>>>,
    /// Destination.
    pub forward_to: TargetView,
    /// Transport.
    pub transport: Transport,
}

/// The view of optional patterns.
pub open spec fn patterns_view(p: Option<Vec<String>>) -> Option<Seq<Seq<char>>> {
    match p {
        Some(v) => Some(str_views(v@)),
        None => None,
    }
}

impl View for TomlRouteData {
    type V = RouteDataView;

    open spec fn view(&self) -> RouteDataView {
        RouteDataView {
            name: self.name@,
            sni: opt_view(self.sni),
            patterns: patterns_view(self.patterns),
            forward_to: self.forward_to@,
            transport: self.transport,
        }
    }
}

/// The content of a [`ProxyConfig`].
pub struct ProxyView {
    /// Bind address.
    pub bind: Seq<char>,
    /// Port.
    pub port: u16,
    /// Peek buffer size.
    pub peek_buffer_size: usize,
    /// Peek timeout.
    pub peek_timeout_ms: u64,
    /// Connection cap.
    pub max_connections: usize,
    /// Per-IP connection cap.
    pub max_connections_per_ip: usize,
    /// Hot reload.
    pub hot_reload: bool,
    /// Routes.
    pub protocols: Seq<RouteDataView>,
    /// TCP fallback.
    pub fallback_tcp: Option<Seq<char>>,
    /// UDP fallback.
    pub fallback_udp: Option<Seq<char>>,
}

/// The views of a list of route data.
pub open spec fn route_data_views(v: Seq<TomlRouteData>) -> Seq<RouteDataView> {
    v.map_values(|r: TomlRouteData| r@)
}

impl View for ProxyConfig {
    type V = ProxyView;

    open spec fn view(&self) -> ProxyView {
        ProxyView {
            bind: self.bind@,
            port: self.port,
            peek_buffer_size: self.peek_buffer_size,
            peek_timeout_ms: self.peek_timeout_ms,
            max_connections: self.max_connections,
            max_connections_per_ip: self.max_connections_per_ip,
            hot_reload: self.hot_reload,
            protocols: route_data_views(self.protocols@),
            fallback_tcp: opt_view(self.fallback_tcp),
            fallback_udp: opt_view(self.fallback_udp),
        }
    }
}

/// Route data as read from the configuration file or the command line.
#[derive(Debug)]
pub struct TomlRouteData {
    /// Name of the protocol to match.
    pub name: String,
    /// Optional SNI filter.
    pub sni: Option<String>,
    /// Optional byte patterns used for identification.
    pub patterns: Option<Vec<String>>,
    /// Destination backend(s).
    pub forward_to: ForwardTarget,
    /// Transport type.
    pub transport: Transport,
}

} // verus!
