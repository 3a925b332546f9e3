//! The configuration file's content, its defaults, the command-line
//! overrides merged into it and the security checks on the result.
use crate::commands::{Cli, CliView};
use crate::engine::types::{
    patterns_view, route_data_views, ForwardTarget, ProxyConfig, ProxyView, RouteDataView,
    TargetView, TomlRouteData, Transport,
};
use crate::util::{
    ascii_lower, assoc_get, is_ascii_text, copy_opt_string, copy_string, copy_strings, find_key, has_key, is_first_key,
    key_index, keyed, keys_unique, lemma_assoc_push, lemma_assoc_update, lemma_key_index,
    lemma_same_keys, opt_view, str_views,
};
use vstd::prelude::*;

verus! {

// ---------------------------------------------------------------------------
// Outside calls
// ---------------------------------------------------------------------------

/// The lowercase form that `str::to_lowercase` gives a text.
pub uninterp spec fn lowercase(s: Seq<char>) -> Seq<char>;

/// Calls `str::to_lowercase`. The contract names its result `lowercase` of
/// the input; of ASCII text, whose lowercase form std documents as each
/// uppercase letter made lowercase, it states that form.
#[verifier::external_body]
fn to_lowercase(s: &str) -> (r: String)
    ensures
        r@ == lowercase(s@),
        is_ascii_text(s@) ==> r@ == ascii_lower(s@),
{
    s.to_lowercase()
}

/// The lowercase form of a name: ASCII uppercase letters made lowercase for
/// ASCII text, otherwise what `str::to_lowercase` makes of it.
pub open spec fn lower_name(s: Seq<char>) -> Seq<char> {
    if is_ascii_text(s) {
        ascii_lower(s)
    } else {
        lowercase(s)
    }
}

/// Calls `str::split_once` with the separator `=`: where the text holds `=`,
/// the parts before and after its first occurrence, otherwise `None`.
#[verifier::external_body]
fn split_once_eq(s: &str) -> (r: Option<(&str, &str)>)
    ensures
        match r {
            Some((a, b)) => s@ == a@ + seq!['='] + b@ && !a@.contains('='),
            None => !s@.contains('='),
        },
{
    s.split_once('=')
}

// ---------------------------------------------------------------------------
// Types
// ---------------------------------------------------------------------------

/// Server settings.
#[derive(Debug)]
pub struct ServerConfig {
    /// Address to bind to.
    pub bind: String,
    /// Port to listen on.
    pub port: u16,
    /// Peek buffer size in bytes.
    pub peek_buffer_size: usize,
    /// Peek timeout in milliseconds.
    pub peek_timeout_ms: u64,
    /// Cap on concurrent connections.
    pub max_connections: usize,
    /// Cap on concurrent connections per client IP.
    pub max_connections_per_ip: usize,
    /// Whether to watch the configuration file for changes.
    pub hot_reload: bool,
}

/// The content of a [`ServerConfig`].
pub struct ServerView {
    /// Bind address.
    pub bind: Seq<char>,
    /// Port.
    pub port: u16,
    /// Peek buffer size.
    pub peek_buffer_size: usize,
    /// Peek timeout.
    pub peek_timeout_ms: u64,
    /// Connection cap.
    pub max_connections: usize,
    /// Per-IP connection cap.
    pub max_connections_per_ip: usize,
    /// Hot reload.
    pub hot_reload: bool,
}

impl View for ServerConfig {
    type V = ServerView;

    open spec fn view(&self) -> ServerView {
        ServerView {
            bind: self.bind@,
            port: self.port,
            peek_buffer_size: self.peek_buffer_size,
            peek_timeout_ms: self.peek_timeout_ms,
            max_connections: self.max_connections,
            max_connections_per_ip: self.max_connections_per_ip,
            hot_reload: self.hot_reload,
        }
    }
}

/// A destination as written in the configuration: one address or a list.
#[derive(Debug)]
pub enum TomlTarget {
    /// One address.
    Single(String),
    /// A list of addresses.
    Multiple(Vec<String>),
}

impl View for TomlTarget {
    type V = TargetView;

    open spec fn view(&self) -> TargetView {
        match self {
            TomlTarget::Single(s) => TargetView::Single(s@),
            TomlTarget::Multiple(v) => TargetView::Multiple(str_views(v@)),
        }
    }
}

/// A route as written in the configuration.
#[derive(Debug)]
pub struct TomlRoute {
    /// Protocol name (lowercase).
    pub name: String,
    /// Optional SNI filter.
    pub sni: Option<String>,
    /// Optional byte patterns.
    pub patterns: Option<Vec<String>>,
    /// Destination.
    pub forward_to: TomlTarget,
    /// Transport.
    pub transport: Transport,
}

impl View for TomlRoute {
    type V = RouteDataView;

    open spec fn view(&self) -> RouteDataView {
        RouteDataView {
            name: self.name@,
            sni: opt_view(self.sni),
            patterns: patterns_view(self.patterns),
            forward_to: self.forward_to@,
            transport: self.transport,
        }
    }
}

/// The views of a list of routes.
pub open spec fn toml_route_views(v: Seq<TomlRoute>) -> Seq<RouteDataView> {
    v.map_values(|r: TomlRoute| r@)
}

/// The content of the configuration file.
#[derive(Debug)]
pub struct TomlConfig {
    /// Server settings.
    pub server: ServerConfig,
    /// Routes.
    pub protocols: Vec<TomlRoute>,
    /// Default backend for unidentified TCP traffic.
    pub fallback_tcp: Option<String>,
    /// Default backend for unidentified UDP traffic.
    pub fallback_udp: Option<String>,
}

/// The content of a [`TomlConfig`].
pub struct ConfigView {
    /// Server settings.
    pub server: ServerView,
    /// Routes.
    pub protocols: Seq<RouteDataView>,
    /// TCP fallback.
    pub fallback_tcp: Option<Seq<char>>,
    /// UDP fallback.
    pub fallback_udp: Option<Seq<char>>,
}

impl View for TomlConfig {
    type V = ConfigView;

    open spec fn view(&self) -> ConfigView {
        ConfigView {
            server: self.server@,
            protocols: toml_route_views(self.protocols@),
            fallback_tcp: opt_view(self.fallback_tcp),
            fallback_udp: opt_view(self.fallback_udp),
        }
    }
}

/// A security concern about the server settings.
#[derive(Debug, Clone, Copy, PartialEq, Eq, Structural)]
pub enum ConfigWarning {
    /// The peek timeout (ms) exceeds 5000: slow clients can hold connections.
    SlowPeekTimeout(u64),
    /// The per-IP cap exceeds 200.
    HighPerIpLimit(usize),
    /// The per-IP cap is at least the global cap, which is positive: one IP
    /// can saturate the server.
    PerIpNotBelowTotal,
}

// ---------------------------------------------------------------------------
// Defaults
// ---------------------------------------------------------------------------

/// The default peek buffer size: 1024 bytes.
pub fn default_peek_buffer() -> (r: usize)
    ensures
        r == 1024,
{
    1024
}

/// The default peek timeout: 3000 ms.
pub fn default_peek_timeout() -> (r: u64)
    ensures
        r == 3000,
{
    3000
}

/// The default cap on concurrent connections: 10000.
pub fn default_max_connections() -> (r: usize)
    ensures
        r == 10000,
{
    10000
}

/// The default cap on concurrent connections per client IP: 50.
pub fn default_max_conns_per_ip() -> (r: usize)
    ensures
        r == 50,
{
    50
}

/// Hot reload is on by default.
pub fn default_hot_reload() -> (r: bool)
    ensures
        r == true,
{
    true
}

/// Routes run over both transports by default.
pub fn default_transport() -> (r: Transport)
    ensures
        r == Transport::Both,
{
    Transport::Both
}

/// Whether a peek buffer size is the default one.
pub fn is_default_buffer(sz: &usize) -> (r: bool)
    ensures
        r == (*sz == 1024),
{
    *sz == default_peek_buffer()
}

/// Whether a peek timeout is the default one.
pub fn is_default_timeout(ms: &u64) -> (r: bool)
    ensures
        r == (*ms == 3000),
{
    *ms == default_peek_timeout()
}

/// Whether a connection cap is the default one.
pub fn is_default_connections(sz: &usize) -> (r: bool)
    ensures
        r == (*sz == 10000),
{
    *sz == default_max_connections()
}

/// Whether a per-IP connection cap is the default one.
pub fn is_default_max_conns_per_ip(sz: &usize) -> (r: bool)
    ensures
        r == (*sz == 50),
{
    *sz == default_max_conns_per_ip()
}

/// Whether a transport is the default one.
pub fn is_default_transport(t: &Transport) -> (r: bool)
    ensures
        r == (*t == Transport::Both),
{
    *t == default_transport()
}

/// The default configuration: bind `0.0.0.0`, port 8080, the default
/// limits, hot reload on, no routes and no fallbacks.
pub open spec fn default_config() -> ConfigView {
    ConfigView {
        server: ServerView {
            bind: "0.0.0.0"@,
            port: 8080,
            peek_buffer_size: 1024,
            peek_timeout_ms: 3000,
            max_connections: 10000,
            max_connections_per_ip: 50,
            hot_reload: true,
        },
        protocols: Seq::empty(),
        fallback_tcp: None,
        fallback_udp: None,
    }
}

impl Default for TomlConfig {
    fn default() -> (r: TomlConfig)
        ensures
            r@ == default_config(),
    {
        let r = TomlConfig {
            server: ServerConfig {
                bind: String::from_str("0.0.0.0"),
                port: 8080,
                peek_buffer_size: default_peek_buffer(),
                peek_timeout_ms: default_peek_timeout(),
                max_connections: default_max_connections(),
                max_connections_per_ip: default_max_conns_per_ip(),
                hot_reload: default_hot_reload(),
            },
            protocols: Vec::new(),
            fallback_tcp: None,
            fallback_udp: None,
        };
        assert(toml_route_views(r.protocols@) =~= Seq::empty());
        r
    }
}

// ---------------------------------------------------------------------------
// Command-line overrides
// ---------------------------------------------------------------------------

/// The parts of a text around its first `=`, if it holds one.
pub open spec fn split_eq(s: Seq<char>) -> Option<(Seq<char>, Seq<char>)> {
    if s.contains('=') {
        let i = choose|i: int| 0 <= i < s.len() && s[i] == '=' && forall|j: int| 0 <= j < i ==> s[j] != '=';
        Some((s.subrange(0, i), s.subrange(i + 1, s.len() as int)))
    } else {
        None
    }
}

proof fn lemma_split_eq(s: Seq<char>, a: Seq<char>, b: Seq<char>)
    requires
        s == a + seq!['='] + b,
        !a.contains('='),
    ensures
        split_eq(s) == Some((a, b)),
{
    let k = a.len() as int;
    assert(s[k] == '=');
    assert forall|j: int| 0 <= j < k implies s[j] != '=' by {
        assert(s[j] == a[j]);
    }
    let i = choose|i: int| 0 <= i < s.len() && s[i] == '=' && forall|j: int| 0 <= j < i ==> s[j] != '=';
    if i < k {
        assert(s[i] == a[i]);
    }
    assert(i == k);
    assert(s.subrange(0, k) =~= a);
    assert(s.subrange(k + 1, s.len() as int) =~= b);
}

/// Adds `addr` to the group of `name`, creating the group at the end if
/// there is none yet.
pub open spec fn group_forward(groups: Seq<(Seq<char>, Seq<Seq<char>>)>, name: Seq<char>, addr: Seq<char>) -> Seq<
    (Seq<char>, Seq<Seq<char>>),
> {
    match key_index(groups, name) {
        Some(i) => groups.update(i, (name, groups[i].1.push(addr))),
        None => groups.push((name, seq![addr])),
    }
}

/// The inline rules grouped by lowercase protocol name, groups in the order
/// of their first rule, addresses in rule order; rules without `=` are
/// ignored.
pub open spec fn forward_groups(rules: Seq<Seq<char>>) -> Seq<(Seq<char>, Seq<Seq<char>>)>
    decreases rules.len(),
{
    if rules.len() == 0 {
        Seq::empty()
    } else {
        let g = forward_groups(rules.drop_last());
        match split_eq(rules.last()) {
            Some((name, addr)) => group_forward(g, lower_name(name), addr),
            None => g,
        }
    }
}

/// The destination of a group: a single address, or the list of them.
pub open spec fn group_target(addrs: Seq<Seq<char>>) -> TargetView {
    if addrs.len() == 1 {
        TargetView::Single(addrs[0])
    } else {
        TargetView::Multiple(addrs)
    }
}

/// Routes keyed by their names.
pub open spec fn named(routes: Seq<RouteDataView>) -> Seq<(Seq<char>, RouteDataView)> {
    routes.map_values(|r: RouteDataView| (r.name, r))
}

/// Applies a group: the first route with its name is sent to its
/// destination; where there is none, a route over both transports is added.
pub open spec fn apply_group(routes: Seq<RouteDataView>, g: (Seq<char>, Seq<Seq<char>>)) -> Seq<RouteDataView> {
    match key_index(named(routes), g.0) {
        Some(i) => routes.update(i, RouteDataView { forward_to: group_target(g.1), ..routes[i] }),
        None => routes.push(
            RouteDataView {
                name: g.0,
                sni: None,
                patterns: None,
                forward_to: group_target(g.1),
                transport: Transport::Both,
            },
        ),
    }
}

/// Applies the groups in order.
pub open spec fn apply_groups(routes: Seq<RouteDataView>, groups: Seq<(Seq<char>, Seq<Seq<char>>)>) -> Seq<
    RouteDataView,
>
    decreases groups.len(),
{
    if groups.len() == 0 {
        routes
    } else {
        apply_group(apply_groups(routes, groups.drop_last()), groups.last())
    }
}

/// A configuration with the command line merged in: the bind address, the
/// port, the peek settings, the connection cap and hot reload where given,
/// and the inline routing rules.
pub open spec fn merge_cli(c: ConfigView, cli: CliView) -> ConfigView {
    ConfigView {
        server: ServerView {
            bind: match cli.bind {
                Some(b) => b,
                None => c.server.bind,
            },
            port: match cli.port {
                Some(p) => p,
                None => c.server.port,
            },
            peek_buffer_size: match cli.peek_buffer {
                Some(x) => x,
                None => c.server.peek_buffer_size,
            },
            peek_timeout_ms: match cli.peek_timeout {
                Some(x) => x,
                None => c.server.peek_timeout_ms,
            },
            max_connections: match cli.max_connections {
                Some(x) => x,
                None => c.server.max_connections,
            },
            max_connections_per_ip: c.server.max_connections_per_ip,
            hot_reload: if cli.no_hot_reload {
                false
            } else {
                c.server.hot_reload
            },
        },
        protocols: apply_groups(c.protocols, forward_groups(cli.forward)),
        fallback_tcp: c.fallback_tcp,
        fallback_udp: c.fallback_udp,
    }
}

/// The security warnings about some server settings, in a fixed order.
pub open spec fn warnings_of(s: ServerView) -> Seq<ConfigWarning> {
    (if s.peek_timeout_ms > 5000 {
        seq![ConfigWarning::SlowPeekTimeout(s.peek_timeout_ms)]
    } else {
        Seq::empty()
    }) + (if s.max_connections_per_ip > 200 {
        seq![ConfigWarning::HighPerIpLimit(s.max_connections_per_ip)]
    } else {
        Seq::empty()
    }) + (if s.max_connections_per_ip >= s.max_connections && s.max_connections > 0 {
        seq![ConfigWarning::PerIpNotBelowTotal]
    } else {
        Seq::empty()
    })
}

/// The engine configuration of a configuration file's content.
pub open spec fn proxy_of(c: ConfigView) -> ProxyView {
    ProxyView {
        bind: c.server.bind,
        port: c.server.port,
        peek_buffer_size: c.server.peek_buffer_size,
        peek_timeout_ms: c.server.peek_timeout_ms,
        max_connections: c.server.max_connections,
        max_connections_per_ip: c.server.max_connections_per_ip,
        hot_reload: c.server.hot_reload,
        protocols: c.protocols,
        fallback_tcp: c.fallback_tcp,
        fallback_udp: c.fallback_udp,
    }
}

/// The content of a list of groups.
pub open spec fn group_views(g: Seq<(String, Vec<String>)>) -> Seq<(Seq<char>, Seq<Seq<char>>)> {
    g.map_values(|x: (String, Vec<String>)| (x.0@, str_views(x.1@)))
}

/// Adds `addr` to the group of `name`.
fn add_to_group(groups: &mut Vec<(String, Vec<String>)>, name: String, addr: &str)
    ensures
        group_views(final(groups)@) == group_forward(group_views(old(groups)@), name@, addr@),
{
    proof {
        lemma_same_keys(keyed(groups@), group_views(groups@));
        lemma_key_index(group_views(groups@), name@);
    }
    match find_key(groups, name.as_str()) {
        Some(j) => {
            let ghost g0 = group_views(groups@);
            let (k, mut v) = groups.remove(j);
            assert(k@ == name@);
            assert(g0[j as int] == (k@, str_views(v@)));
            let ghost v0 = v@;
            v.push(String::from_str(addr));
            assert(str_views(v@) =~= str_views(v0).push(addr@));
            groups.insert(j, (k, v));
            assert(group_views(groups@) =~= g0.update(j as int, (name@, g0[j as int].1.push(addr@))));
            assert(group_views(groups@) =~= group_forward(group_views(old(groups)@), name@, addr@));
        },
        None => {
            let mut v: Vec<String> = Vec::new();
            v.push(String::from_str(addr));
            assert(str_views(v@) =~= seq![addr@]);
            groups.push((name, v));
            assert(group_views(groups@) =~= group_forward(group_views(old(groups)@), name@, addr@));
        },
    }
}

/// Groups the inline routing rules by lowercase protocol name.
fn group_rules(rules: &Vec<String>) -> (r: Vec<(String, Vec<String>)>)
    ensures
        group_views(r@) == forward_groups(str_views(rules@)),
{
    let mut groups: Vec<(String, Vec<String>)> = Vec::new();
    let ghost rv = str_views(rules@);
    assert(group_views(groups@) =~= forward_groups(rv.subrange(0, 0)));
    let mut i: usize = 0;
    while i < rules.len()
        invariant
            i <= rules.len(),
            rv == str_views(rules@),
            group_views(groups@) == forward_groups(rv.subrange(0, i as int)),
        decreases rules.len() - i,
    {
        let rule: &str = rules[i].as_str();
        assert(rv.subrange(0, i + 1).drop_last() =~= rv.subrange(0, i as int));
        assert(rv.subrange(0, i + 1).last() == rule@);
        match split_once_eq(rule) {
            Some((n, a)) => {
                proof {
                    lemma_split_eq(rule@, n@, a@);
                }
                add_to_group(&mut groups, to_lowercase(n), a);
            },
            None => {},
        }
        i = i + 1;
    }
    assert(rv.subrange(0, rules@.len() as int) =~= rv);
    groups
}

/// Finds the first route named `name`.
fn find_route(routes: &Vec<TomlRoute>, name: &str) -> (r: Option<usize>)
    ensures
        match r {
            Some(i) => is_first_key(named(toml_route_views(routes@)), name@, i as int),
            None => !has_key(named(toml_route_views(routes@)), name@),
        },
{
    let mut i: usize = 0;
    while i < routes.len()
        invariant
            i <= routes.len(),
            forall|j: int| 0 <= j < i ==> named(toml_route_views(routes@))[j].0 != name@,
        decreases routes.len() - i,
    {
        if crate::util::str_eq(routes[i].name.as_str(), name) {
            return Some(i);
        }
        i = i + 1;
    }
    None
}

/// The destination of a group.
fn target_of(addrs: Vec<String>) -> (r: TomlTarget)
    ensures
        r@ == group_target(str_views(addrs@)),
{
    if addrs.len() == 1 {
        TomlTarget::Single(addrs[0].clone())
    } else {
        TomlTarget::Multiple(addrs)
    }
}

/// Applies the groups to the routes, in order.
fn apply_rule_groups(routes: &mut Vec<TomlRoute>, groups: &Vec<(String, Vec<String>)>)
    ensures
        toml_route_views(final(routes)@) == apply_groups(toml_route_views(old(routes)@), group_views(groups@)),
{
    let ghost gv = group_views(groups@);
    let mut i: usize = 0;
    assert(apply_groups(toml_route_views(routes@), gv.subrange(0, 0)) == toml_route_views(routes@));
    while i < groups.len()
        invariant
            i <= groups.len(),
            gv == group_views(groups@),
            toml_route_views(routes@) == apply_groups(toml_route_views(old(routes)@), gv.subrange(0, i as int)),
        decreases groups.len() - i,
    {
        let ghost before = routes@;
        let name: &String = &groups[i].0;
        let addrs = copy_strings(&groups[i].1);
        let ghost g = (name@, str_views(addrs@));
        assert(g == gv[i as int]);
        assert(gv.subrange(0, i + 1).drop_last() =~= gv.subrange(0, i as int));
        let target = target_of(addrs);
        match find_route(routes, name.as_str()) {
            Some(j) => {
                proof {
                    lemma_key_index(named(toml_route_views(routes@)), name@);
                }
                let old_route = routes.remove(j);
                let updated = TomlRoute {
                    name: old_route.name,
                    sni: old_route.sni,
                    patterns: old_route.patterns,
                    forward_to: target,
                    transport: old_route.transport,
                };
                routes.insert(j, updated);
                assert(toml_route_views(routes@) =~= apply_group(toml_route_views(before), g));
            },
            None => {
                proof {
                    lemma_key_index(named(toml_route_views(routes@)), name@);
                }
                routes.push(
                    TomlRoute {
                        name: copy_string(name),
                        sni: None,
                        patterns: None,
                        forward_to: target,
                        transport: Transport::Both,
                    },
                );
                assert(toml_route_views(routes@) =~= apply_group(toml_route_views(before), g));
            },
        }
        i = i + 1;
    }
    assert(gv.subrange(0, gv.len() as int) =~= gv);
}

impl TomlConfig {
    /// Merges the command-line settings into this configuration.
    pub fn merge_cli(self, cli: &Cli) -> (r: TomlConfig)
        ensures
            r@ == merge_cli(self@, cli@),
    {
        let mut c = self;
        if let Some(b) = &cli.bind {
            c.server.bind = copy_string(b);
        }
        if let Some(p) = cli.port {
            c.server.port = p;
        }
        if let Some(pb) = cli.peek_buffer {
            c.server.peek_buffer_size = pb;
        }
        if let Some(pt) = cli.peek_timeout {
            c.server.peek_timeout_ms = pt;
        }
        if let Some(mc) = cli.max_connections {
            c.server.max_connections = mc;
        }
        if cli.no_hot_reload {
            c.server.hot_reload = false;
        }
        let groups = group_rules(&cli.forward);
        apply_rule_groups(&mut c.protocols, &groups);
        c
    }

    /// The security warnings about the server settings.
    pub fn validate(&self) -> (r: Vec<ConfigWarning>)
        ensures
            r@ == warnings_of(self@.server),
    {
        let mut r: Vec<ConfigWarning> = Vec::new();
        if self.server.peek_timeout_ms > 5000 {
            r.push(ConfigWarning::SlowPeekTimeout(self.server.peek_timeout_ms));
        }
        if self.server.max_connections_per_ip > 200 {
            r.push(ConfigWarning::HighPerIpLimit(self.server.max_connections_per_ip));
        }
        if self.server.max_connections_per_ip >= self.server.max_connections
            && self.server.max_connections > 0 {
            r.push(ConfigWarning::PerIpNotBelowTotal);
        }
        assert(r@ =~= warnings_of(self@.server));
        r
    }

    /// Converts this configuration into the engine's configuration.
    pub fn into_proxy_config(self) -> (r: ProxyConfig)
        ensures
            r@ == proxy_of(self@),
    {
        let mut protocols: Vec<TomlRouteData> = Vec::new();
        let ghost all = toml_route_views(self.protocols@);
        let mut i: usize = 0;
        while i < self.protocols.len()
            invariant
                i <= self.protocols.len(),
                all == toml_route_views(self.protocols@),
                route_data_views(protocols@) == all.subrange(0, i as int),
            decreases self.protocols.len() - i,
        {
            let r = &self.protocols[i];
            let ghost before = protocols@;
            let forward_to = match &r.forward_to {
                TomlTarget::Single(a) => ForwardTarget::Single(copy_string(a)),
                TomlTarget::Multiple(v) => ForwardTarget::Multiple(copy_strings(v)),
            };
            let patterns = match &r.patterns {
                Some(p) => Some(copy_strings(p)),
                None => None,
            };
            protocols.push(
                TomlRouteData {
                    name: copy_string(&r.name),
                    sni: copy_opt_string(&r.sni),
                    patterns,
                    forward_to,
                    transport: r.transport,
                },
            );
            assert(protocols@.last()@ == all[i as int]);
            assert(route_data_views(protocols@) =~= route_data_views(before).push(all[i as int]));
            assert(route_data_views(protocols@) =~= all.subrange(0, i + 1));
            i = i + 1;
        }
        assert(all.subrange(0, all.len() as int) =~= all);
        ProxyConfig {
            bind: self.server.bind,
            port: self.server.port,
            peek_buffer_size: self.server.peek_buffer_size,
            peek_timeout_ms: self.server.peek_timeout_ms,
            max_connections: self.server.max_connections,
            max_connections_per_ip: self.server.max_connections_per_ip,
            hot_reload: self.server.hot_reload,
            protocols,
            fallback_tcp: self.fallback_tcp,
            fallback_udp: self.fallback_udp,
        }
    }

    /// Builds the engine configuration from the configuration file's
    /// content (the defaults where there is no file) and the command line;
    /// also gives the security warnings about the merged settings.
    pub fn load_config(loaded: Option<TomlConfig>, cli: &Cli) -> (r: (ProxyConfig, Vec<ConfigWarning>))
        ensures
            ({
                let base = match loaded {
                    Some(c) => c@,
                    None => default_config(),
                };
                &&& r.0@ == proxy_of(merge_cli(base, cli@))
                &&& r.1@ == warnings_of(merge_cli(base, cli@).server)
            }),
    {
        let base = match loaded {
            Some(c) => c,
            None => TomlConfig::default(),
        };
        let merged = base.merge_cli(cli);
        let warnings = merged.validate();
        (merged.into_proxy_config(), warnings)
    }
}

/// The fallback backend of a transport as the file gives it: the one written
/// at the top level, else the one written under `[server]`.
pub fn fallback_of(top: Option<String>, server: Option<String>) -> (r: Option<String>)
    ensures
        r == (if top is Some {
            top
        } else {
            server
        }),
{
    match top {
        Some(t) => Some(t),
        None => server,
    }
}

/// Normalizes a protocol name read from the configuration file to lowercase.
pub fn lowercase_name(s: &str) -> (r: String)
    ensures
        r@ == lower_name(s@),
{
    to_lowercase(s)
}


// ---------------------------------------------------------------------------
// Laws
// ---------------------------------------------------------------------------

/// The route that a rule group with name `name` and addresses `addrs` makes
/// of the first route with that name, if any: the same route sent to the
/// group's destination, or else a new route over both transports.
pub open spec fn overridden(old: Option<RouteDataView>, name: Seq<char>, addrs: Seq<Seq<char>>) -> RouteDataView {
    match old {
        Some(r) => RouteDataView { forward_to: group_target(addrs), ..r },
        None => RouteDataView {
            name,
            sni: None,
            patterns: None,
            forward_to: group_target(addrs),
            transport: Transport::Both,
        },
    }
}

proof fn lemma_apply_group(routes: Seq<RouteDataView>, g: (Seq<char>, Seq<Seq<char>>), n: Seq<char>)
    ensures
        assoc_get(named(apply_group(routes, g)), n) == if n == g.0 {
            Some(overridden(assoc_get(named(routes), g.0), g.0, g.1))
        } else {
            assoc_get(named(routes), n)
        },
{
    let nr = named(routes);
    lemma_key_index(nr, g.0);
    match key_index(nr, g.0) {
        Some(i) => {
            let r2 = RouteDataView { forward_to: group_target(g.1), ..routes[i] };
            assert(named(apply_group(routes, g)) =~= nr.update(i, (g.0, r2)));
            lemma_assoc_update(nr, g.0, i, r2);
        },
        None => {
            let r2 = overridden(None, g.0, g.1);
            assert(named(apply_group(routes, g)) =~= nr.push((g.0, r2)));
            lemma_assoc_push(nr, g.0, r2);
        },
    }
}

proof fn lemma_forward_groups_unique(rules: Seq<Seq<char>>)
    ensures
        keys_unique(forward_groups(rules)),
    decreases rules.len(),
{
    if rules.len() > 0 {
        let g = forward_groups(rules.drop_last());
        lemma_forward_groups_unique(rules.drop_last());
        if let Some((name, addr)) = split_eq(rules.last()) {
            let k = lower_name(name);
            lemma_key_index(g, k);
            let h = group_forward(g, k, addr);
            match key_index(g, k) {
                Some(i) => {
                    assert forall|a: int, b: int| 0 <= a < b < h.len() implies h[a].0 != h[b].0 by {
                        assert(g[a].0 != g[b].0);
                    }
                },
                None => {
                    assert forall|a: int, b: int| 0 <= a < b < h.len() implies h[a].0 != h[b].0 by {
                        if b < g.len() {
                            assert(g[a].0 != g[b].0);
                        } else {
                            assert(g[a].0 != k);
                        }
                    }
                },
            }
        }
    }
}

proof fn lemma_apply_groups(routes: Seq<RouteDataView>, groups: Seq<(Seq<char>, Seq<Seq<char>>)>, n: Seq<char>)
    requires
        keys_unique(groups),
    ensures
        assoc_get(named(apply_groups(routes, groups)), n) == match assoc_get(groups, n) {
            Some(addrs) => Some(overridden(assoc_get(named(routes), n), n, addrs)),
            None => assoc_get(named(routes), n),
        },
    decreases groups.len(),
{
    if groups.len() == 0 {
        lemma_key_index(groups, n);
    } else {
        let front = groups.drop_last();
        let g = groups.last();
        assert(keys_unique(front));
        assert(!has_key(front, g.0)) by {
            if has_key(front, g.0) {
                let w = choose|w: int| 0 <= w < front.len() && front[w].0 == g.0;
                assert(groups[w].0 != groups[groups.len() - 1].0);
            }
        }
        assert(front.push(g) =~= groups);
        lemma_assoc_push(front, g.0, g.1);
        lemma_apply_groups(routes, front, n);
        lemma_apply_groups(routes, front, g.0);
        lemma_key_index(front, g.0);
        lemma_apply_group(apply_groups(routes, front), g, n);
    }
}

/// Command-line rules take precedence over the file: after the merge, the
/// first route with a name that a rule group carries is the file's first
/// route of that name sent to the group's addresses (or, where the file has
/// none, a new route over both transports); the first route with any other
/// name is the file's.
pub proof fn lemma_cli_rules_override(c: ConfigView, cli: CliView, n: Seq<char>)
    ensures
        assoc_get(named(merge_cli(c, cli).protocols), n) == match assoc_get(forward_groups(cli.forward), n) {
            Some(addrs) => Some(overridden(assoc_get(named(c.protocols), n), n, addrs)),
            None => assoc_get(named(c.protocols), n),
        },
{
    lemma_forward_groups_unique(cli.forward);
    lemma_apply_groups(c.protocols, forward_groups(cli.forward), n);
}


/// `i` is the first index of `routes` with its name.
pub open spec fn first_named(routes: Seq<RouteDataView>, i: int) -> bool {
    is_first_key(named(routes), routes[i].name, i)
}

/// The routes with the groups applied in place: the first route of each
/// name that a group carries is sent to the group's destination; every other
/// route is unchanged.
pub open spec fn overridden_in_place(routes: Seq<RouteDataView>, groups: Seq<(Seq<char>, Seq<Seq<char>>)>) -> Seq<
    RouteDataView,
> {
    Seq::new(
        routes.len(),
        |i: int|
            match assoc_get(groups, routes[i].name) {
                Some(addrs) => if first_named(routes, i) {
                    overridden(Some(routes[i]), routes[i].name, addrs)
                } else {
                    routes[i]
                },
                None => routes[i],
            },
    )
}

/// The routes added for the groups whose name no route has, in group order.
pub open spec fn new_routes(routes: Seq<RouteDataView>, groups: Seq<(Seq<char>, Seq<Seq<char>>)>) -> Seq<
    RouteDataView,
>
    decreases groups.len(),
{
    if groups.len() == 0 {
        Seq::empty()
    } else {
        let before = new_routes(routes, groups.drop_last());
        let g = groups.last();
        if has_key(named(routes), g.0) {
            before
        } else {
            before.push(overridden(None, g.0, g.1))
        }
    }
}

proof fn lemma_apply_groups_shape(routes: Seq<RouteDataView>, groups: Seq<(Seq<char>, Seq<Seq<char>>)>)
    requires
        keys_unique(groups),
    ensures
        apply_groups(routes, groups) == overridden_in_place(routes, groups) + new_routes(routes, groups),
        forall|j: int|
            0 <= j < new_routes(routes, groups).len() ==> has_key(
                groups,
                #[trigger] new_routes(routes, groups)[j].name,
            ),
    decreases groups.len(),
{
    if groups.len() == 0 {
        assert(overridden_in_place(routes, groups) =~= routes) by {
            assert forall|n: Seq<char>| #[trigger] assoc_get(groups, n) is None by {
                lemma_key_index(groups, n);
            }
        }
        assert(routes + Seq::<RouteDataView>::empty() =~= routes);
    } else {
        let front = groups.drop_last();
        let g = groups.last();
        assert(keys_unique(front));
        assert(!has_key(front, g.0)) by {
            if has_key(front, g.0) {
                let w = choose|w: int| 0 <= w < front.len() && front[w].0 == g.0;
                assert(groups[w].0 != groups[groups.len() - 1].0);
            }
        }
        assert(front.push(g) =~= groups);
        lemma_assoc_push(front, g.0, g.1);
        lemma_key_index(front, g.0);
        lemma_apply_groups_shape(routes, front);
        let ip = overridden_in_place(routes, front);
        let nw = new_routes(routes, front);
        let a = ip + nw;
        let na = named(a);
        let nr = named(routes);
        lemma_key_index(nr, g.0);
        lemma_key_index(na, g.0);
        assert forall|n: Seq<char>| n != g.0 implies #[trigger] assoc_get(groups, n) == assoc_get(front, n) by {
        }
        if has_key(nr, g.0) {
            let i = key_index(nr, g.0).unwrap();
            assert(is_first_key(na, g.0, i)) by {
                assert(na[i].0 == ip[i].name);
                assert forall|j: int| 0 <= j < i implies na[j].0 != g.0 by {
                    assert(na[j].0 == routes[j].name);
                    assert(nr[j].0 != g.0);
                }
            }
            assert(ip[i] == routes[i]);
            let upd = overridden(Some(routes[i]), g.0, g.1);
            assert(apply_group(a, g) =~= ip.update(i, upd) + nw);
            assert(overridden_in_place(routes, groups) =~= ip.update(i, upd)) by {
                assert forall|k: int| 0 <= k < routes.len() implies #[trigger] overridden_in_place(
                    routes,
                    groups,
                )[k] == ip.update(i, upd)[k] by {
                    if k == i {
                        assert(first_named(routes, i));
                    } else if routes[k].name == g.0 {
                        assert(!first_named(routes, k));
                    }
                }
            }
        } else {
            assert(!has_key(na, g.0)) by {
                if has_key(na, g.0) {
                    let w = choose|w: int| 0 <= w < na.len() && na[w].0 == g.0;
                    if w < ip.len() {
                        assert(nr[w].0 == g.0);
                    } else {
                        assert(nw[w - ip.len()].name == g.0);
                    }
                }
            }
            let added = overridden(None, g.0, g.1);
            assert(apply_group(a, g) =~= ip + nw.push(added));
            assert(overridden_in_place(routes, groups) =~= ip) by {
                assert forall|k: int| 0 <= k < routes.len() implies #[trigger] overridden_in_place(
                    routes,
                    groups,
                )[k] == ip[k] by {
                    assert(nr[k].0 == routes[k].name);
                    assert(routes[k].name != g.0);
                }
            }
            assert forall|j: int| 0 <= j < new_routes(routes, groups).len() implies has_key(
                groups,
                #[trigger] new_routes(routes, groups)[j].name,
            ) by {
                if j < nw.len() {
                    let n = nw[j].name;
                    assert(has_key(front, n));
                    let w = choose|w: int| 0 <= w < front.len() && front[w].0 == n;
                    assert(groups[w].0 == n);
                } else {
                    assert(groups[groups.len() - 1].0 == g.0);
                }
            }
        }
    }
}

/// The merged routes: the file's routes in their order, the first route of
/// each name that a command-line rule group carries sent to the group's
/// destination and every other route unchanged, followed by a new route over
/// both transports for each group whose name no file route has, in the order
/// of the groups' first rules.
pub proof fn lemma_cli_merge_routes(c: ConfigView, cli: CliView)
    ensures
        merge_cli(c, cli).protocols == overridden_in_place(c.protocols, forward_groups(cli.forward))
            + new_routes(c.protocols, forward_groups(cli.forward)),
{
    lemma_forward_groups_unique(cli.forward);
    lemma_apply_groups_shape(c.protocols, forward_groups(cli.forward));
}


/// Command-line settings take precedence over the file: in the engine
/// configuration that loading gives, each setting given on the command line
/// is the given value and each setting not given is the file's; hot reload
/// is off when the command line disables it and the file's otherwise; the
/// per-IP cap and the fallback backends are the file's.
pub proof fn lemma_cli_settings(c: ConfigView, cli: CliView)
    ensures
        ({
            let p = proxy_of(merge_cli(c, cli));
            &&& (cli.bind matches Some(b) ==> p.bind == b)
            &&& (cli.bind is None ==> p.bind == c.server.bind)
            &&& (cli.port matches Some(x) ==> p.port == x)
            &&& (cli.port is None ==> p.port == c.server.port)
            &&& (cli.peek_buffer matches Some(x) ==> p.peek_buffer_size == x)
            &&& (cli.peek_buffer is None ==> p.peek_buffer_size == c.server.peek_buffer_size)
            &&& (cli.peek_timeout matches Some(x) ==> p.peek_timeout_ms == x)
            &&& (cli.peek_timeout is None ==> p.peek_timeout_ms == c.server.peek_timeout_ms)
            &&& (cli.max_connections matches Some(x) ==> p.max_connections == x)
            &&& (cli.max_connections is None ==> p.max_connections == c.server.max_connections)
            &&& p.hot_reload == (c.server.hot_reload && !cli.no_hot_reload)
            &&& p.max_connections_per_ip == c.server.max_connections_per_ip
            &&& p.fallback_tcp == c.fallback_tcp
            &&& p.fallback_udp == c.fallback_udp
        }),
{
}

} // verus!
