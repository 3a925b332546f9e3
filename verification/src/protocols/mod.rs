//! Protocol identification: the built-in identifiers, pattern-based
//! protocols and the registry that probes them in order.
pub mod dns;
pub mod ftp;
pub mod hooks;
pub mod http;
pub mod https;
pub mod ssh;

use crate::engine::types::{match_view, MatchView, ProtocolMatch, Transport};
use crate::util::{ascii_lower, copy_string, copy_strings, opt_view, simple_word, str_views};
use dns::Dns;
use ftp::Ftp;
use http::Http;
use https::Https;
use ssh::Ssh;
use crate::protocols::hooks::HookId;
use vstd::prelude::*;
use vstd::utf8::*;

verus! {

// ---------------------------------------------------------------------------
// Outside calls
// ---------------------------------------------------------------------------

/// The snake_case form that `heck` gives a text.
pub uninterp spec fn snake_case(s: Seq<char>) -> Seq<char>;

/// Calls `heck::ToSnakeCase::to_snake_case` on a string slice. The contract
/// names its result `snake_case` of the input; of a single word (an ASCII
/// letter followed by ASCII lowercase letters), which heck keeps as one word
/// and lowercases, it states that the result is the word in lowercase.
#[verifier::external_body]
pub(crate) fn to_snake_case(s: &str) -> (r: String)
    ensures
        r@ == snake_case(s@),
        simple_word(s@) ==> r@ == ascii_lower(s@),
{
    heck::ToSnakeCase::to_snake_case(s)
}

/// The snake_case form of a name: the name in lowercase for a single word,
/// otherwise what `heck` makes of it.
pub open spec fn snake_name(s: Seq<char>) -> Seq<char> {
    if simple_word(s) {
        ascii_lower(s)
    } else {
        snake_case(s)
    }
}

/// Calls [`to_snake_case`] and gives its result as [`snake_name`].
pub(crate) fn snake_name_of(s: &str) -> (r: String)
    ensures
        r@ == snake_name(s@),
{
    to_snake_case(s)
}

/// `needle` occurs in `haystack` starting at index `i`.
pub open spec fn occurs_at(haystack: Seq<u8>, needle: Seq<u8>, i: int) -> bool {
    0 <= i && i + needle.len() <= haystack.len() && haystack.subrange(i, i + needle.len())
        =~= needle
}

/// `needle` occurs somewhere in `haystack`.
pub open spec fn occurs_in(haystack: Seq<u8>, needle: Seq<u8>) -> bool {
    exists|i: int| occurs_at(haystack, needle, i)
}

/// Calls `memchr::memmem::find`, which returns the index of the first
/// occurrence of `needle` in `haystack`, or `None` where there is none.
/// The contract claims exactly that (an empty needle occurs at index 0).
#[verifier::external_body]
fn memmem_find(haystack: &[u8], needle: &[u8]) -> (r: Option<usize>)
    ensures
        match r {
            Some(i) => occurs_at(haystack@, needle@, i as int) && forall|j: int|
                0 <= j < i ==> !occurs_at(haystack@, needle@, j),
            None => !occurs_in(haystack@, needle@),
        },
{
    memchr::memmem::find(haystack, needle)
}

// ---------------------------------------------------------------------------
// Protocol model
// ---------------------------------------------------------------------------

/// The content of a [`DynamicProtocol`].
pub struct DynamicView {
    /// The display name.
    pub name: Seq<char>,
    /// The patterns searched for.
    pub patterns: Seq<Seq<char>>,
}

/// The content of a protocol implemented outside the library: its name, its
/// transport, and what it makes of some initial bytes (the name and the
/// metadata of a match, or nothing).
pub struct CustomView {
    /// The protocol's name.
    pub name: Seq<char>,
    /// The transport it operates on.
    pub transport: Transport,
    /// What it makes of some initial bytes.
    pub identify: spec_fn(Seq<u8>) -> Option<(Seq<char>, Option<Seq<char>>)>,
}

/// What identifies a protocol: the built-in identifiers, a pattern-based
/// protocol, a protocol implemented outside the library or the fallback
/// marker.
pub enum ProtocolView {
    /// HTTP method or HTTP/2 preface.
    Http,
    /// TLS Client Hello, with SNI extraction.
    Https,
    /// SSH version exchange.
    Ssh,
    /// DNS query.
    Dns,
    /// FTP command or greeting.
    Ftp,
    /// Byte patterns anywhere in the data.
    Dynamic(DynamicView),
    /// The marker for fallback routes; identifies nothing.
    Fallback,
    /// A protocol with interception hooks attached: it identifies what the
    /// inner protocol does, and its matches name it.
    Hooked(Box<ProtocolView>, Seq<HookId>),
    /// A protocol implemented outside the library.
    Custom(CustomView),
}

/// Some pattern of `patterns`, taken as its UTF-8 bytes, occurs in `data`.
pub open spec fn dynamic_signature(patterns: Seq<Seq<char>>, data: Seq<u8>) -> bool {
    exists|i: int| 0 <= i < patterns.len() && occurs_in(data, encode_utf8(patterns[i]))
}

impl ProtocolView {
    /// The protocol's name.
    pub open spec fn name(self) -> Seq<char>
        decreases self,
    {
        match self {
            ProtocolView::Http => "http"@,
            ProtocolView::Https => "https"@,
            ProtocolView::Ssh => "ssh"@,
            ProtocolView::Dns => "dns"@,
            ProtocolView::Ftp => "ftp"@,
            ProtocolView::Dynamic(d) => d.name,
            ProtocolView::Fallback => "fallback"@,
            ProtocolView::Hooked(inner, _) => inner.name(),
            ProtocolView::Custom(c) => c.name,
        }
    }

    /// The name that this protocol's matches carry: the snake_case form of a
    /// pattern-based protocol's name, the name itself for the others.
    pub open spec fn match_name(self) -> Seq<char>
        decreases self,
    {
        match self {
            ProtocolView::Dynamic(d) => snake_name(d.name),
            ProtocolView::Hooked(inner, _) => inner.match_name(),
            _ => self.name(),
        }
    }

    /// The protocol without its hooks.
    pub open spec fn base(self) -> ProtocolView
        decreases self,
    {
        match self {
            ProtocolView::Hooked(inner, _) => inner.base(),
            _ => self,
        }
    }

    /// The hooks attached to the protocol.
    pub open spec fn hooks(self) -> Seq<HookId> {
        match self {
            ProtocolView::Hooked(_, h) => h,
            _ => Seq::empty(),
        }
    }

    /// The transport the protocol operates on.
    pub open spec fn transport(self) -> Transport
        decreases self,
    {
        match self {
            ProtocolView::Http => Transport::Tcp,
            ProtocolView::Https => Transport::Tcp,
            ProtocolView::Ssh => Transport::Tcp,
            ProtocolView::Dns => Transport::Udp,
            ProtocolView::Ftp => Transport::Tcp,
            ProtocolView::Dynamic(_) => Transport::Both,
            ProtocolView::Fallback => Transport::Both,
            ProtocolView::Hooked(inner, _) => inner.transport(),
            ProtocolView::Custom(c) => c.transport,
        }
    }

    /// What identifying `data` with this protocol gives.
    pub open spec fn identify(self, data: Seq<u8>) -> Option<MatchView>
        decreases self,
    {
        match self {
            ProtocolView::Http => if http::http_signature(data) {
                Some(MatchView { name: "http"@, metadata: None, implementation: self })
            } else {
                None
            },
            ProtocolView::Https => match https::client_hello_sni(data) {
                Some(meta) => Some(MatchView { name: "https"@, metadata: meta, implementation: self }),
                None => None,
            },
            ProtocolView::Ssh => if ssh::ssh_signature(data) {
                Some(MatchView { name: "ssh"@, metadata: None, implementation: self })
            } else {
                None
            },
            ProtocolView::Dns => if dns::dns_query(data) {
                Some(MatchView { name: "dns"@, metadata: None, implementation: self })
            } else {
                None
            },
            ProtocolView::Ftp => if ftp::ftp_signature(data) {
                Some(MatchView { name: "ftp"@, metadata: None, implementation: self })
            } else {
                None
            },
            ProtocolView::Dynamic(d) => if dynamic_signature(d.patterns, data) {
                Some(
                    MatchView { name: snake_name(d.name), metadata: None, implementation: self },
                )
            } else {
                None
            },
            ProtocolView::Fallback => None,
            ProtocolView::Hooked(inner, _) => match inner.identify(data) {
                Some(m) => Some(MatchView { name: m.name, metadata: m.metadata, implementation: self }),
                None => None,
            },
            ProtocolView::Custom(c) => match (c.identify)(data) {
                Some((name, metadata)) => Some(MatchView { name, metadata, implementation: self }),
                None => None,
            },
        }
    }
}

/// Logic that identifies a protocol from the first bytes of a connection.
pub trait RefractiumProtocol {
    /// What this value identifies.
    spec fn protocol_view(&self) -> ProtocolView;

    /// Returns the name of this protocol.
    fn name(&self) -> (r: String)
        ensures
            r@ == self.protocol_view().name(),
    ;

    /// Inspects the initial bytes of a connection and returns a match when
    /// they carry this protocol's signature.
    fn identify(&self, data: &[u8]) -> (r: Option<ProtocolMatch>)
        ensures
            match_view(r) == self.protocol_view().identify(data@),
    ;

    /// Returns the transport layer this protocol operates on.
    fn transport(&self) -> (r: Transport)
        ensures
            r == self.protocol_view().transport(),
    ;
}

/// A protocol identified by byte patterns that may occur anywhere within the
/// initial data of a connection.
pub struct DynamicProtocol {
    /// The display name of the protocol.
    pub name: String,
    /// The byte patterns to search for, taken as UTF-8.
    pub patterns: Vec<String>,
}

impl View for DynamicProtocol {
    type V = DynamicView;

    open spec fn view(&self) -> DynamicView {
        DynamicView { name: self.name@, patterns: str_views(self.patterns@) }
    }
}

impl DynamicProtocol {
    /// A copy of this protocol.
    pub fn duplicate(&self) -> (r: DynamicProtocol)
        ensures
            r@ == self@,
    {
        DynamicProtocol { name: copy_string(&self.name), patterns: copy_strings(&self.patterns) }
    }

    /// Returns whether some pattern occurs in `data`.
    fn any_pattern_in(&self, data: &[u8]) -> (r: bool)
        ensures
            r == dynamic_signature(self@.patterns, data@),
    {
        let mut i: usize = 0;
        while i < self.patterns.len()
            invariant
                i <= self.patterns.len(),
                forall|j: int|
                    0 <= j < i ==> !occurs_in(data@, encode_utf8(#[trigger] self@.patterns[j])),
            decreases self.patterns.len() - i,
        {
            let p: &str = self.patterns[i].as_str();
            if memmem_find(data, p.as_bytes()).is_some() {
                assert(self@.patterns[i as int] == p@);
                return true;
            }
            i = i + 1;
        }
        false
    }
}

impl RefractiumProtocol for DynamicProtocol {
    open spec fn protocol_view(&self) -> ProtocolView {
        ProtocolView::Dynamic(self@)
    }

    fn name(&self) -> (r: String) {
        copy_string(&self.name)
    }

    fn identify(&self, data: &[u8]) -> (r: Option<ProtocolMatch>) {
        if self.any_pattern_in(data) {
            Some(
                ProtocolMatch {
                    name: snake_name_of(self.name.as_str()),
                    metadata: None,
                    implementation: Protocol::Dynamic(self.duplicate()),
                },
            )
        } else {
            None
        }
    }

    fn transport(&self) -> (r: Transport) {
        Transport::Both
    }
}

/// The marker protocol of fallback routes: it identifies nothing.
pub struct FallbackProtocol;

impl RefractiumProtocol for FallbackProtocol {
    open spec fn protocol_view(&self) -> ProtocolView {
        ProtocolView::Fallback
    }

    fn name(&self) -> (r: String) {
        String::from_str("fallback")
    }

    fn identify(&self, data: &[u8]) -> (r: Option<ProtocolMatch>) {
        None
    }

    fn transport(&self) -> (r: Transport) {
        Transport::Both
    }
}

/// A built-in protocol identifier, to which hooks can be attached.
pub enum BuiltinProtocol {
    /// HTTP.
    Http,
    /// HTTPS with SNI extraction.
    Https,
    /// SSH.
    Ssh,
    /// DNS.
    Dns,
    /// FTP.
    Ftp,
}

impl View for BuiltinProtocol {
    type V = ProtocolView;

    open spec fn view(&self) -> ProtocolView {
        match self {
            BuiltinProtocol::Http => ProtocolView::Http,
            BuiltinProtocol::Https => ProtocolView::Https,
            BuiltinProtocol::Ssh => ProtocolView::Ssh,
            BuiltinProtocol::Dns => ProtocolView::Dns,
            BuiltinProtocol::Ftp => ProtocolView::Ftp,
        }
    }
}

/// A built-in protocol with interception hooks attached: it identifies
/// what the built-in one does, and its matches carry it, hooks included.
pub struct HookedProtocol {
    /// The protocol that identifies the traffic.
    pub base: BuiltinProtocol,
    /// The handles of the attached hooks, in order.
    pub hooks: Vec<HookId>,
}

impl View for HookedProtocol {
    type V = ProtocolView;

    open spec fn view(&self) -> ProtocolView {
        ProtocolView::Hooked(Box::new(self.base@), self.hooks@)
    }
}

/// A copy of a list of hook handles.
fn copy_hooks(v: &Vec<HookId>) -> (r: Vec<HookId>)
    ensures
        r@ == v@,
{
    let mut r: Vec<HookId> = Vec::new();
    let mut i: usize = 0;
    while i < v.len()
        invariant
            i <= v.len(),
            r@ == v@.subrange(0, i as int),
        decreases v.len() - i,
    {
        r.push(v[i]);
        assert(r@ =~= v@.subrange(0, i + 1));
        i = i + 1;
    }
    assert(v@.subrange(0, v.len() as int) =~= v@);
    r
}

impl HookedProtocol {
    /// A copy of this protocol.
    pub fn duplicate(&self) -> (r: HookedProtocol)
        ensures
            r@ == self@,
    {
        let base = match self.base {
            BuiltinProtocol::Http => BuiltinProtocol::Http,
            BuiltinProtocol::Https => BuiltinProtocol::Https,
            BuiltinProtocol::Ssh => BuiltinProtocol::Ssh,
            BuiltinProtocol::Dns => BuiltinProtocol::Dns,
            BuiltinProtocol::Ftp => BuiltinProtocol::Ftp,
        };
        HookedProtocol { base, hooks: copy_hooks(&self.hooks) }
    }
}

impl RefractiumProtocol for HookedProtocol {
    open spec fn protocol_view(&self) -> ProtocolView {
        self@
    }

    fn name(&self) -> (r: String) {
        match self.base {
            BuiltinProtocol::Http => Http.name(),
            BuiltinProtocol::Https => Https.name(),
            BuiltinProtocol::Ssh => Ssh.name(),
            BuiltinProtocol::Dns => Dns.name(),
            BuiltinProtocol::Ftp => Ftp.name(),
        }
    }

    fn identify(&self, data: &[u8]) -> (r: Option<ProtocolMatch>) {
        let found = match self.base {
            BuiltinProtocol::Http => Http.identify(data),
            BuiltinProtocol::Https => Https.identify(data),
            BuiltinProtocol::Ssh => Ssh.identify(data),
            BuiltinProtocol::Dns => Dns.identify(data),
            BuiltinProtocol::Ftp => Ftp.identify(data),
        };
        match found {
            Some(m) => Some(
                ProtocolMatch {
                    name: m.name,
                    metadata: m.metadata,
                    implementation: Protocol::Hooked(self.duplicate()),
                },
            ),
            None => None,
        }
    }

    fn transport(&self) -> (r: Transport) {
        match self.base {
            BuiltinProtocol::Http => Http.transport(),
            BuiltinProtocol::Https => Https.transport(),
            BuiltinProtocol::Ssh => Ssh.transport(),
            BuiltinProtocol::Dns => Dns.transport(),
            BuiltinProtocol::Ftp => Ftp.transport(),
        }
    }
}

/// A protocol identifier of any kind that the engine knows.
pub enum Protocol {
    /// HTTP.
    Http(Http),
    /// HTTPS with SNI extraction.
    Https(Https),
    /// SSH.
    Ssh(Ssh),
    /// DNS.
    Dns(Dns),
    /// FTP.
    Ftp(Ftp),
    /// A pattern-based protocol.
    Dynamic(DynamicProtocol),
    /// The fallback marker.
    Fallback(FallbackProtocol),
    /// A built-in protocol with hooks attached.
    Hooked(HookedProtocol),
    /// A protocol implemented outside the library.
    Custom(CustomProtocol),
}

/// A protocol of the user's own: users implement this trait for their
/// types and register them as [`Protocol::Custom`]. An implementation owes
/// the contracts below for the [`CustomView`] it declares; the library fills
/// in the rest of a match.
pub trait UserProtocol: Send + Sync {
    /// What this protocol is: the name, transport and identification that
    /// the methods below are held to. It is specification only and never
    /// runs.
    spec fn user_view(&self) -> CustomView;

    /// Returns the name of this protocol.
    fn name(&self) -> (r: String)
        ensures
            r@ == self.user_view().name,
    ;

    /// Inspects the initial bytes of a connection and returns the name and
    /// metadata of a match where they carry this protocol.
    fn identify(&self, data: &[u8]) -> (r: Option<(String, Option<String>)>)
        ensures
            match r {
                Some((n, m)) => (self.user_view().identify)(data@) == Some((n@, opt_view(m))),
                None => (self.user_view().identify)(data@) is None,
            },
    ;

    /// Returns the transport layer this protocol operates on.
    fn transport(&self) -> (r: Transport)
        ensures
            r == self.user_view().transport,
    ;
}

/// A protocol of the user's own, shared.
pub struct CustomProtocol {
    /// The implementation.
    pub inner: std::sync::Arc<dyn UserProtocol>,
}

/// Calls `Arc::clone` on the implementation of a user protocol and wraps the
/// new handle as a protocol; the handle points to the same value, so it is
/// the same protocol.
#[verifier::external_body]
fn share_custom(c: &CustomProtocol) -> (r: Protocol)
    ensures
        r@ == ProtocolView::Custom(c.inner.user_view()),
{
    Protocol::Custom(CustomProtocol { inner: std::sync::Arc::clone(&c.inner) })
}

impl RefractiumProtocol for CustomProtocol {
    open spec fn protocol_view(&self) -> ProtocolView {
        ProtocolView::Custom(self.inner.user_view())
    }

    fn name(&self) -> (r: String) {
        self.inner.name()
    }

    fn identify(&self, data: &[u8]) -> (r: Option<ProtocolMatch>) {
        match self.inner.identify(data) {
            Some((name, metadata)) => Some(
                ProtocolMatch { name, metadata, implementation: share_custom(self) },
            ),
            None => None,
        }
    }

    fn transport(&self) -> (r: Transport) {
        self.inner.transport()
    }
}

impl View for Protocol {
    type V = ProtocolView;

    open spec fn view(&self) -> ProtocolView {
        match self {
            Protocol::Http(_) => ProtocolView::Http,
            Protocol::Https(_) => ProtocolView::Https,
            Protocol::Ssh(_) => ProtocolView::Ssh,
            Protocol::Dns(_) => ProtocolView::Dns,
            Protocol::Ftp(_) => ProtocolView::Ftp,
            Protocol::Dynamic(d) => ProtocolView::Dynamic(d@),
            Protocol::Fallback(_) => ProtocolView::Fallback,
            Protocol::Hooked(h) => h@,
            Protocol::Custom(c) => ProtocolView::Custom(c.inner.user_view()),
        }
    }
}

impl Protocol {
    /// The name that this protocol's matches carry.
    pub fn match_name(&self) -> (r: String)
        ensures
            r@ == self@.match_name(),
    {
        match self {
            Protocol::Dynamic(d) => snake_name_of(d.name.as_str()),
            Protocol::Hooked(h) => {
                assert(h.base@.match_name() == h.base@.name());
                h.name()
            },
            _ => self.name(),
        }
    }

    /// A copy of this protocol.
    pub fn duplicate(&self) -> (r: Protocol)
        ensures
            r@ == self@,
    {
        match self {
            Protocol::Http(_) => Protocol::Http(Http),
            Protocol::Https(_) => Protocol::Https(Https),
            Protocol::Ssh(_) => Protocol::Ssh(Ssh),
            Protocol::Dns(_) => Protocol::Dns(Dns),
            Protocol::Ftp(_) => Protocol::Ftp(Ftp),
            Protocol::Dynamic(d) => Protocol::Dynamic(d.duplicate()),
            Protocol::Fallback(_) => Protocol::Fallback(FallbackProtocol),
            Protocol::Hooked(h) => Protocol::Hooked(h.duplicate()),
            Protocol::Custom(c) => share_custom(c),
        }
    }

    /// The handles of the hooks attached to this protocol, in order.
    pub fn hooks(&self) -> (r: Vec<HookId>)
        ensures
            r@ == self@.hooks(),
    {
        match self {
            Protocol::Hooked(h) => copy_hooks(&h.hooks),
            _ => Vec::new(),
        }
    }
}

impl RefractiumProtocol for Protocol {
    open spec fn protocol_view(&self) -> ProtocolView {
        self@
    }

    fn name(&self) -> (r: String) {
        match self {
            Protocol::Http(p) => p.name(),
            Protocol::Https(p) => p.name(),
            Protocol::Ssh(p) => p.name(),
            Protocol::Dns(p) => p.name(),
            Protocol::Ftp(p) => p.name(),
            Protocol::Dynamic(p) => p.name(),
            Protocol::Fallback(p) => p.name(),
            Protocol::Hooked(p) => p.name(),
            Protocol::Custom(p) => p.name(),
        }
    }

    fn identify(&self, data: &[u8]) -> (r: Option<ProtocolMatch>) {
        match self {
            Protocol::Http(p) => p.identify(data),
            Protocol::Https(p) => p.identify(data),
            Protocol::Ssh(p) => p.identify(data),
            Protocol::Dns(p) => p.identify(data),
            Protocol::Ftp(p) => p.identify(data),
            Protocol::Dynamic(p) => p.identify(data),
            Protocol::Fallback(p) => p.identify(data),
            Protocol::Hooked(p) => p.identify(data),
            Protocol::Custom(p) => p.identify(data),
        }
    }

    fn transport(&self) -> (r: Transport) {
        match self {
            Protocol::Http(p) => p.transport(),
            Protocol::Https(p) => p.transport(),
            Protocol::Ssh(p) => p.transport(),
            Protocol::Dns(p) => p.transport(),
            Protocol::Ftp(p) => p.transport(),
            Protocol::Dynamic(p) => p.transport(),
            Protocol::Fallback(p) => p.transport(),
            Protocol::Hooked(p) => p.transport(),
            Protocol::Custom(p) => p.transport(),
        }
    }
}

// ---------------------------------------------------------------------------
// Registry
// ---------------------------------------------------------------------------

/// What probing `data` against `protocols`, in order, gives: the match of the
/// first protocol that identifies it.
pub open spec fn probe_all(protocols: Seq<ProtocolView>, data: Seq<u8>) -> Option<MatchView>
    decreases protocols.len(),
{
    if protocols.len() == 0 {
        None
    } else {
        match protocols[0].identify(data) {
            Some(m) => Some(m),
            None => probe_all(protocols.drop_first(), data),
        }
    }
}

/// The views of a list of protocols.
pub open spec fn protocol_views(v: Seq<Protocol>) -> Seq<ProtocolView> {
    v.map_values(|p: Protocol| p@)
}

/// An ordered collection of protocol identifiers.
pub struct ProtocolRegistry {
    protocols: Vec<Protocol>,
}

impl View for ProtocolRegistry {
    type V = Seq<ProtocolView>;

    closed spec fn view(&self) -> Seq<ProtocolView> {
        protocol_views(self.protocols@)
    }
}

impl ProtocolRegistry {
    /// Creates a new, empty registry.
    pub fn new() -> (r: ProtocolRegistry)
        ensures
            r@ == Seq::<ProtocolView>::empty(),
    {
        let r = ProtocolRegistry { protocols: Vec::new() };
        assert(r@ =~= Seq::<ProtocolView>::empty());
        r
    }

    /// Registers a protocol; protocols are probed in the order they are
    /// registered.
    pub fn register(&mut self, proto: Protocol)
        ensures
            final(self)@ == old(self)@.push(proto@),
    {
        self.protocols.push(proto);
        assert(self@ =~= old(self)@.push(proto@));
    }

    /// The names of all registered protocols, in snake_case.
    pub fn get_registered_names(&self) -> (r: Vec<String>)
        ensures
            str_views(r@) == self@.map_values(|p: ProtocolView| snake_name(p.name())),
    {
        let mut r: Vec<String> = Vec::new();
        let mut i: usize = 0;
        while i < self.protocols.len()
            invariant
                i <= self.protocols.len(),
                r@.len() == i,
                self@ == protocol_views(self.protocols@),
                forall|j: int| 0 <= j < i ==> r@[j]@ == snake_name(#[trigger] self@[j].name()),
            decreases self.protocols.len() - i,
        {
            let name = self.protocols[i].name();
            r.push(snake_name_of(name.as_str()));
            i = i + 1;
        }
        assert(str_views(r@) =~= self@.map_values(|p: ProtocolView| snake_name(p.name())));
        r
    }

    /// Probes `data` against all registered protocols and returns the match
    /// of the first one that identifies it.
    pub fn probe(&self, data: &[u8]) -> (r: Option<ProtocolMatch>)
        ensures
            match_view(r) == probe_all(self@, data@),
    {
        let mut i: usize = 0;
        assert(self@.subrange(0, self@.len() as int) =~= self@);
        while i < self.protocols.len()
            invariant
                i <= self.protocols.len(),
                self@ == protocol_views(self.protocols@),
                probe_all(self@, data@) == probe_all(self@.subrange(i as int, self@.len() as int), data@),
            decreases self.protocols.len() - i,
        {
            let ghost rest = self@.subrange(i as int, self@.len() as int);
            assert(rest.drop_first() =~= self@.subrange(i + 1, self@.len() as int));
            let m = self.protocols[i].identify(data);
            if m.is_some() {
                return m;
            }
            i = i + 1;
        }
        None
    }
}

impl Default for ProtocolRegistry {
    fn default() -> (r: ProtocolRegistry)
        ensures
            r@ == Seq::<ProtocolView>::empty(),
    {
        ProtocolRegistry::new()
    }
}

/// Protocols are probed in registration order: registering another protocol
/// never changes the result for data that an earlier protocol identifies, and
/// for other data gives the new protocol's own answer.
pub proof fn lemma_probe_register(protocols: Seq<ProtocolView>, p: ProtocolView, data: Seq<u8>)
    ensures
        probe_all(protocols.push(p), data) == match probe_all(protocols, data) {
            Some(m) => Some(m),
            None => p.identify(data),
        },
    decreases protocols.len(),
{
    let q = protocols.push(p);
    if protocols.len() == 0 {
        assert(q.drop_first() =~= Seq::<ProtocolView>::empty());
        assert(q[0] == p);
        assert(probe_all(q.drop_first(), data) is None);
    } else {
        assert(q.drop_first() =~= protocols.drop_first().push(p));
        assert(q[0] == protocols[0]);
        lemma_probe_register(protocols.drop_first(), p, data);
    }
}

/// A match reported by the registry comes from one of its protocols, and every
/// protocol before that one identifies nothing in the data.
pub proof fn lemma_probe_first_match(protocols: Seq<ProtocolView>, data: Seq<u8>)
    ensures
        match probe_all(protocols, data) {
            Some(m) => exists|i: int|
                0 <= i < protocols.len() && protocols[i].identify(data) == Some(m) && forall|j: int|
                    0 <= j < i ==> (#[trigger] protocols[j]).identify(data) is None,
            None => forall|j: int| 0 <= j < protocols.len() ==> (#[trigger] protocols[j]).identify(data) is None,
        },
    decreases protocols.len(),
{
    if protocols.len() > 0 {
        lemma_probe_first_match(protocols.drop_first(), data);
        match probe_all(protocols, data) {
            Some(m) => {
                if protocols[0].identify(data) is Some {
                    assert(protocols[0].identify(data) == Some(m));
                } else {
                    let i = choose|i: int|
                        0 <= i < protocols.drop_first().len() && protocols.drop_first()[i].identify(data)
                            == Some(m) && forall|j: int|
                            0 <= j < i ==> (#[trigger] protocols.drop_first()[j]).identify(data) is None;
                    assert(protocols[i + 1] == protocols.drop_first()[i]);
                    assert forall|j: int| 0 <= j < i + 1 implies (#[trigger] protocols[j]).identify(data) is None by {
                        if j > 0 {
                            assert(protocols[j] == protocols.drop_first()[j - 1]);
                        }
                    }
                }
            },
            None => {
                assert forall|j: int| 0 <= j < protocols.len() implies (#[trigger] protocols[j]).identify(data) is None by {
                    if j > 0 {
                        assert(protocols[j] == protocols.drop_first()[j - 1]);
                    }
                }
            },
        }
    }
}


/// Every match names the protocol that made it; a built-in protocol reports
/// its matches under its own name, and a pattern-based protocol under the
/// snake_case form of its name.
pub proof fn lemma_match_names(p: ProtocolView, data: Seq<u8>)
    ensures
        match p.identify(data) {
            Some(m) => m.implementation == p && (!(p.base() is Custom) ==> m.name == p.match_name()),
            None => true,
        },
    decreases p,
{
    if let ProtocolView::Hooked(inner, _) = p {
        lemma_match_names(*inner, data);
    }
}

/// Of the library's protocols, only HTTPS (with or without hooks) reports
/// metadata: the SNI host name of a Client Hello.
pub proof fn lemma_metadata_only_from_sni(p: ProtocolView, data: Seq<u8>)
    ensures
        match p.identify(data) {
            Some(m) => m.metadata is Some && !(p.base() is Custom) ==> p.base() == ProtocolView::Https
                && https::client_hello_sni(data) == Some(m.metadata),
            None => true,
        },
    decreases p,
{
    if let ProtocolView::Hooked(inner, _) = p {
        lemma_metadata_only_from_sni(*inner, data);
    }
}

} // verus!
