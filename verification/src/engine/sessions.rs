//! The table of UDP sessions, keyed by the client's address: packets from a
//! client with a session go to its backend socket; others are routed first.
use crate::engine::limits::ClientIp;
use crate::engine::balancer::BalancerView;
use crate::engine::router::{fallback_route, route_data, RouteOutcome, RouteResult, RouterView};
use crate::engine::{Refractium, RefractiumView};
use crate::util::{
    assoc_map, is_first_key, keys_unique, lemma_assoc_map_absent, lemma_assoc_map_at,
    lemma_map_push, lemma_map_remove, lemma_map_update,
};
use vstd::prelude::*;

verus! {

/// A client's address: IP and port.
#[derive(Debug, Clone, Copy, PartialEq, Eq, Structural)]
pub struct PeerAddr {
    /// The IP address.
    pub ip: ClientIp,
    /// The port.
    pub port: u16,
}

/// Sessions keyed by client address.
pub struct SessionTable<S> {
    entries: Vec<(PeerAddr, S)>,
}

impl<S> View for SessionTable<S> {
    type V = Map<PeerAddr, S>;

    closed spec fn view(&self) -> Map<PeerAddr, S> {
        assoc_map(self.entries@)
    }
}

impl<S> SessionTable<S> {
    /// The table's internal invariant: each client has at most one session.
    pub closed spec fn wf(&self) -> bool {
        keys_unique(self.entries@)
    }

    /// An empty table.
    pub fn new() -> (r: SessionTable<S>)
        ensures
            r.wf(),
            r@ == Map::<PeerAddr, S>::empty(),
    {
        let r = SessionTable { entries: Vec::new() };
        assert(r@ =~= Map::<PeerAddr, S>::empty());
        r
    }

    fn find(&self, peer: PeerAddr) -> (r: Option<usize>)
        ensures
            match r {
                Some(i) => is_first_key(self.entries@, peer, i as int),
                None => !crate::util::has_key(self.entries@, peer),
            },
    {
        let mut i: usize = 0;
        while i < self.entries.len()
            invariant
                i <= self.entries.len(),
                forall|j: int| 0 <= j < i ==> self.entries@[j].0 != peer,
            decreases self.entries.len() - i,
        {
            if self.entries[i].0 == peer {
                return Some(i);
            }
            i = i + 1;
        }
        None
    }

    /// The session of a client, if it has one.
    pub fn get(&self, peer: PeerAddr) -> (r: Option<&S>)
        ensures
            match r {
                Some(s) => self@.contains_key(peer) && self@[peer] == *s,
                None => !self@.contains_key(peer),
            },
    {
        match self.find(peer) {
            Some(i) => {
                proof {
                    lemma_assoc_map_at(self.entries@, peer, i as int);
                }
                Some(&self.entries[i].1)
            },
            None => {
                proof {
                    lemma_assoc_map_absent(self.entries@, peer);
                }
                None
            },
        }
    }

    /// Records the session of a client, replacing any it had.
    pub fn insert(&mut self, peer: PeerAddr, session: S)
        requires
            old(self).wf(),
        ensures
            final(self).wf(),
            final(self)@ == old(self)@.insert(peer, session),
    {
        match self.find(peer) {
            Some(i) => {
                proof {
                    lemma_map_update(self.entries@, peer, i as int, session);
                }
                let ghost before = self.entries@;
                self.entries.set(i, (peer, session));
                assert forall|a: int, b: int| 0 <= a < b < self.entries@.len() implies self.entries@[a].0
                    != self.entries@[b].0 by {
                    assert(before[a].0 != before[b].0);
                }
            },
            None => {
                proof {
                    lemma_map_push(self.entries@, peer, session);
                }
                let ghost before = self.entries@;
                self.entries.push((peer, session));
                assert forall|a: int, b: int| 0 <= a < b < self.entries@.len() implies self.entries@[a].0
                    != self.entries@[b].0 by {
                    if b < before.len() {
                        assert(before[a].0 != before[b].0);
                    } else {
                        assert(before[a].0 != peer);
                    }
                }
            },
        }
    }

    /// Ends the session of a client and gives it back, if it had one.
    pub fn remove(&mut self, peer: PeerAddr) -> (r: Option<S>)
        requires
            old(self).wf(),
        ensures
            final(self).wf(),
            final(self)@ == old(self)@.remove(peer),
            match r {
                Some(s) => old(self)@.contains_key(peer) && old(self)@[peer] == s,
                None => !old(self)@.contains_key(peer),
            },
    {
        match self.find(peer) {
            Some(i) => {
                proof {
                    lemma_assoc_map_at(self.entries@, peer, i as int);
                    lemma_map_remove(self.entries@, peer, i as int);
                }
                let (_, s) = self.entries.remove(i);
                Some(s)
            },
            None => {
                proof {
                    lemma_assoc_map_absent(self.entries@, peer);
                }
                assert(self@.remove(peer) =~= self@);
                None
            },
        }
    }

    /// The number of sessions.
    pub fn len(&self) -> (r: usize)
        requires
            self.wf(),
        ensures
            r == self@.dom().len(),
    {
        proof {
            lemma_unique_map_len(self.entries@);
        }
        self.entries.len()
    }
}

/// The map of an association list without repeated keys has one key per
/// entry.
proof fn lemma_unique_map_len<K, V>(s: Seq<(K, V)>)
    requires
        keys_unique(s),
    ensures
        assoc_map(s).dom().finite(),
        assoc_map(s).dom().len() == s.len(),
    decreases s.len(),
{
    if s.len() == 0 {
        assert(assoc_map(s).dom() =~= Set::<K>::empty());
    } else {
        let t = s.drop_last();
        let k = s.last().0;
        assert(keys_unique(t));
        lemma_unique_map_len(t);
        assert(!crate::util::has_key(t, k)) by {
            if crate::util::has_key(t, k) {
                let w = choose|w: int| 0 <= w < t.len() && t[w].0 == k;
                assert(s[w].0 != s[s.len() - 1].0);
            }
        }
        lemma_map_push(t, k, s.last().1);
        assert(t.push(s.last()) =~= s);
        assert(!assoc_map(t).dom().contains(k));
        assert(assoc_map(s).dom() =~= assoc_map(t).dom().insert(k));
    }
}


// ---------------------------------------------------------------------------
// Packet handling
// ---------------------------------------------------------------------------

/// What to do with a UDP packet.
pub enum PacketAction {
    /// Send it on the client's session.
    Forward,
    /// Open a session to this backend and send it there.
    Open(String),
    /// Discard it.
    Drop,
}

/// The content of a [`PacketAction`].
pub enum PacketActionView {
    /// Send on the client's session.
    Forward,
    /// Open a session to this backend.
    Open(Seq<char>),
    /// Discard.
    Drop,
}

impl View for PacketAction {
    type V = PacketActionView;

    open spec fn view(&self) -> PacketActionView {
        match self {
            PacketAction::Forward => PacketActionView::Forward,
            PacketAction::Open(a) => PacketActionView::Open(a@),
            PacketAction::Drop => PacketActionView::Drop,
        }
    }
}

/// The backend a routing outcome sends a new session to, if any.
pub open spec fn outcome_backend(o: RouteOutcome) -> Option<Seq<char>> {
    match o {
        RouteOutcome::Matched(_, a, _) => Some(a),
        RouteOutcome::Fallback(a) => Some(a),
        RouteOutcome::Discarded => None,
    }
}

/// The action that opens a session to a backend, or drops the packet.
pub open spec fn open_or_drop(backend: Option<Seq<char>>) -> PacketActionView {
    match backend {
        Some(a) => PacketActionView::Open(a),
        None => PacketActionView::Drop,
    }
}

/// The handling of a packet from a client without a session: routed by the
/// UDP router; a packet that no protocol identifies goes to the fallback
/// backend. Gives the action and the UDP balancer afterwards.
pub open spec fn new_session_spec(v: RefractiumView, data: Seq<u8>) -> (PacketActionView, BalancerView) {
    let (o, lb) = route_data(v.udp, data, v.health);
    match o {
        Some(x) => (open_or_drop(outcome_backend(x)), lb),
        None => {
            let (f, lb2) = fallback_route(lb, v.health);
            (open_or_drop(outcome_backend(f)), lb2)
        },
    }
}

/// Decides on a UDP packet from `peer`: a client with a session has its
/// packet forwarded and the engine is left as it was; otherwise the packet is
/// routed by the engine's UDP router (to the fallback backend where no
/// protocol identifies it), and a session is opened to the backend chosen,
/// if any.
pub fn packet_action<S>(engine: &mut Refractium, sessions: &SessionTable<S>, peer: PeerAddr, data: &[u8]) -> (r: PacketAction)
    requires
        old(engine).wf(),
    ensures
        final(engine).wf(),
        final(engine).token() == old(engine).token(),
        sessions@.contains_key(peer) ==> r@ == PacketActionView::Forward && *final(engine) == *old(engine),
        !sessions@.contains_key(peer) ==> {
            let (a, lb) = new_session_spec(old(engine)@, data@);
            &&& r@ == a
            &&& final(engine)@ == (RefractiumView {
                udp: RouterView { balancer: lb, ..old(engine)@.udp },
                ..old(engine)@
            })
        },
{
    if sessions.get(peer).is_some() {
        return PacketAction::Forward;
    }
    let routed = match engine.route_udp(data) {
        Some(x) => x,
        None => engine.route_fallback_udp(),
    };
    match routed {
        RouteResult::Matched(_, addr, _) => PacketAction::Open(addr),
        RouteResult::Fallback(addr) => PacketAction::Open(addr),
        RouteResult::Discarded => PacketAction::Drop,
    }
}


// ---------------------------------------------------------------------------
// Session lifetime
// ---------------------------------------------------------------------------

/// Seconds without traffic after which a UDP session ends.
pub const SESSION_IDLE_SECS: u64 = 30;

/// What happens on an open UDP session.
#[derive(Debug, Clone, Copy, PartialEq, Eq, Structural)]
pub enum SessionEvent {
    /// The backend sent a reply.
    BackendReply,
    /// The client sent another packet (forwarded by the server).
    ClientActivity,
    /// The session saw no traffic for [`SESSION_IDLE_SECS`] seconds.
    IdleTimeout,
}

/// What the session does in response.
#[derive(Debug, Clone, Copy, PartialEq, Eq, Structural)]
pub enum SessionAction {
    /// Relay the reply to the client and restart the idle timer.
    RelayAndReset,
    /// Restart the idle timer.
    Reset,
    /// End the session and forget the client.
    Close,
}

/// The response of a session to an event: replies are relayed, and any
/// traffic restarts the idle timer; idleness ends the session.
pub open spec fn session_step_spec(event: SessionEvent) -> SessionAction {
    match event {
        SessionEvent::BackendReply => SessionAction::RelayAndReset,
        SessionEvent::ClientActivity => SessionAction::Reset,
        SessionEvent::IdleTimeout => SessionAction::Close,
    }
}

/// Decides the response of a session to an event.
pub fn session_step(event: SessionEvent) -> (r: SessionAction)
    ensures
        r == session_step_spec(event),
{
    match event {
        SessionEvent::BackendReply => SessionAction::RelayAndReset,
        SessionEvent::ClientActivity => SessionAction::Reset,
        SessionEvent::IdleTimeout => SessionAction::Close,
    }
}

} // verus!
