//! Admission of incoming connections: a cap on concurrent connections per
//! client IP and a cap on all concurrent connections.
use crate::util::{
    assoc_map, is_first_key, keys_unique, lemma_assoc_map_absent, lemma_assoc_map_at,
    lemma_map_push, lemma_map_remove, lemma_map_update,
};
use vstd::prelude::*;

verus! {

/// A client IP address: IPv6 addresses with `v6` set, IPv4 addresses in the
/// low 32 bits.
#[derive(Debug, Clone, Copy, PartialEq, Eq, Structural)]
pub struct ClientIp {
    /// Whether this is an IPv6 address.
    pub v6: bool,
    /// The address bits.
    pub bits: u128,
}

/// The decision on an incoming connection.
#[derive(Debug, Clone, Copy, PartialEq, Eq, Structural)]
pub enum Admission {
    /// The connection may proceed.
    Admitted,
    /// The client IP already holds its maximum number of connections.
    RejectedPerIp,
    /// The server already holds its maximum number of connections.
    RejectedGlobal,
}

/// The content of a [`ConnectionLimiter`].
pub struct LimiterView {
    /// Open connections by client IP; IPs without connections are absent.
    pub per_ip: Map<ClientIp, nat>,
    /// Open connections in all.
    pub active: nat,
    /// The cap on all connections.
    pub max_connections: nat,
    /// The cap on connections per client IP.
    pub max_per_ip: nat,
}

/// The open connections of `ip`.
pub open spec fn open_count(per_ip: Map<ClientIp, nat>, ip: ClientIp) -> nat {
    if per_ip.contains_key(ip) {
        per_ip[ip]
    } else {
        0
    }
}

/// Admission of a connection from `ip`: refused where the IP is at its cap,
/// else refused where the server is at its cap, else counted.
pub open spec fn accept_spec(v: LimiterView, ip: ClientIp) -> (Admission, LimiterView) {
    let c = open_count(v.per_ip, ip);
    if c >= v.max_per_ip {
        (Admission::RejectedPerIp, v)
    } else if v.active >= v.max_connections {
        (Admission::RejectedGlobal, v)
    } else {
        (Admission::Admitted, LimiterView { per_ip: v.per_ip.insert(ip, c + 1), active: v.active + 1, ..v })
    }
}

/// The end of a connection from `ip`: its count drops by one (the IP is
/// forgotten at zero) and so does the total; an IP without open connections
/// changes nothing.
pub open spec fn release_spec(v: LimiterView, ip: ClientIp) -> LimiterView {
    let c = open_count(v.per_ip, ip);
    if c == 0 {
        v
    } else {
        LimiterView {
            per_ip: if c == 1 {
                v.per_ip.remove(ip)
            } else {
                v.per_ip.insert(ip, (c - 1) as nat)
            },
            active: if v.active > 0 {
                (v.active - 1) as nat
            } else {
                0
            },
            ..v
        }
    }
}

/// Counts of open connections and the caps that admission enforces.
pub struct ConnectionLimiter {
    counts: Vec<(ClientIp, usize)>,
    active: usize,
    max_connections: usize,
    max_per_ip: usize,
}

/// The content of a count list.
pub open spec fn count_entries(e: Seq<(ClientIp, usize)>) -> Seq<(ClientIp, nat)> {
    e.map_values(|x: (ClientIp, usize)| (x.0, x.1 as nat))
}

impl View for ConnectionLimiter {
    type V = LimiterView;

    closed spec fn view(&self) -> LimiterView {
        LimiterView {
            per_ip: assoc_map(count_entries(self.counts@)),
            active: self.active as nat,
            max_connections: self.max_connections as nat,
            max_per_ip: self.max_per_ip as nat,
        }
    }
}

impl ConnectionLimiter {
    /// The limiter's internal invariant: each IP is counted once, with a
    /// positive count.
    pub closed spec fn wf(&self) -> bool {
        &&& keys_unique(count_entries(self.counts@))
        &&& forall|i: int| 0 <= i < self.counts@.len() ==> (#[trigger] self.counts@[i]).1 > 0
    }

    /// A limiter with no open connections.
    pub fn new(max_connections: usize, max_per_ip: usize) -> (r: ConnectionLimiter)
        ensures
            r.wf(),
            r@.per_ip == Map::<ClientIp, nat>::empty(),
            r@.active == 0,
            r@.max_connections == max_connections,
            r@.max_per_ip == max_per_ip,
    {
        let r = ConnectionLimiter { counts: Vec::new(), active: 0, max_connections, max_per_ip };
        assert(r@.per_ip =~= Map::<ClientIp, nat>::empty());
        r
    }

    fn find(&self, ip: ClientIp) -> (r: Option<usize>)
        ensures
            match r {
                Some(i) => is_first_key(count_entries(self.counts@), ip, i as int),
                None => !crate::util::has_key(count_entries(self.counts@), ip),
            },
    {
        let mut i: usize = 0;
        while i < self.counts.len()
            invariant
                i <= self.counts.len(),
                forall|j: int| 0 <= j < i ==> count_entries(self.counts@)[j].0 != ip,
            decreases self.counts.len() - i,
        {
            if self.counts[i].0 == ip {
                return Some(i);
            }
            i = i + 1;
        }
        None
    }

    /// Decides on a connection from `ip` and counts it when admitted.
    pub fn try_accept(&mut self, ip: ClientIp) -> (r: Admission)
        requires
            old(self).wf(),
        ensures
            final(self).wf(),
            (r, final(self)@) == accept_spec(old(self)@, ip),
    {
        let ghost e = count_entries(self.counts@);
        match self.find(ip) {
            Some(i) => {
                proof {
                    lemma_assoc_map_at(e, ip, i as int);
                }
                let c = self.counts[i].1;
                if c >= self.max_per_ip {
                    return Admission::RejectedPerIp;
                }
                if self.active >= self.max_connections {
                    return Admission::RejectedGlobal;
                }
                proof {
                    lemma_map_update(e, ip, i as int, (c + 1) as nat);
                }
                self.counts.set(i, (ip, c + 1));
                self.active = self.active + 1;
                assert(count_entries(self.counts@) =~= e.update(i as int, (ip, (c + 1) as nat)));
                assert forall|a: int, b: int|
                    0 <= a < b < count_entries(self.counts@).len() implies count_entries(
                    self.counts@,
                )[a].0 != count_entries(self.counts@)[b].0 by {
                    assert(e[a].0 != e[b].0);
                }
                Admission::Admitted
            },
            None => {
                proof {
                    lemma_assoc_map_absent(e, ip);
                }
                if 0 >= self.max_per_ip {
                    return Admission::RejectedPerIp;
                }
                if self.active >= self.max_connections {
                    return Admission::RejectedGlobal;
                }
                proof {
                    lemma_map_push(e, ip, 1);
                }
                self.counts.push((ip, 1));
                self.active = self.active + 1;
                assert(count_entries(self.counts@) =~= e.push((ip, 1nat)));
                assert forall|a: int, b: int|
                    0 <= a < b < count_entries(self.counts@).len() implies count_entries(
                    self.counts@,
                )[a].0 != count_entries(self.counts@)[b].0 by {
                    if b < e.len() {
                        assert(e[a].0 != e[b].0);
                    } else {
                        assert(e[a].0 != ip);
                    }
                }
                Admission::Admitted
            },
        }
    }

    /// Records the end of an admitted connection from `ip`.
    pub fn release(&mut self, ip: ClientIp)
        requires
            old(self).wf(),
        ensures
            final(self).wf(),
            final(self)@ == release_spec(old(self)@, ip),
    {
        let ghost e = count_entries(self.counts@);
        match self.find(ip) {
            Some(i) => {
                proof {
                    lemma_assoc_map_at(e, ip, i as int);
                }
                let c = self.counts[i].1;
                if c == 1 {
                    proof {
                        lemma_map_remove(e, ip, i as int);
                    }
                    self.counts.remove(i);
                    assert(count_entries(self.counts@) =~= e.remove(i as int));
                } else {
                    proof {
                        lemma_map_update(e, ip, i as int, (c - 1) as nat);
                    }
                    self.counts.set(i, (ip, c - 1));
                    assert(count_entries(self.counts@) =~= e.update(i as int, (ip, (c - 1) as nat)));
                    assert forall|a: int, b: int|
                        0 <= a < b < count_entries(self.counts@).len() implies count_entries(
                        self.counts@,
                    )[a].0 != count_entries(self.counts@)[b].0 by {
                        assert(e[a].0 != e[b].0);
                    }
                }
                if self.active > 0 {
                    self.active = self.active - 1;
                }
            },
            None => {
                proof {
                    lemma_assoc_map_absent(e, ip);
                }
            },
        }
    }

    /// The open connections of `ip`.
    pub fn connections_of(&self, ip: ClientIp) -> (r: usize)
        ensures
            r == open_count(self@.per_ip, ip),
    {
        match self.find(ip) {
            Some(i) => {
                proof {
                    lemma_assoc_map_at(count_entries(self.counts@), ip, i as int);
                }
                self.counts[i].1
            },
            None => {
                proof {
                    lemma_assoc_map_absent(count_entries(self.counts@), ip);
                }
                0
            },
        }
    }
}

// ---------------------------------------------------------------------------
// Laws
// ---------------------------------------------------------------------------

/// The caps hold: where every IP is within its cap and the total within its
/// cap, they still are after any admission.
pub proof fn lemma_accept_within_caps(v: LimiterView, ip: ClientIp)
    requires
        forall|x: ClientIp| #[trigger] open_count(v.per_ip, x) <= v.max_per_ip,
        v.active <= v.max_connections,
    ensures
        forall|x: ClientIp| #[trigger] open_count(accept_spec(v, ip).1.per_ip, x) <= v.max_per_ip,
        accept_spec(v, ip).1.active <= v.max_connections,
{
    assert forall|x: ClientIp| #[trigger] open_count(accept_spec(v, ip).1.per_ip, x) <= v.max_per_ip by {
        assert(open_count(v.per_ip, x) <= v.max_per_ip);
        assert(open_count(v.per_ip, ip) <= v.max_per_ip);
    }
}

/// Releasing a connection just admitted gives back the state from before the
/// admission.
pub proof fn lemma_accept_release(v: LimiterView, ip: ClientIp)
    requires
        forall|x: ClientIp| #[trigger] v.per_ip.contains_key(x) ==> v.per_ip[x] > 0,
        accept_spec(v, ip).0 == Admission::Admitted,
    ensures
        release_spec(accept_spec(v, ip).1, ip) == v,
{
    let c = open_count(v.per_ip, ip);
    let v1 = accept_spec(v, ip).1;
    if c == 0 {
        assert(v1.per_ip.insert(ip, 1).remove(ip) =~= v.per_ip);
        assert(v1.per_ip.remove(ip) =~= v.per_ip);
    } else {
        assert(v1.per_ip.insert(ip, c) =~= v.per_ip);
    }
}


/// An event seen by the limiter: a connection attempt from an IP, or the end
/// of an admitted connection from an IP.
pub enum LimiterEvent {
    /// A connection attempt.
    Accept(ClientIp),
    /// The end of an admitted connection.
    Release(ClientIp),
}

/// The limiter after a sequence of events.
pub open spec fn replay(v: LimiterView, evs: Seq<LimiterEvent>) -> LimiterView
    decreases evs.len(),
{
    if evs.len() == 0 {
        v
    } else {
        let w = replay(v, evs.drop_last());
        match evs.last() {
            LimiterEvent::Accept(ip) => accept_spec(w, ip).1,
            LimiterEvent::Release(ip) => release_spec(w, ip),
        }
    }
}

/// The connections from `ip` that the events admitted and have not ended.
pub open spec fn held(v: LimiterView, evs: Seq<LimiterEvent>, ip: ClientIp) -> int
    decreases evs.len(),
{
    if evs.len() == 0 {
        0
    } else {
        let w = replay(v, evs.drop_last());
        let h = held(v, evs.drop_last(), ip);
        match evs.last() {
            LimiterEvent::Accept(j) => if j == ip && accept_spec(w, j).0 == Admission::Admitted {
                h + 1
            } else {
                h
            },
            LimiterEvent::Release(j) => if j == ip {
                h - 1
            } else {
                h
            },
        }
    }
}

/// Every release ends a connection that was admitted and has not ended.
pub open spec fn releases_paired(v: LimiterView, evs: Seq<LimiterEvent>) -> bool {
    forall|k: int|
        0 <= k < evs.len() ==> (#[trigger] evs[k] matches LimiterEvent::Release(ip) ==> held(
            v,
            evs.take(k),
            ip,
        ) > 0)
}

/// The limiter over any interleaving of connection attempts and ends of
/// admitted connections, from no open connections: each IP's count is the
/// number of its admitted connections that have not ended, and an IP with
/// none is forgotten; and both caps hold throughout.
pub proof fn lemma_limiter_interleavings(v: LimiterView, evs: Seq<LimiterEvent>)
    requires
        v.per_ip == Map::<ClientIp, nat>::empty(),
        v.active == 0,
        releases_paired(v, evs),
    ensures
        forall|ip: ClientIp| #[trigger] open_count(replay(v, evs).per_ip, ip) == held(v, evs, ip),
        forall|ip: ClientIp| #[trigger] replay(v, evs).per_ip.contains_key(ip) <==> held(v, evs, ip) > 0,
        forall|ip: ClientIp| #[trigger] open_count(replay(v, evs).per_ip, ip) <= v.max_per_ip,
        replay(v, evs).active <= v.max_connections,
        replay(v, evs).max_per_ip == v.max_per_ip,
        replay(v, evs).max_connections == v.max_connections,
    decreases evs.len(),
{
    if evs.len() > 0 {
        let front = evs.drop_last();
        assert forall|k: int| 0 <= k < front.len() implies (#[trigger] front[k] matches LimiterEvent::Release(
            ip,
        ) ==> held(v, front.take(k), ip) > 0) by {
            assert(front[k] == evs[k]);
            assert(front.take(k) =~= evs.take(k));
        }
        lemma_limiter_interleavings(v, front);
        let w = replay(v, front);
        match evs.last() {
            LimiterEvent::Accept(j) => {
                lemma_accept_within_caps(w, j);
                assert forall|ip: ClientIp| #[trigger] open_count(replay(v, evs).per_ip, ip) == held(v, evs, ip) by {
                    assert(open_count(w.per_ip, ip) == held(v, front, ip));
                }
            },
            LimiterEvent::Release(j) => {
                let k = evs.len() - 1;
                assert(evs[k] == evs.last());
                assert(evs.take(k) =~= front);
                assert(held(v, front, j) > 0);
                assert(open_count(w.per_ip, j) == held(v, front, j));
                assert forall|ip: ClientIp| #[trigger] open_count(replay(v, evs).per_ip, ip) == held(v, evs, ip) by {
                    assert(open_count(w.per_ip, ip) == held(v, front, ip));
                }
                assert forall|ip: ClientIp| #[trigger] open_count(replay(v, evs).per_ip, ip) <= v.max_per_ip by {
                    assert(open_count(w.per_ip, ip) <= v.max_per_ip);
                }
            },
        }
    }
}

} // verus!
