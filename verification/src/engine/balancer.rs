//! Load balancing: round-robin selection of a healthy backend from the pool
//! that a protocol (and, where given, its SNI hostname) maps to.
use crate::engine::health::{healthy, HealthMonitor};
use crate::engine::types::{route_views, ProtocolRoute, RouteView};
use crate::protocols::RefractiumProtocol;
use crate::util::{
    assoc_map, concat, find_key, is_first_key, keyed, keys_unique, lemma_assoc_map_absent,
    lemma_assoc_map_at, lemma_assoc_map_values, lemma_map_push, lemma_map_update, lemma_same_keys,
    opt_view, str_eq, str_views,
};
use vstd::prelude::*;

verus! {

// ---------------------------------------------------------------------------
// Specification
// ---------------------------------------------------------------------------

/// The content of a [`BackendPool`].
pub struct PoolView {
    /// The backend addresses, in rotation order.
    pub addresses: Seq<Seq<char>>,
    /// The rotation counter.
    pub counter: nat,
}

/// The position `k` steps after `start` on a ring of `len` positions, for
/// `start` and `k` below `len`.
pub open spec fn ring(start: int, k: int, len: int) -> int {
    if start + k < len {
        start + k
    } else {
        start + k - len
    }
}

/// The number of steps, from `k` on, after `start` to the first healthy
/// address of the ring.
pub open spec fn first_healthy(
    addresses: Seq<Seq<char>>,
    start: int,
    k: int,
    statuses: Map<Seq<char>, bool>,
) -> Option<int>
    decreases addresses.len() - k,
{
    if k < 0 || k >= addresses.len() {
        None
    } else if healthy(statuses, addresses[ring(start, k, addresses.len() as int)]) {
        Some(k)
    } else {
        first_healthy(addresses, start, k + 1, statuses)
    }
}

/// Round-robin selection from a pool: starting at the counter's position,
/// the first healthy address is chosen and the counter moves just past it;
/// where none is healthy nothing is chosen and the counter stays at its
/// position.
pub open spec fn pool_pick(p: PoolView, statuses: Map<Seq<char>, bool>) -> (
    Option<Seq<char>>,
    PoolView,
) {
    let len = p.addresses.len() as int;
    if len == 0 {
        (None, p)
    } else {
        let start = (p.counter % (len as nat)) as int;
        match first_healthy(p.addresses, start, 0, statuses) {
            Some(k) => (
                Some(p.addresses[ring(start, k, len)]),
                PoolView { addresses: p.addresses, counter: ring(start, k + 1, len) as nat },
            ),
            None => (None, PoolView { addresses: p.addresses, counter: start as nat }),
        }
    }
}

/// The content of a [`LoadBalancer`].
pub struct BalancerView {
    /// The pool of each route key (`protocol` or `protocol:sni`).
    pub pools: Map<Seq<char>, PoolView>,
    /// The fallback backend.
    pub fallback: Option<Seq<char>>,
}

/// The key of a route: the name that its protocol's matches carry,
/// followed by `:` and the SNI hostname where the route has one.
pub open spec fn route_key(r: RouteView) -> Seq<char> {
    match r.sni {
        Some(s) => r.protocol.match_name() + ":"@ + s,
        None => r.protocol.match_name(),
    }
}

/// A route whose protocol is named `fallback`: it sets the fallback backend
/// instead of a pool.
pub open spec fn is_fallback_route(r: RouteView) -> bool {
    r.protocol.name() == "fallback"@
}

/// Two routes of the list, neither a fallback route, share the key `k`.
pub open spec fn duplicated_key(routes: Seq<RouteView>, k: Seq<char>) -> bool {
    exists|i: int, j: int|
        0 <= i < j < routes.len() && !is_fallback_route(#[trigger] routes[i]) && !is_fallback_route(
            #[trigger] routes[j],
        ) && route_key(routes[i]) == k && route_key(routes[j]) == k
}

/// Some key is shared by two routes of the list.
pub open spec fn has_duplicate_key(routes: Seq<RouteView>) -> bool {
    exists|k: Seq<char>| duplicated_key(routes, k)
}

/// The pools that a list of routes defines: each non-fallback route maps its
/// key to its addresses with a fresh counter; a later route replaces an
/// earlier one with the same key.
pub open spec fn build_pools(routes: Seq<RouteView>) -> Map<Seq<char>, PoolView>
    decreases routes.len(),
{
    if routes.len() == 0 {
        Map::empty()
    } else {
        let r = routes.last();
        let before = build_pools(routes.drop_last());
        if is_fallback_route(r) {
            before
        } else {
            before.insert(route_key(r), PoolView { addresses: r.addresses, counter: 0 })
        }
    }
}

/// The fallback backend that a list of routes defines: the first address of
/// the last route whose protocol is named `fallback`.
pub open spec fn build_fallback(routes: Seq<RouteView>) -> Option<Seq<char>>
    decreases routes.len(),
{
    if routes.len() == 0 {
        None
    } else {
        let r = routes.last();
        if is_fallback_route(r) {
            if r.addresses.len() > 0 {
                Some(r.addresses[0])
            } else {
                None
            }
        } else {
            build_fallback(routes.drop_last())
        }
    }
}

/// Selection from the pool of `key`, where there is one.
pub open spec fn pool_select(lb: BalancerView, key: Seq<char>, statuses: Map<Seq<char>, bool>) -> (
    Option<Seq<char>>,
    BalancerView,
) {
    if lb.pools.contains_key(key) {
        let (r, p) = pool_pick(lb.pools[key], statuses);
        (r, BalancerView { pools: lb.pools.insert(key, p), fallback: lb.fallback })
    } else {
        (None, lb)
    }
}

/// Backend selection for a protocol and optional metadata: first the pool of
/// `protocol:metadata`, then the pool of `protocol`, then, for the name
/// `fallback` only, the fallback backend if it is healthy.
pub open spec fn select(
    lb: BalancerView,
    protocol: Seq<char>,
    metadata: Option<Seq<char>>,
    statuses: Map<Seq<char>, bool>,
) -> (Option<Seq<char>>, BalancerView) {
    let specific = match metadata {
        Some(m) => pool_select(lb, protocol + ":"@ + m, statuses),
        None => (None, lb),
    };
    if specific.0 is Some {
        specific
    } else {
        let lb1 = specific.1;
        if lb1.pools.contains_key(protocol) {
            pool_select(lb1, protocol, statuses)
        } else if protocol == "fallback"@ && lb1.fallback is Some && healthy(
            statuses,
            lb1.fallback.unwrap(),
        ) {
            (lb1.fallback, lb1)
        } else {
            (None, lb1)
        }
    }
}

/// The status list of a pool: each address with whether it is healthy.
pub open spec fn pool_status(p: PoolView, statuses: Map<Seq<char>, bool>) -> Seq<(Seq<char>, bool)> {
    p.addresses.map_values(|a: Seq<char>| (a, healthy(statuses, a)))
}

// ---------------------------------------------------------------------------
// Implementation
// ---------------------------------------------------------------------------

/// A pool of backend addresses for one route key.
pub struct BackendPool {
    /// The backend addresses.
    pub addresses: Vec<String>,
    counter: usize,
}

impl View for BackendPool {
    type V = PoolView;

    closed spec fn view(&self) -> PoolView {
        PoolView { addresses: str_views(self.addresses@), counter: self.counter as nat }
    }
}

impl BackendPool {
    /// A pool over the given addresses, starting at the first.
    pub fn new(addresses: Vec<String>) -> (r: BackendPool)
        ensures
            r@ == (PoolView { addresses: str_views(addresses@), counter: 0 }),
    {
        BackendPool { addresses, counter: 0 }
    }
}

/// The content of an entry list of pools.
pub open spec fn pool_entries(e: Seq<(String, BackendPool)>) -> Seq<(Seq<char>, PoolView)> {
    e.map_values(|x: (String, BackendPool)| (x.0@, x.1@))
}

/// The content of a status report.
pub open spec fn status_entries(e: Seq<(String, Vec<(String, bool)>)>) -> Seq<
    (Seq<char>, Seq<(Seq<char>, bool)>),
> {
    e.map_values(|x: (String, Vec<(String, bool)>)| (x.0@, keyed(x.1@)))
}

/// A load balancer that maps route keys (`protocol` or `protocol:sni`) to
/// pools of backends.
pub struct LoadBalancer {
    routes: Vec<(String, BackendPool)>,
    fallback: Option<String>,
}

impl View for LoadBalancer {
    type V = BalancerView;

    closed spec fn view(&self) -> BalancerView {
        BalancerView { pools: assoc_map(pool_entries(self.routes@)), fallback: opt_view(self.fallback) }
    }
}

/// Round-robin selection from one pool; gives the chosen address and the new
/// counter.
fn pick_from_pool(pool: &BackendPool, health: &HealthMonitor) -> (r: (Option<String>, usize))
    ensures
        (opt_view(r.0), PoolView { addresses: pool@.addresses, counter: r.1 as nat }) == pool_pick(
            pool@,
            health@,
        ),
{
    let len = pool.addresses.len();
    if len == 0 {
        return (None, pool.counter);
    }
    let start = pool.counter % len;
    let ghost addrs = pool@.addresses;
    let mut k: usize = 0;
    while k < len
        invariant
            len == pool.addresses@.len(),
            addrs == pool@.addresses,
            start < len,
            start as int == (pool@.counter % (len as nat)) as int,
            k <= len,
            first_healthy(addrs, start as int, 0, health@) == first_healthy(
                addrs,
                start as int,
                k as int,
                health@,
            ),
        decreases len - k,
    {
        let idx = if k < len - start {
            start + k
        } else {
            k - (len - start)
        };
        assert(idx as int == ring(start as int, k as int, len as int));
        if health.is_healthy(pool.addresses[idx].as_str()) {
            let next = if k + 1 < len - start {
                start + k + 1
            } else {
                k + 1 - (len - start)
            };
            return (Some(pool.addresses[idx].clone()), next);
        }
        k = k + 1;
    }
    (None, start)
}

/// The key of a route.
fn route_key_of(route: &ProtocolRoute) -> (r: String)
    ensures
        r@ == route_key(route@),
{
    let matched = route.protocol.match_name();
    match &route.sni {
        Some(sni) => concat(concat(matched.as_str(), ":").as_str(), sni.as_str()),
        None => matched,
    }
}

/// Whether a route is a fallback route.
fn is_fallback(route: &ProtocolRoute) -> (r: bool)
    ensures
        r == is_fallback_route(route@),
{
    let name = route.protocol.name();
    str_eq(name.as_str(), "fallback")
}

/// A key that two routes share, if any.
pub(crate) fn find_duplicate_key(routes: &Vec<ProtocolRoute>) -> (r: Option<String>)
    ensures
        match r {
            Some(k) => duplicated_key(route_views(routes@), k@),
            None => !has_duplicate_key(route_views(routes@)),
        },
{
    let ghost rv = route_views(routes@);
    let n = routes.len();
    let mut i: usize = 0;
    while i < n
        invariant
            n == routes.len(),
            rv == route_views(routes@),
            i <= n,
            forall|a: int, b: int|
                0 <= a < i && a < b < n && !is_fallback_route(#[trigger] rv[a]) && !is_fallback_route(
                    #[trigger] rv[b],
                ) ==> route_key(rv[a]) != route_key(rv[b]),
        decreases n - i,
    {
        if !is_fallback(&routes[i]) {
            let ki = route_key_of(&routes[i]);
            let mut j: usize = i + 1;
            while j < n
                invariant
                    n == routes.len(),
                    rv == route_views(routes@),
                    i < j <= n,
                    !is_fallback_route(rv[i as int]),
                    ki@ == route_key(rv[i as int]),
                    forall|b: int|
                        i < b < j && !is_fallback_route(#[trigger] rv[b]) ==> route_key(rv[i as int])
                            != route_key(rv[b]),
                decreases n - j,
            {
                if !is_fallback(&routes[j]) {
                    let kj = route_key_of(&routes[j]);
                    if str_eq(ki.as_str(), kj.as_str()) {
                        assert(!is_fallback_route(rv[i as int]) && !is_fallback_route(rv[j as int]));
                        assert(duplicated_key(rv, ki@));
                        return Some(ki);
                    }
                }
                j = j + 1;
            }
        }
        i = i + 1;
    }
    assert(!has_duplicate_key(rv)) by {
        if has_duplicate_key(rv) {
            let k = choose|k: Seq<char>| duplicated_key(rv, k);
            let (a, b) = choose|a: int, b: int|
                0 <= a < b < rv.len() && !is_fallback_route(#[trigger] rv[a]) && !is_fallback_route(
                    #[trigger] rv[b],
                ) && route_key(rv[a]) == k && route_key(rv[b]) == k;
            assert(route_key(rv[a]) != route_key(rv[b]));
        }
    }
    None
}

impl LoadBalancer {
    /// The balancer's internal invariant: no route key is stored twice.
    pub closed spec fn wf(&self) -> bool {
        keys_unique(pool_entries(self.routes@))
    }

    /// Builds the pools of a list of routes. Routes whose protocol is named
    /// `fallback` set the fallback backend instead.
    pub fn new(routes: Vec<ProtocolRoute>) -> (r: LoadBalancer)
        ensures
            r.wf(),
            r@.pools == build_pools(route_views(routes@)),
            r@.fallback == build_fallback(route_views(routes@)),
    {
        let mut lb = LoadBalancer { routes: Vec::new(), fallback: None };
        let ghost rv = route_views(routes@);
        assert(lb@.pools =~= Map::<Seq<char>, PoolView>::empty());
        let mut i: usize = 0;
        while i < routes.len()
            invariant
                i <= routes.len(),
                rv == route_views(routes@),
                lb.wf(),
                lb@.pools == build_pools(rv.subrange(0, i as int)),
                lb@.fallback == build_fallback(rv.subrange(0, i as int)),
            decreases routes.len() - i,
        {
            let route = &routes[i];
            assert(rv.subrange(0, i + 1).drop_last() =~= rv.subrange(0, i as int));
            assert(rv.subrange(0, i + 1).last() == route@);
            let addrs = route.forward_to.to_vec();
            if is_fallback(route) {
                lb.fallback = if addrs.len() > 0 {
                    Some(addrs[0].clone())
                } else {
                    None
                };
            } else {
                let key = route_key_of(route);
                lb.insert_pool(key, BackendPool::new(addrs));
            }
            i = i + 1;
        }
        assert(rv.subrange(0, routes@.len() as int) =~= rv);
        lb
    }

    /// Stores `pool` under `key`, replacing a pool already stored there.
    fn insert_pool(&mut self, key: String, pool: BackendPool)
        requires
            old(self).wf(),
        ensures
            final(self).wf(),
            final(self)@.pools == old(self)@.pools.insert(key@, pool@),
            final(self)@.fallback == old(self)@.fallback,
    {
        let ghost k = key@;
        let ghost pv = pool@;
        match find_key(&self.routes, key.as_str()) {
            Some(i) => {
                proof {
                    lemma_same_keys(keyed(self.routes@), pool_entries(self.routes@));
                    lemma_map_update(pool_entries(self.routes@), k, i as int, pv);
                }
                let ghost before = self.routes@;
                self.routes.set(i, (key, pool));
                assert(pool_entries(self.routes@) =~= pool_entries(before).update(i as int, (k, pv)));
                assert(keys_unique(pool_entries(self.routes@))) by {
                    assert forall|a: int, b: int|
                        0 <= a < b < pool_entries(self.routes@).len() implies pool_entries(
                        self.routes@,
                    )[a].0 != pool_entries(self.routes@)[b].0 by {
                        assert(pool_entries(before)[a].0 != pool_entries(before)[b].0);
                    }
                }
            },
            None => {
                proof {
                    lemma_same_keys(keyed(self.routes@), pool_entries(self.routes@));
                    lemma_map_push(pool_entries(self.routes@), k, pv);
                }
                let ghost before = self.routes@;
                self.routes.push((key, pool));
                assert(pool_entries(self.routes@) =~= pool_entries(before).push((k, pv)));
                assert(keys_unique(pool_entries(self.routes@))) by {
                    assert forall|a: int, b: int|
                        0 <= a < b < pool_entries(self.routes@).len() implies pool_entries(
                        self.routes@,
                    )[a].0 != pool_entries(self.routes@)[b].0 by {
                        if b < pool_entries(before).len() {
                            assert(pool_entries(before)[a].0 != pool_entries(before)[b].0);
                        } else {
                            assert(pool_entries(before)[a].0 != k);
                        }
                    }
                }
            },
        }
    }

    /// Selection from the pool stored under `key`, where there is one.
    fn select_pool(&mut self, key: &str, health: &HealthMonitor) -> (r: Option<String>)
        requires
            old(self).wf(),
        ensures
            final(self).wf(),
            (opt_view(r), final(self)@) == pool_select(old(self)@, key@, health@),
    {
        proof {
            lemma_same_keys(keyed(self.routes@), pool_entries(self.routes@));
        }
        match find_key(&self.routes, key) {
            Some(i) => {
                proof {
                    lemma_assoc_map_at(pool_entries(self.routes@), key@, i as int);
                }
                let (r, counter) = pick_from_pool(&self.routes[i].1, health);
                let ghost before = self.routes@;
                let ghost pv = PoolView { addresses: before[i as int].1@.addresses, counter: counter as nat };
                let (k, pool) = self.routes.remove(i);
                let updated = BackendPool { addresses: pool.addresses, counter };
                assert(updated@ == pv);
                self.routes.insert(i, (k, updated));
                proof {
                    lemma_map_update(pool_entries(before), key@, i as int, pv);
                }
                assert(pool_entries(self.routes@) =~= pool_entries(before).update(i as int, (key@, pv)));
                assert(keys_unique(pool_entries(self.routes@))) by {
                    assert forall|a: int, b: int|
                        0 <= a < b < pool_entries(self.routes@).len() implies pool_entries(
                        self.routes@,
                    )[a].0 != pool_entries(self.routes@)[b].0 by {
                        assert(pool_entries(before)[a].0 != pool_entries(before)[b].0);
                    }
                }
                r
            },
            None => {
                proof {
                    lemma_assoc_map_absent(pool_entries(self.routes@), key@);
                }
                None
            },
        }
    }

    /// Selects the next healthy backend for a protocol and optional
    /// metadata: the pool of `protocol:metadata` first, then the pool of
    /// `protocol`, then, for the name `fallback`, the fallback backend.
    pub fn next_available(
        &mut self,
        protocol: &str,
        metadata: Option<&str>,
        health: &HealthMonitor,
    ) -> (r: Option<String>)
        requires
            old(self).wf(),
        ensures
            final(self).wf(),
            (opt_view(r), final(self)@) == select(
                old(self)@,
                protocol@,
                match metadata {
                    Some(m) => Some(m@),
                    None => None,
                },
                health@,
            ),
    {
        if let Some(m) = metadata {
            let key = concat(concat(protocol, ":").as_str(), m);
            let r = self.select_pool(key.as_str(), health);
            if r.is_some() {
                return r;
            }
        }
        proof {
            lemma_same_keys(keyed(self.routes@), pool_entries(self.routes@));
        }
        match find_key(&self.routes, protocol) {
            Some(i) => {
                proof {
                    lemma_assoc_map_at(pool_entries(self.routes@), protocol@, i as int);
                }
                return self.select_pool(protocol, health);
            },
            None => {
                proof {
                    lemma_assoc_map_absent(pool_entries(self.routes@), protocol@);
                }
            },
        }
        if str_eq(protocol, "fallback") {
            if let Some(fb) = &self.fallback {
                if health.is_healthy(fb.as_str()) {
                    return Some(fb.clone());
                }
            }
        }
        None
    }

    /// The health status of every backend of every pool, by route key.
    pub fn get_status(&self, health: &HealthMonitor) -> (r: Vec<(String, Vec<(String, bool)>)>)
        requires
            self.wf(),
        ensures
            keys_unique(status_entries(r@)),
            assoc_map(status_entries(r@)) == self@.pools.map_values(
                |p: PoolView| pool_status(p, health@),
            ),
    {
        let mut r: Vec<(String, Vec<(String, bool)>)> = Vec::new();
        let mut i: usize = 0;
        while i < self.routes.len()
            invariant
                i <= self.routes.len(),
                r@.len() == i,
                forall|j: int|
                    0 <= j < i ==> (#[trigger] status_entries(r@)[j]) == (
                        pool_entries(self.routes@)[j].0,
                        pool_status(pool_entries(self.routes@)[j].1, health@),
                    ),
            decreases self.routes.len() - i,
        {
            let pool = &self.routes[i].1;
            let mut backends: Vec<(String, bool)> = Vec::new();
            let mut j: usize = 0;
            while j < pool.addresses.len()
                invariant
                    j <= pool.addresses.len(),
                    backends@.len() == j,
                    forall|t: int|
                        0 <= t < j ==> (#[trigger] keyed(backends@)[t]) == (
                            pool@.addresses[t],
                            healthy(health@, pool@.addresses[t]),
                        ),
                decreases pool.addresses.len() - j,
            {
                let addr = pool.addresses[j].clone();
                let up = health.is_healthy(addr.as_str());
                let ghost before = backends@;
                backends.push((addr, up));
                assert(keyed(backends@)[j as int] == (pool@.addresses[j as int], healthy(
                    health@,
                    pool@.addresses[j as int],
                )));
                assert forall|t: int| 0 <= t < j + 1 implies #[trigger] keyed(backends@)[t] == (
                    pool@.addresses[t],
                    healthy(health@, pool@.addresses[t]),
                ) by {
                    if t < j {
                        assert(keyed(backends@)[t] == keyed(before)[t]);
                    }
                }
                j = j + 1;
            }
            assert(keyed(backends@) =~= pool_status(pool@, health@));
            let key = self.routes[i].0.clone();
            let ghost before = r@;
            assert(pool_entries(self.routes@)[i as int] == (key@, pool@));
            r.push((key, backends));
            assert(status_entries(r@)[i as int] == (key@, pool_status(pool@, health@)));
            assert forall|t: int| 0 <= t < i + 1 implies #[trigger] status_entries(r@)[t] == (
                pool_entries(self.routes@)[t].0,
                pool_status(pool_entries(self.routes@)[t].1, health@),
            ) by {
                if t < i {
                    assert(status_entries(r@)[t] == status_entries(before)[t]);
                }
            }
            i = i + 1;
        }
        proof {
            let f = |p: PoolView| pool_status(p, health@);
            lemma_assoc_map_values(pool_entries(self.routes@), status_entries(r@), f);
            assert forall|a: int, b: int|
                0 <= a < b < status_entries(r@).len() implies status_entries(r@)[a].0 != status_entries(
                r@,
            )[b].0 by {
                assert(status_entries(r@)[a].0 == pool_entries(self.routes@)[a].0);
                assert(status_entries(r@)[b].0 == pool_entries(self.routes@)[b].0);
            }
        }
        r
    }
}

// ---------------------------------------------------------------------------
// Laws
// ---------------------------------------------------------------------------

proof fn lemma_first_healthy(addresses: Seq<Seq<char>>, start: int, k: int, statuses: Map<Seq<char>, bool>)
    requires
        0 <= k,
    ensures
        match first_healthy(addresses, start, k, statuses) {
            Some(f) => k <= f < addresses.len() && healthy(statuses, addresses[ring(start, f, addresses.len() as int)])
                && forall|j: int| k <= j < f ==> !healthy(statuses, #[trigger] addresses[ring(start, j, addresses.len() as int)]),
            None => forall|j: int| k <= j < addresses.len() ==> !healthy(statuses, #[trigger] addresses[ring(start, j, addresses.len() as int)]),
        },
    decreases addresses.len() - k,
{
    if k < addresses.len() {
        lemma_first_healthy(addresses, start, k + 1, statuses);
    }
}

/// A backend chosen from a pool is one of its addresses and is healthy, and
/// the counter stays within the pool.
pub proof fn lemma_pick_sound(p: PoolView, statuses: Map<Seq<char>, bool>)
    ensures
        match pool_pick(p, statuses).0 {
            Some(a) => p.addresses.contains(a) && healthy(statuses, a),
            None => true,
        },
        p.addresses.len() > 0 ==> pool_pick(p, statuses).1.counter < p.addresses.len(),
        pool_pick(p, statuses).1.addresses == p.addresses,
{
    let len = p.addresses.len() as int;
    if len > 0 {
        let start = (p.counter % (len as nat)) as int;
        lemma_first_healthy(p.addresses, start, 0, statuses);
        if let Some(k) = first_healthy(p.addresses, start, 0, statuses) {
            assert(p.addresses[ring(start, k, len)] == p.addresses[ring(start, k, len)]);
        }
    }
}

/// A pool with at least one healthy address always yields a backend.
pub proof fn lemma_pick_complete(p: PoolView, statuses: Map<Seq<char>, bool>, i: int)
    requires
        0 <= i < p.addresses.len(),
        healthy(statuses, p.addresses[i]),
    ensures
        pool_pick(p, statuses).0 is Some,
{
    let len = p.addresses.len() as int;
    let start = (p.counter % (len as nat)) as int;
    lemma_first_healthy(p.addresses, start, 0, statuses);
    let k = if i >= start {
        i - start
    } else {
        i + len - start
    };
    assert(ring(start, k, len) == i);
    if first_healthy(p.addresses, start, 0, statuses) is None {
        assert(!healthy(statuses, p.addresses[ring(start, k, len)]));
    }
}

/// Round robin: where every address of a pool is healthy, a pick chooses the
/// address at the counter's position and moves the counter to the next
/// position, wrapping at the end.
pub proof fn lemma_pick_round_robin(p: PoolView, statuses: Map<Seq<char>, bool>)
    requires
        p.addresses.len() > 0,
        forall|i: int| 0 <= i < p.addresses.len() ==> healthy(statuses, #[trigger] p.addresses[i]),
    ensures
        pool_pick(p, statuses).0 == Some(p.addresses[(p.counter % p.addresses.len()) as int]),
        pool_pick(p, statuses).1.counter == (p.counter + 1) % p.addresses.len(),
{
    let len = p.addresses.len() as int;
    let start = (p.counter % (len as nat)) as int;
    assert(healthy(statuses, p.addresses[ring(start, 0, len)]));
    let c = p.counter as int;
    assert((c + 1) % len == if start + 1 < len { start + 1 } else { 0 }) by {
        vstd::arithmetic::div_mod::lemma_fundamental_div_mod(c, len);
        let q = c / len;
        assert(c == len * q + start);
        if start + 1 < len {
            assert(c + 1 == q * len + (start + 1)) by (nonlinear_arith)
                requires
                    c == len * q + start,
            ;
            vstd::arithmetic::div_mod::lemma_fundamental_div_mod_converse(c + 1, len, q, start + 1);
        } else {
            assert(c + 1 == (q + 1) * len + 0) by (nonlinear_arith)
                requires
                    c == len * q + start,
                    start + 1 == len,
            ;
            vstd::arithmetic::div_mod::lemma_fundamental_div_mod_converse(c + 1, len, q + 1, 0);
        }
    }
}


/// The pool after `k` consecutive picks.
pub open spec fn after_picks(p: PoolView, statuses: Map<Seq<char>, bool>, k: nat) -> PoolView
    decreases k,
{
    if k == 0 {
        p
    } else {
        pool_pick(after_picks(p, statuses, (k - 1) as nat), statuses).1
    }
}

/// Round robin over many picks: where every address of a pool is healthy and
/// the counter is within the pool, the pick after `k` others chooses the
/// address `k` positions after the counter, wrapping at the end.
pub proof fn lemma_round_robin_sequence(p: PoolView, statuses: Map<Seq<char>, bool>, k: nat)
    requires
        p.addresses.len() > 0,
        p.counter < p.addresses.len(),
        forall|i: int| 0 <= i < p.addresses.len() ==> healthy(statuses, #[trigger] p.addresses[i]),
    ensures
        after_picks(p, statuses, k).addresses == p.addresses,
        after_picks(p, statuses, k).counter == (p.counter + k) % p.addresses.len(),
        pool_pick(after_picks(p, statuses, k), statuses).0 == Some(
            p.addresses[((p.counter + k) % p.addresses.len()) as int],
        ),
    decreases k,
{
    let n = p.addresses.len();
    if k == 0 {
        vstd::arithmetic::div_mod::lemma_small_mod(p.counter, n);
    } else {
        lemma_round_robin_sequence(p, statuses, (k - 1) as nat);
        let q = after_picks(p, statuses, (k - 1) as nat);
        lemma_pick_round_robin(q, statuses);
        vstd::arithmetic::div_mod::lemma_add_mod_noop((p.counter + k - 1) as int, 1, n as int);
        vstd::arithmetic::div_mod::lemma_mod_twice((p.counter + k - 1) as int, n as int);
        vstd::arithmetic::div_mod::lemma_add_mod_noop(((p.counter + k - 1) % (n as int)) as int, 1, n as int);
    }
    let q = after_picks(p, statuses, k);
    lemma_pick_round_robin(q, statuses);
    vstd::arithmetic::div_mod::lemma_mod_twice((p.counter + k) as int, n as int);
}


/// The pools of routes without a shared key: one pool under the key of each
/// route that is not a fallback route, holding that route's addresses with
/// the rotation at the first of them, and no other pool.
pub proof fn lemma_build_pools(routes: Seq<RouteView>)
    requires
        !has_duplicate_key(routes),
    ensures
        forall|k: Seq<char>|
            #[trigger] build_pools(routes).contains_key(k) <==> exists|i: int|
                0 <= i < routes.len() && !is_fallback_route(#[trigger] routes[i]) && route_key(routes[i]) == k,
        forall|i: int|
            0 <= i < routes.len() && !is_fallback_route(#[trigger] routes[i]) ==> build_pools(routes)[route_key(
                routes[i],
            )] == (PoolView { addresses: routes[i].addresses, counter: 0 }),
    decreases routes.len(),
{
    if routes.len() > 0 {
        let front = routes.drop_last();
        let r = routes.last();
        let n = routes.len() - 1;
        assert(routes[n] == r);
        assert(!has_duplicate_key(front)) by {
            if has_duplicate_key(front) {
                let k = choose|k: Seq<char>| duplicated_key(front, k);
                let (a, b) = choose|a: int, b: int|
                    0 <= a < b < front.len() && !is_fallback_route(#[trigger] front[a]) && !is_fallback_route(
                        #[trigger] front[b],
                    ) && route_key(front[a]) == k && route_key(front[b]) == k;
                assert(routes[a] == front[a] && routes[b] == front[b]);
                assert(duplicated_key(routes, k));
            }
        }
        lemma_build_pools(front);
        let bp = build_pools(front);
        assert forall|k: Seq<char>|
            #[trigger] build_pools(routes).contains_key(k) <==> exists|i: int|
                0 <= i < routes.len() && !is_fallback_route(#[trigger] routes[i]) && route_key(routes[i]) == k by {
            if build_pools(routes).contains_key(k) {
                if bp.contains_key(k) {
                    let i = choose|i: int|
                        0 <= i < front.len() && !is_fallback_route(#[trigger] front[i]) && route_key(front[i]) == k;
                    assert(routes[i] == front[i]);
                } else {
                    assert(!is_fallback_route(routes[n]) && route_key(routes[n]) == k);
                }
            }
            if exists|i: int| 0 <= i < routes.len() && !is_fallback_route(#[trigger] routes[i]) && route_key(routes[i]) == k {
                let i = choose|i: int|
                    0 <= i < routes.len() && !is_fallback_route(#[trigger] routes[i]) && route_key(routes[i]) == k;
                if i < n {
                    assert(front[i] == routes[i]);
                }
            }
        }
        assert forall|i: int|
            0 <= i < routes.len() && !is_fallback_route(#[trigger] routes[i]) implies build_pools(routes)[route_key(
                routes[i],
            )] == (PoolView { addresses: routes[i].addresses, counter: 0 }) by {
            if i < n {
                assert(front[i] == routes[i]);
                if !is_fallback_route(r) {
                    assert(route_key(routes[i]) != route_key(r)) by {
                        if route_key(routes[i]) == route_key(r) {
                            assert(duplicated_key(routes, route_key(r)));
                        }
                    }
                }
            }
        }
    }
}


/// Selection with metadata whose pool yields a backend: the backend is the
/// pool's round-robin pick, the pool keeps its advanced rotation, and every
/// other pool and the fallback stay as they were.
pub proof fn lemma_select_specific(
    lb: BalancerView,
    protocol: Seq<char>,
    m: Seq<char>,
    statuses: Map<Seq<char>, bool>,
)
    requires
        lb.pools.contains_key(protocol + ":"@ + m),
        pool_pick(lb.pools[protocol + ":"@ + m], statuses).0 is Some,
    ensures
        select(lb, protocol, Some(m), statuses) == ({
            let key = protocol + ":"@ + m;
            let (a, p) = pool_pick(lb.pools[key], statuses);
            (a, BalancerView { pools: lb.pools.insert(key, p), fallback: lb.fallback })
        }),
{
}

/// The balancer after `k` selections for `protocol` with metadata `m`.
pub open spec fn after_selects(
    lb: BalancerView,
    protocol: Seq<char>,
    m: Seq<char>,
    statuses: Map<Seq<char>, bool>,
    k: nat,
) -> BalancerView
    decreases k,
{
    if k == 0 {
        lb
    } else {
        select(after_selects(lb, protocol, m, statuses, (k - 1) as nat), protocol, Some(m), statuses).1
    }
}

/// Round robin over a metadata pool: where every address of the pool of
/// `protocol:m` is healthy and its counter is within the pool, the selection
/// after `k` others with that metadata gives the address `k` positions after
/// the counter, wrapping at the end.
pub proof fn lemma_select_round_robin(
    lb: BalancerView,
    protocol: Seq<char>,
    m: Seq<char>,
    statuses: Map<Seq<char>, bool>,
    k: nat,
)
    requires
        lb.pools.contains_key(protocol + ":"@ + m),
        lb.pools[protocol + ":"@ + m].addresses.len() > 0,
        lb.pools[protocol + ":"@ + m].counter < lb.pools[protocol + ":"@ + m].addresses.len(),
        forall|i: int|
            0 <= i < lb.pools[protocol + ":"@ + m].addresses.len() ==> healthy(
                statuses,
                #[trigger] lb.pools[protocol + ":"@ + m].addresses[i],
            ),
    ensures
        after_selects(lb, protocol, m, statuses, k).pools.contains_key(protocol + ":"@ + m),
        after_selects(lb, protocol, m, statuses, k).pools[protocol + ":"@ + m] == after_picks(
            lb.pools[protocol + ":"@ + m],
            statuses,
            k,
        ),
        select(after_selects(lb, protocol, m, statuses, k), protocol, Some(m), statuses).0 == Some(
            lb.pools[protocol + ":"@ + m].addresses[((lb.pools[protocol + ":"@ + m].counter + k)
                % lb.pools[protocol + ":"@ + m].addresses.len()) as int],
        ),
    decreases k,
{
    let key = protocol + ":"@ + m;
    let p = lb.pools[key];
    lemma_round_robin_sequence(p, statuses, k);
    if k > 0 {
        lemma_select_round_robin(lb, protocol, m, statuses, (k - 1) as nat);
        let prev = after_selects(lb, protocol, m, statuses, (k - 1) as nat);
        lemma_round_robin_sequence(p, statuses, (k - 1) as nat);
        lemma_select_specific(prev, protocol, m, statuses);
    }
    let cur = after_selects(lb, protocol, m, statuses, k);
    lemma_select_specific(cur, protocol, m, statuses);
}

} // verus!
