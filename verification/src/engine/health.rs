//! The health table of backend addresses. Probing the backends is outside
//! work; the table records what the probes found and answers the load
//! balancer.
use crate::util::{
    assoc_map, find_key, keyed, keys_unique, lemma_assoc_map_at, lemma_map_push, lemma_map_update,
    str_views,
};
use vstd::prelude::*;

verus! {

/// Whether `addr` counts as healthy in a status map: an address that was
/// never probed counts as up.
pub open spec fn healthy(statuses: Map<Seq<char>, bool>, addr: Seq<char>) -> bool {
    if statuses.contains_key(addr) {
        statuses[addr]
    } else {
        true
    }
}

/// The status map after starting to monitor `targets`: each target not yet
/// known is recorded as up; known addresses keep their status.
pub open spec fn monitored(statuses: Map<Seq<char>, bool>, targets: Seq<Seq<char>>) -> Map<
    Seq<char>,
    bool,
> {
    Map::new(
        |a: Seq<char>| statuses.contains_key(a) || targets.contains(a),
        |a: Seq<char>|
            if statuses.contains_key(a) {
                statuses[a]
            } else {
                true
            },
    )
}

/// The recorded status of every monitored backend address.
pub struct HealthMonitor {
    statuses: Vec<(String, bool)>,
}

impl View for HealthMonitor {
    type V = Map<Seq<char>, bool>;

    closed spec fn view(&self) -> Map<Seq<char>, bool> {
        assoc_map(keyed(self.statuses@))
    }
}

impl HealthMonitor {
    /// The monitor's internal invariant: no address is recorded twice.
    pub closed spec fn wf(&self) -> bool {
        keys_unique(keyed(self.statuses@))
    }

    /// An empty monitor.
    pub fn new() -> (r: HealthMonitor)
        ensures
            r.wf(),
            r@ == Map::<Seq<char>, bool>::empty(),
    {
        let r = HealthMonitor { statuses: Vec::new() };
        assert(r@ =~= Map::<Seq<char>, bool>::empty());
        r
    }

    /// Whether a backend counts as healthy.
    pub fn is_healthy(&self, addr: &str) -> (r: bool)
        ensures
            r == healthy(self@, addr@),
    {
        match find_key(&self.statuses, addr) {
            Some(i) => {
                proof {
                    lemma_assoc_map_at(keyed(self.statuses@), addr@, i as int);
                }
                self.statuses[i].1
            },
            None => true,
        }
    }

    /// Records the outcome of a probe of `addr`.
    pub fn set_status(&mut self, addr: &str, up: bool)
        requires
            old(self).wf(),
        ensures
            final(self).wf(),
            final(self)@ == old(self)@.insert(addr@, up),
    {
        let key = String::from_str(addr);
        match find_key(&self.statuses, addr) {
            Some(i) => {
                proof {
                    lemma_map_update(keyed(self.statuses@), addr@, i as int, up);
                }
                self.statuses.set(i, (key, up));
                assert(keyed(self.statuses@) =~= keyed(old(self).statuses@).update(
                    i as int,
                    (addr@, up),
                ));
            },
            None => {
                proof {
                    lemma_map_push(keyed(self.statuses@), addr@, up);
                }
                self.statuses.push((key, up));
                assert(keyed(self.statuses@) =~= keyed(old(self).statuses@).push((addr@, up)));
            },
        }
    }

    /// Starts monitoring the given addresses: each one not yet known is
    /// recorded as up; known addresses keep their status.
    pub fn start_monitoring(&mut self, targets: &Vec<String>)
        requires
            old(self).wf(),
        ensures
            final(self).wf(),
            final(self)@ == monitored(old(self)@, str_views(targets@)),
    {
        let mut i: usize = 0;
        while i < targets.len()
            invariant
                i <= targets.len(),
                self.wf(),
                forall|a: Seq<char>| #[trigger]
                    self@.contains_key(a) == (old(self)@.contains_key(a) || str_views(
                        targets@,
                    ).subrange(0, i as int).contains(a)),
                forall|a: Seq<char>|
                    #[trigger] old(self)@.contains_key(a) ==> self@[a] == old(self)@[a],
                forall|a: Seq<char>|
                    self@.contains_key(a) && !old(self)@.contains_key(a) ==> #[trigger] self@[a],
            decreases targets.len() - i,
        {
            let addr: &str = targets[i].as_str();
            let ghost prev = self@;
            assert(str_views(targets@).subrange(0, i + 1) =~= str_views(targets@).subrange(
                0,
                i as int,
            ).push(addr@));
            match find_key(&self.statuses, addr) {
                Some(j) => {
                    proof {
                        lemma_assoc_map_at(keyed(self.statuses@), addr@, j as int);
                    }
                },
                None => {
                    proof {
                        lemma_map_push(keyed(self.statuses@), addr@, true);
                    }
                    let ghost before = self.statuses@;
                    self.statuses.push((String::from_str(addr), true));
                    assert(keyed(self.statuses@) =~= keyed(before).push((addr@, true)));
                    assert(keys_unique(keyed(self.statuses@)));
                    assert(self@ == prev.insert(addr@, true));
                },
            }
            assert(prev.contains_key(addr@) ==> self@ == prev);
            assert(self@.contains_key(addr@));
            assert forall|a: Seq<char>| #[trigger]
                str_views(targets@).subrange(0, i + 1).contains(a) == (str_views(targets@).subrange(
                    0,
                    i as int,
                ).contains(a) || a == addr@) by {
                let s0 = str_views(targets@).subrange(0, i as int);
                if s0.push(addr@).contains(a) && a != addr@ {
                    let j = choose|j: int| 0 <= j < s0.push(addr@).len() && s0.push(addr@)[j] == a;
                    assert(s0[j] == a);
                }
                if s0.contains(a) {
                    let j = choose|j: int| 0 <= j < s0.len() && s0[j] == a;
                    assert(s0.push(addr@)[j] == a);
                }
                if a == addr@ {
                    assert(s0.push(addr@)[i as int] == a);
                }
            }
            i = i + 1;
        }
        assert(str_views(targets@).subrange(0, targets@.len() as int) =~= str_views(targets@));
        assert(self@ =~= monitored(old(self)@, str_views(targets@)));
    }

    /// The monitored addresses, each once.
    pub fn targets(&self) -> (r: Vec<String>)
        requires
            self.wf(),
        ensures
            forall|a: Seq<char>| #[trigger] str_views(r@).contains(a) == self@.contains_key(a),
            forall|i: int, j: int| 0 <= i < j < r@.len() ==> r@[i]@ != r@[j]@,
    {
        let mut r: Vec<String> = Vec::new();
        let mut i: usize = 0;
        while i < self.statuses.len()
            invariant
                i <= self.statuses.len(),
                r@.len() == i,
                forall|j: int| 0 <= j < i ==> r@[j]@ == #[trigger] keyed(self.statuses@)[j].0,
            decreases self.statuses.len() - i,
        {
            r.push(self.statuses[i].0.clone());
            i = i + 1;
        }
        assert forall|a: Seq<char>| #[trigger] str_views(r@).contains(a) == self@.contains_key(a) by {
            if str_views(r@).contains(a) {
                let j = choose|j: int| 0 <= j < str_views(r@).len() && str_views(r@)[j] == a;
                assert(keyed(self.statuses@)[j].0 == a);
            }
            if self@.contains_key(a) {
                let j = choose|j: int|
                    0 <= j < keyed(self.statuses@).len() && keyed(self.statuses@)[j].0 == a;
                assert(str_views(r@)[j] == a);
            }
        }
        assert forall|i: int, j: int| 0 <= i < j < r@.len() implies r@[i]@ != r@[j]@ by {
            assert(keyed(self.statuses@)[i].0 != keyed(self.statuses@)[j].0);
        }
        r
    }
}


/// A recorded probe outcome is what the table answers for that address, and
/// the answer for every other address stays as it was.
pub proof fn lemma_status_recorded(statuses: Map<Seq<char>, bool>, addr: Seq<char>, up: bool, other: Seq<char>)
    ensures
        healthy(statuses.insert(addr, up), addr) == up,
        other != addr ==> healthy(statuses.insert(addr, up), other) == healthy(statuses, other),
{
}

/// An address that was never probed counts as up; starting to monitor it
/// keeps it up and keeps the status of addresses already known.
pub proof fn lemma_monitoring_keeps_status(statuses: Map<Seq<char>, bool>, targets: Seq<Seq<char>>, addr: Seq<char>)
    ensures
        healthy(monitored(statuses, targets), addr) == healthy(statuses, addr),
{
}

} // verus!
