//! The route table and the forwarding decision.
//!
//! For every known destination the table holds the candidate routes:
//! the transport path, a cost (lower is better, direct paths cost
//! less than relayed ones), a latency estimate, and when the path
//! last carried inbound traffic. Selection picks the minimal route
//! under the configured order; sweeping evicts what has gone idle.
//! The forwarding decision turns an inbound header and a table
//! snapshot into what the node does with the packet — it reads
//! nothing else.

use vstd::prelude::*;

use crate::node::NodeID;
use crate::packet::PacketHeader;

verus! {

/// An opaque identifier of one concrete transport path, as the
/// transport layer hands them out; equal keys name one path.
#[derive(Debug, Clone, Copy, PartialEq, Eq, Structural, Hash)]
pub struct RouteKey {
    pub index: u64,
}

/// One candidate path to a destination.
#[derive(Debug, Clone, Copy, PartialEq)]
pub struct Route {
    pub key: RouteKey,
    /// Rank of the path kind: direct UDP 0, direct TCP 1, relayed
    /// UDP 2, relayed TCP 3.
    pub cost: u32,
    /// Round-trip estimate, in milliseconds.
    pub rtt_estimate: u32,
    pub is_direct: bool,
    /// The next hop of a relayed route.
    pub relay_via: Option<NodeID>,
    /// When the path last carried inbound traffic, in milliseconds
    /// of monotonic time.
    pub last_activity: u64,
}

/// The routes of one destination.
#[derive(Debug)]
pub struct RouteEntry {
    pub id: NodeID,
    pub routes: Vec<Route>,
}

/// Route order: by cost, then latency estimate, then direct before
/// relayed; with `first_latency` the latency estimate outranks the
/// cost. Ties keep the earlier route, so selection is stable.
pub open spec fn route_le(a: Route, b: Route, first_latency: bool) -> bool {
    if first_latency {
        if a.rtt_estimate != b.rtt_estimate {
            a.rtt_estimate < b.rtt_estimate
        } else if a.cost != b.cost {
            a.cost < b.cost
        } else {
            a.is_direct || !b.is_direct
        }
    } else {
        if a.cost != b.cost {
            a.cost < b.cost
        } else if a.rtt_estimate != b.rtt_estimate {
            a.rtt_estimate < b.rtt_estimate
        } else {
            a.is_direct || !b.is_direct
        }
    }
}

/// The position of the selected route: the minimum under `route_le`,
/// the earliest of equals.
pub open spec fn best_idx(s: Seq<Route>, first_latency: bool) -> int
    recommends
        s.len() > 0,
    decreases s.len(),
{
    if s.len() <= 1 {
        0
    } else {
        let b = best_idx(s.drop_last(), first_latency);
        if route_le(s[b], s.last(), first_latency) {
            b
        } else {
            s.len() - 1
        }
    }
}

/// The selected route is in range and no route ranks below it.
pub proof fn lemma_best_idx(s: Seq<Route>, first_latency: bool)
    requires
        s.len() > 0,
    ensures
        0 <= best_idx(s, first_latency) < s.len(),
        forall|j: int| 0 <= j < s.len() ==> route_le(s[best_idx(s, first_latency)], s[j], first_latency),
    decreases s.len(),
{
    if s.len() > 1 {
        let d = s.drop_last();
        lemma_best_idx(d, first_latency);
        let b0 = best_idx(d, first_latency);
        assert(forall|j: int| 0 <= j < s.len() - 1 ==> d[j] == s[j]);
        if route_le(s[b0], s.last(), first_latency) {
            assert forall|j: int| 0 <= j < s.len() implies route_le(
                s[best_idx(s, first_latency)],
                s[j],
                first_latency,
            ) by {
                if j < s.len() - 1 {
                    assert(route_le(d[b0], d[j], first_latency));
                }
            }
        } else {
            assert forall|j: int| 0 <= j < s.len() implies route_le(
                s[best_idx(s, first_latency)],
                s[j],
                first_latency,
            ) by {
                if j < s.len() - 1 {
                    assert(route_le(d[b0], d[j], first_latency));
                    assert(route_le(s.last(), s[b0], first_latency));
                }
            }
        }
    }
}

/// Where direct routes cost less than relayed ones — as the cost
/// ranking assigns them — selection by cost returns a direct route
/// whenever the destination has one.
pub proof fn lemma_direct_preferred(s: Seq<Route>, d: int)
    requires
        forall|j: int| 0 <= j < s.len() ==> ((#[trigger] s[j]).is_direct <==> s[j].cost <= 1),
        0 <= d < s.len(),
        s[d].is_direct,
    ensures
        s[best_idx(s, false)].is_direct,
{
    lemma_best_idx(s, false);
    let b = best_idx(s, false);
    assert(route_le(s[b], s[d], false));
    assert(s[d].cost <= 1);
    assert(s[b].cost <= 1);
}

/// First position whose entry holds the given identifier bytes.
pub open spec fn idx_of(s: Seq<RouteEntry>, id: Seq<u8>) -> Option<int>
    decreases s.len(),
{
    if s.len() == 0 {
        None
    } else if s[0].id@ == id {
        Some(0)
    } else {
        match idx_of(s.drop_first(), id) {
            None => None,
            Some(k) => Some(k + 1),
        }
    }
}

/// What `idx_of` answers once the first `i` entries are known not to
/// match: the match at `i` is found, and a full scan without a match
/// means there is none.
proof fn lemma_idx_of_scan(s: Seq<RouteEntry>, id: Seq<u8>, i: int)
    requires
        0 <= i <= s.len(),
        forall|k: int| 0 <= k < i ==> (#[trigger] s[k]).id@ != id,
    ensures
        i < s.len() && s[i].id@ == id ==> idx_of(s, id) == Some(i),
        i == s.len() ==> idx_of(s, id) is None,
    decreases i,
{
    if i == 0 {
        if s.len() == 0 {
        } else if s[0].id@ == id {
        } else {
        }
    } else {
        let rest = s.drop_first();
        assert(s[0].id@ != id);
        assert(forall|k: int| 0 <= k < i - 1 ==> (#[trigger] rest[k]).id@ != id) by {
            assert(forall|k: int| 0 <= k < i - 1 ==> rest[k] == s[k + 1]);
        }
        lemma_idx_of_scan(rest, id, i - 1);
        if i < s.len() && s[i].id@ == id {
            assert(rest[i - 1] == s[i]);
        }
    }
}

/// The routes still within their idle budget, in order.
pub open spec fn keep_live(s: Seq<Route>, now: u64, idle: u64) -> Seq<Route>
    decreases s.len(),
{
    if s.len() == 0 {
        Seq::empty()
    } else {
        keep_live(s.drop_last(), now, idle) + (if now - s.last().last_activity <= idle {
            seq![s.last()]
        } else {
            Seq::empty()
        })
    }
}

/// Every route that survives a sweep is within its idle budget.
pub proof fn lemma_keep_live_fresh(s: Seq<Route>, now: u64, idle: u64)
    ensures
        forall|j: int| 0 <= j < keep_live(s, now, idle).len() ==> now - (#[trigger] keep_live(
            s,
            now,
            idle,
        )[j]).last_activity <= idle,
    decreases s.len(),
{
    if s.len() > 0 {
        lemma_keep_live_fresh(s.drop_last(), now, idle);
    }
}

/// The routes that do not use the given path, in order.
pub open spec fn keep_key(s: Seq<Route>, key: RouteKey) -> Seq<Route>
    decreases s.len(),
{
    if s.len() == 0 {
        Seq::empty()
    } else {
        keep_key(s.drop_last(), key) + (if s.last().key == key {
            Seq::empty()
        } else {
            seq![s.last()]
        })
    }
}

/// A refresh of a known path: the liveness mark and the latency
/// estimate are taken over, everything else stays.
pub open spec fn refreshed(old_route: Route, update: Route) -> Route {
    Route {
        rtt_estimate: update.rtt_estimate,
        last_activity: update.last_activity,
        ..old_route
    }
}

/// First position of a route using the given path.
pub open spec fn key_idx(s: Seq<Route>, key: RouteKey) -> Option<int>
    decreases s.len(),
{
    if s.len() == 0 {
        None
    } else if s[0].key == key {
        Some(0)
    } else {
        match key_idx(s.drop_first(), key) {
            None => None,
            Some(k) => Some(k + 1),
        }
    }
}

proof fn lemma_key_idx_scan(s: Seq<Route>, key: RouteKey, i: int)
    requires
        0 <= i <= s.len(),
        forall|k: int| 0 <= k < i ==> (#[trigger] s[k]).key != key,
    ensures
        i < s.len() && s[i].key == key ==> key_idx(s, key) == Some(i),
        i == s.len() ==> key_idx(s, key) is None,
    decreases i,
{
    if i > 0 {
        let rest = s.drop_first();
        assert(forall|k: int| 0 <= k < i - 1 ==> (#[trigger] rest[k]).key != key) by {
            assert(forall|k: int| 0 <= k < i - 1 ==> rest[k] == s[k + 1]);
        }
        lemma_key_idx_scan(rest, key, i - 1);
        if i < s.len() && s[i].key == key {
            assert(rest[i - 1] == s[i]);
        }
    }
}

/// Mapping destination identifiers to their candidate routes.
pub struct RouteTable {
    pub entries: Vec<RouteEntry>,
}

impl RouteTable {
    /// The table's invariant: one entry per destination, one route
    /// per path within an entry, and no route relayed through its own
    /// destination.
    pub open spec fn wf(self) -> bool {
        &&& forall|i: int, j: int|
            #![trigger self.entries@[i].id, self.entries@[j].id]
            0 <= i < j < self.entries@.len() ==> self.entries@[i].id@ != self.entries@[j].id@
        &&& forall|e: int, i: int, j: int|
            #![trigger self.entries@[e].routes@[i], self.entries@[e].routes@[j]]
            0 <= e < self.entries@.len() && 0 <= i < j < self.entries@[e].routes@.len()
                ==> self.entries@[e].routes@[i].key != self.entries@[e].routes@[j].key
        &&& forall|e: int, i: int|
            0 <= e < self.entries@.len() && 0 <= i < self.entries@[e].routes@.len() ==> ((
            #[trigger] self.entries@[e].routes@[i]).relay_via matches Some(v) ==> v@
                != self.entries@[e].id@)
    }

    /// The routes the table holds for a destination.
    pub open spec fn spec_routes(self, dst: NodeID) -> Seq<Route> {
        match idx_of(self.entries@, dst@) {
            None => Seq::empty(),
            Some(i) => self.entries@[i].routes@,
        }
    }

    pub fn new() -> (r: Self)
        ensures
            r.wf(),
            r.entries@.len() == 0,
    {
        Self { entries: Vec::new() }
    }

    /// Position of the destination's entry, if the table has one.
    fn find_entry(&self, dst: &NodeID) -> (r: Option<usize>)
        ensures
            r matches Some(i) ==> idx_of(self.entries@, dst@) == Some(i as int) && i
                < self.entries@.len() && self.entries@[i as int].id@ == dst@,
            r is None ==> idx_of(self.entries@, dst@) is None && forall|k: int|
                0 <= k < self.entries@.len() ==> (#[trigger] self.entries@[k]).id@ != dst@,
    {
        let n = self.entries.len();
        let mut i: usize = 0;
        while i < n
            invariant
                n == self.entries@.len(),
                0 <= i <= n,
                forall|k: int| 0 <= k < i ==> (#[trigger] self.entries@[k]).id@ != dst@,
            decreases n - i,
        {
            if self.entries[i].id == *dst {
                proof {
                    lemma_idx_of_scan(self.entries@, dst@, i as int);
                }
                return Some(i);
            }
            i = i + 1;
        }
        proof {
            lemma_idx_of_scan(self.entries@, dst@, n as int);
        }
        None
    }

    /// Record a path to a destination: a known path is refreshed (its
    /// liveness mark and latency estimate taken over), a new one is
    /// added; a route relayed through its own destination is refused
    /// and changes nothing. Other destinations' routes are untouched.
    #[verifier::rlimit(60)]
    pub fn insert_or_refresh(&mut self, dst: NodeID, route: Route) -> (r: bool)
        requires
            old(self).wf(),
        ensures
            final(self).wf(),
            (route.relay_via matches Some(v) && v@ == dst@) ==> (!r && final(self).entries@
                == old(self).entries@),
            !(route.relay_via matches Some(v) && v@ == dst@) ==> {
                &&& r
                &&& match idx_of(old(self).entries@, dst@) {
                    None => {
                        &&& final(self).entries@.len() == old(self).entries@.len() + 1
                        &&& forall|k: int|
                            0 <= k < old(self).entries@.len() ==> (#[trigger] final(self).entries@[k]).id == old(self).entries@[k].id && final(self).entries@[k].routes@ == old(self).entries@[k].routes@
                        &&& final(self).entries@.last().id == dst
                        &&& final(self).entries@.last().routes@ == seq![route]
                    },
                    Some(i) => {
                        &&& final(self).entries@.len() == old(self).entries@.len()
                        &&& forall|k: int|
                            0 <= k < old(self).entries@.len() && k != i ==> (#[trigger] final(self).entries@[k]).id == old(self).entries@[k].id && final(self).entries@[k].routes@ == old(self).entries@[k].routes@
                        &&& final(self).entries@[i].id == old(self).entries@[i].id
                        &&& final(self).entries@[i].routes@ == (match key_idx(
                            old(self).entries@[i].routes@,
                            route.key,
                        ) {
                            None => old(self).entries@[i].routes@.push(route),
                            Some(j) => old(self).entries@[i].routes@.update(
                                j,
                                refreshed(old(self).entries@[i].routes@[j], route),
                            ),
                        })
                    },
                }
            },
    {
        if let Some(v) = &route.relay_via {
            if *v == dst {
                return false;
            }
        }
        let found = self.find_entry(&dst);
        match found {
            None => {
                let mut routes: Vec<Route> = Vec::new();
                routes.push(route);
                assert(routes@ =~= seq![route]);
                self.entries.push(RouteEntry { id: dst, routes });
                proof {
                    let es = self.entries@;
                    let n0 = old(self).entries@.len() as int;
                    assert(forall|k: int| 0 <= k < n0 ==> es[k] == old(self).entries@[k]);
                    assert forall|i: int, j: int|
                        #![trigger es[i].id, es[j].id]
                        0 <= i < j < es.len() implies es[i].id@ != es[j].id@ by {
                        if j == n0 {
                            assert(old(self).entries@[i].id@ != dst@);
                        }
                    }
                    assert forall|e: int, i: int, j: int|
                        #![trigger es[e].routes@[i], es[e].routes@[j]]
                        0 <= e < es.len() && 0 <= i < j < es[e].routes@.len() implies es[e].routes@[i].key
                        != es[e].routes@[j].key by {
                        if e == n0 {
                            assert(es[e].routes@.len() == 1);
                        }
                    }
                    assert forall|e: int, i: int|
                        0 <= e < es.len() && 0 <= i < es[e].routes@.len() implies ((
                    #[trigger] es[e].routes@[i]).relay_via matches Some(v) ==> v@
                        != es[e].id@) by {
                        if e < n0 {
                            assert(old(self).entries@[e].routes@[i].relay_via matches Some(v)
                                ==> v@ != old(self).entries@[e].id@);
                        } else {
                            assert(es[e].routes@[i] == route);
                        }
                    }
                }
                true
            },
            Some(i) => {
                let ghost entries0 = self.entries@;
                let mut entry = self.entries.remove(i);
                let ghost routes0 = entry.routes@;
                // Position of the path inside the entry, if known.
                let m = entry.routes.len();
                let mut j: usize = 0;
                let mut at: Option<usize> = None;
                while j < m
                    invariant
                        m == entry.routes@.len(),
                        0 <= j <= m,
                        entry.routes@ == routes0,
                        at is None ==> forall|k: int|
                            0 <= k < j ==> (#[trigger] routes0[k]).key != route.key,
                        at matches Some(p) ==> key_idx(routes0, route.key) == Some(p as int) && p
                            < m,
                    decreases m - j,
                {
                    if at.is_none() && entry.routes[j].key == route.key {
                        proof {
                            lemma_key_idx_scan(routes0, route.key, j as int);
                        }
                        at = Some(j);
                    }
                    j = j + 1;
                }
                match at {
                    None => {
                        proof {
                            lemma_key_idx_scan(routes0, route.key, m as int);
                        }
                        entry.routes.push(route);
                    },
                    Some(p) => {
                        let old_route = entry.routes.remove(p);
                        entry.routes.insert(
                            p,
                            Route {
                                rtt_estimate: route.rtt_estimate,
                                last_activity: route.last_activity,
                                ..old_route
                            },
                        );
                        assert(entry.routes@ =~= routes0.update(
                            p as int,
                            refreshed(routes0[p as int], route),
                        ));
                    },
                }
                let ghost entry_snap = entry;
                self.entries.insert(i, entry);
                proof {
                    let es = self.entries@;
                    let ii = i as int;
                    assert(es =~= entries0.update(ii, entry_snap));
                    assert(routes0 == entries0[ii].routes@);
                    assert(entry_snap.id == entries0[ii].id);
                    assert(entries0[ii].id@ == dst@);
                    let nr = entry_snap.routes@;
                    // The entry's new route list: refreshed in place or extended,
                    // with keys and relay restrictions preserved.
                    assert forall|x: int, y: int|
                        #![trigger nr[x], nr[y]]
                        0 <= x < y < nr.len() implies nr[x].key != nr[y].key by {
                        assert(routes0[x].key != routes0[y].key || y == routes0.len());
                        if y < routes0.len() {
                            assert(nr[x].key == routes0[x].key);
                            assert(nr[y].key == routes0[y].key);
                        } else {
                            assert(nr[y] == route);
                            assert(nr[x].key == routes0[x].key);
                            assert(routes0[x].key != route.key);
                        }
                    }
                    assert forall|x: int|
                        0 <= x < nr.len() implies ((#[trigger] nr[x]).relay_via matches Some(v)
                            ==> v@ != entry_snap.id@) by {
                        if x < routes0.len() {
                            assert(nr[x].relay_via == routes0[x].relay_via);
                            assert(routes0[x].relay_via matches Some(v) ==> v@
                                != entries0[ii].id@);
                        } else {
                            assert(nr[x] == route);
                        }
                    }
                    assert forall|a: int, b: int|
                        #![trigger es[a].id, es[b].id]
                        0 <= a < b < es.len() implies es[a].id@ != es[b].id@ by {
                        if a != ii && b != ii {
                            assert(es[a] == entries0[a] && es[b] == entries0[b]);
                        } else {
                            assert(es[ii].id == entries0[ii].id);
                        }
                    }
                    assert forall|e: int, x: int, y: int|
                        #![trigger es[e].routes@[x], es[e].routes@[y]]
                        0 <= e < es.len() && 0 <= x < y < es[e].routes@.len() implies es[e].routes@[x].key
                        != es[e].routes@[y].key by {
                        if e != ii {
                            assert(es[e] == entries0[e]);
                        }
                    }
                    assert forall|e: int, x: int|
                        0 <= e < es.len() && 0 <= x < es[e].routes@.len() implies ((
                    #[trigger] es[e].routes@[x]).relay_via matches Some(v) ==> v@
                        != es[e].id@) by {
                        if e != ii {
                            assert(es[e] == entries0[e]);
                        }
                    }
                }
                true
            },
        }
    }

    /// The selected route of a destination: the minimum under the
    /// configured order, the earliest of equals; `None` exactly when
    /// the destination has no route, and the sender must attempt
    /// discovery.
    pub fn select(&self, dst: &NodeID, first_latency: bool) -> (r: Option<Route>)
        ensures
            self.spec_routes(*dst).len() == 0 ==> r is None,
            self.spec_routes(*dst).len() > 0 ==> (r matches Some(rt) && rt == self.spec_routes(
                *dst,
            )[best_idx(self.spec_routes(*dst), first_latency)]),
    {
        let i = match self.find_entry(dst) {
            None => {
                return None;
            },
            Some(i) => i,
        };
        let routes = &self.entries[i].routes;
        let n = routes.len();
        if n == 0 {
            return None;
        }
        let mut best: usize = 0;
        let mut k: usize = 1;
        assert(routes@.take(1).len() == 1);
        while k < n
            invariant
                n == routes@.len(),
                1 <= k <= n,
                0 <= best < k,
                best == best_idx(routes@.take(k as int), first_latency),
            decreases n - k,
        {
            assert(routes@.take(k + 1).drop_last() =~= routes@.take(k as int));
            assert(routes@.take(k + 1).last() == routes@[k as int]);
            proof {
                lemma_best_idx(routes@.take(k as int), first_latency);
            }
            assert(routes@.take(k + 1)[best as int] == routes@[best as int]);
            if !route_le_exec(&routes[best], &routes[k], first_latency) {
                best = k;
            }
            k = k + 1;
        }
        assert(routes@.take(n as int) =~= routes@);
        Some(routes[best])
    }

    /// Forget one transport path everywhere: every destination keeps
    /// exactly its routes on other paths, in order.
    pub fn drop_key(&mut self, key: RouteKey)
        requires
            old(self).wf(),
        ensures
            final(self).wf(),
            final(self).entries@.len() == old(self).entries@.len(),
            forall|e: int|
                0 <= e < old(self).entries@.len() ==> (#[trigger] final(self).entries@[e]).id
                    == old(self).entries@[e].id && final(self).entries@[e].routes@ == keep_key(
                    old(self).entries@[e].routes@,
                    key,
                ),
    {
        let n = self.entries.len();
        let mut out: Vec<RouteEntry> = Vec::new();
        let mut e: usize = 0;
        while e < n
            invariant
                n == self.entries@.len(),
                self.entries@ == old(self).entries@,
                0 <= e <= n,
                out@.len() == e,
                forall|q: int|
                    0 <= q < e ==> (#[trigger] out@[q]).id == old(self).entries@[q].id
                        && out@[q].routes@ == keep_key(old(self).entries@[q].routes@, key),
            decreases n - e,
        {
            let src = &self.entries[e];
            let m = src.routes.len();
            let mut kept: Vec<Route> = Vec::new();
            let mut j: usize = 0;
            assert(keep_key(src.routes@.take(0), key) =~= Seq::<Route>::empty());
            while j < m
                invariant
                    m == src.routes@.len(),
                    0 <= j <= m,
                    kept@ == keep_key(src.routes@.take(j as int), key),
                decreases m - j,
            {
                assert(src.routes@.take(j + 1).drop_last() =~= src.routes@.take(j as int));
                assert(src.routes@.take(j + 1).last() == src.routes@[j as int]);
                if src.routes[j].key.index != key.index {
                    kept.push(src.routes[j]);
                }
                assert(kept@ =~= keep_key(src.routes@.take(j + 1), key));
                j = j + 1;
            }
            assert(src.routes@.take(m as int) =~= src.routes@);
            out.push(RouteEntry { id: src.id, routes: kept });
            e = e + 1;
        }
        self.entries = out;
        proof {
            lemma_keep_key_sub(old(self).entries@, final(self).entries@, key);
        }
    }

    /// Evict every route that has been idle longer than the allowed
    /// time, and every destination left without routes. What remains
    /// is exactly the live part of what was there, per destination.
    #[verifier::rlimit(60)]
    pub fn sweep(&mut self, now: u64, route_idle_time: u64)
        requires
            old(self).wf(),
        ensures
            final(self).wf(),
            // Nothing stale survives a sweep.
            forall|e: int, j: int|
                0 <= e < final(self).entries@.len() && 0 <= j < final(self).entries@[e].routes@.len() ==> now - (#[trigger] final(self).entries@[e].routes@[j]).last_activity <= route_idle_time,
            // No destination is left without a route.
            forall|e: int|
                0 <= e < final(self).entries@.len() ==> (#[trigger] final(self).entries@[e]).routes@.len() > 0,
            // Every destination with a live route keeps exactly its
            // live routes ...
            forall|e: int|
                0 <= e < old(self).entries@.len() && keep_live(
                    (#[trigger] old(self).entries@[e]).routes@,
                    now,
                    route_idle_time,
                ).len() > 0 ==> exists|q: int|
                    0 <= q < final(self).entries@.len() && (#[trigger] final(self).entries@[q]).id == old(self).entries@[e].id && final(self).entries@[q].routes@ == keep_live(
                        old(self).entries@[e].routes@,
                        now,
                        route_idle_time,
                    ),
            // ... and nothing else appears.
            forall|q: int|
                0 <= q < final(self).entries@.len() ==> exists|e: int|
                    0 <= e < old(self).entries@.len() && old(self).entries@[e].id == (
                    #[trigger] final(self).entries@[q]).id && final(self).entries@[q].routes@
                        == keep_live(old(self).entries@[e].routes@, now, route_idle_time),
    {
        let n = self.entries.len();
        let mut out: Vec<RouteEntry> = Vec::new();
        let mut e: usize = 0;
        while e < n
            invariant
                n == self.entries@.len(),
                self.entries@ == old(self).entries@,
                old(self).wf(),
                0 <= e <= n,
                forall|q: int|
                    0 <= q < out@.len() ==> exists|p: int|
                        0 <= p < e && old(self).entries@[p].id == (#[trigger] out@[q]).id
                            && out@[q].routes@ == keep_live(
                            old(self).entries@[p].routes@,
                            now,
                            route_idle_time,
                        ),
                forall|q: int| 0 <= q < out@.len() ==> (#[trigger] out@[q]).routes@.len() > 0,
                forall|p: int|
                    0 <= p < e && keep_live(
                        (#[trigger] old(self).entries@[p]).routes@,
                        now,
                        route_idle_time,
                    ).len() > 0 ==> exists|q: int|
                        0 <= q < out@.len() && (#[trigger] out@[q]).id == old(
                            self,
                        ).entries@[p].id && out@[q].routes@ == keep_live(
                            old(self).entries@[p].routes@,
                            now,
                            route_idle_time,
                        ),
                forall|q1: int, q2: int|
                    #![trigger out@[q1].id, out@[q2].id]
                    0 <= q1 < q2 < out@.len() ==> out@[q1].id@ != out@[q2].id@,
            decreases n - e,
        {
            let src = &self.entries[e];
            let m = src.routes.len();
            let mut kept: Vec<Route> = Vec::new();
            let mut j: usize = 0;
            assert(keep_live(src.routes@.take(0), now, route_idle_time) =~= Seq::<Route>::empty());
            while j < m
                invariant
                    m == src.routes@.len(),
                    0 <= j <= m,
                    kept@ == keep_live(src.routes@.take(j as int), now, route_idle_time),
                decreases m - j,
            {
                assert(src.routes@.take(j + 1).drop_last() =~= src.routes@.take(j as int));
                assert(src.routes@.take(j + 1).last() == src.routes@[j as int]);
                let rt = &src.routes[j];
                let live = if now <= rt.last_activity {
                    true
                } else {
                    now - rt.last_activity <= route_idle_time
                };
                if live {
                    kept.push(src.routes[j]);
                }
                assert(kept@ =~= keep_live(src.routes@.take(j + 1), now, route_idle_time));
                j = j + 1;
            }
            assert(src.routes@.take(m as int) =~= src.routes@);
            let ghost out_pre = out@;
            if kept.len() > 0 {
                out.push(RouteEntry { id: src.id, routes: kept });
            }
            proof {
                let ee = e as int;
                let kl = keep_live(old(self).entries@[ee].routes@, now, route_idle_time);
                if kl.len() > 0 {
                    let q_new = out_pre.len() as int;
                    assert(forall|q: int| 0 <= q < q_new ==> out@[q] == out_pre[q]);
                    assert(out@[q_new].id == old(self).entries@[ee].id);
                    assert(out@[q_new].routes@ == kl);
                    assert forall|q1: int, q2: int|
                        #![trigger out@[q1].id, out@[q2].id]
                        0 <= q1 < q2 < out@.len() implies out@[q1].id@ != out@[q2].id@ by {
                        if q2 == q_new {
                            let p1 = choose|p: int|
                                0 <= p < ee && old(self).entries@[p].id == out_pre[q1].id
                                    && out_pre[q1].routes@ == keep_live(
                                    old(self).entries@[p].routes@,
                                    now,
                                    route_idle_time,
                                );
                            assert(old(self).entries@[p1].id@ != old(
                                self,
                            ).entries@[ee].id@);
                        }
                    }
                } else {
                    assert(out@ == out_pre);
                }
                assert forall|q: int|
                    0 <= q < out@.len() implies exists|p: int|
                        0 <= p < ee + 1 && old(self).entries@[p].id == (#[trigger] out@[q]).id
                            && out@[q].routes@ == keep_live(
                            old(self).entries@[p].routes@,
                            now,
                            route_idle_time,
                        ) by {
                    if q < out_pre.len() {
                        let p0 = choose|p: int|
                            0 <= p < ee && old(self).entries@[p].id == out_pre[q].id
                                && out_pre[q].routes@ == keep_live(
                                old(self).entries@[p].routes@,
                                now,
                                route_idle_time,
                            );
                        assert(out@[q] == out_pre[q]);
                        assert(0 <= p0 < ee + 1 && old(self).entries@[p0].id == out@[q].id
                            && out@[q].routes@ == keep_live(
                            old(self).entries@[p0].routes@,
                            now,
                            route_idle_time,
                        ));
                    } else {
                        assert(0 <= ee < ee + 1 && old(self).entries@[ee].id == out@[q].id
                            && out@[q].routes@ == keep_live(
                            old(self).entries@[ee].routes@,
                            now,
                            route_idle_time,
                        ));
                    }
                }
                assert forall|p: int|
                    0 <= p < ee + 1 && keep_live(
                        (#[trigger] old(self).entries@[p]).routes@,
                        now,
                        route_idle_time,
                    ).len() > 0 implies exists|q: int|
                        0 <= q < out@.len() && (#[trigger] out@[q]).id == old(
                            self,
                        ).entries@[p].id && out@[q].routes@ == keep_live(
                            old(self).entries@[p].routes@,
                            now,
                            route_idle_time,
                        ) by {
                    if p < ee {
                        let q0 = choose|q: int|
                            0 <= q < out_pre.len() && out_pre[q].id == old(self).entries@[p].id
                                && out_pre[q].routes@ == keep_live(
                                old(self).entries@[p].routes@,
                                now,
                                route_idle_time,
                            );
                        assert(out@[q0] == out_pre[q0]);
                        assert(0 <= q0 < out@.len() && out@[q0].id == old(self).entries@[p].id
                            && out@[q0].routes@ == keep_live(
                            old(self).entries@[p].routes@,
                            now,
                            route_idle_time,
                        ));
                    } else {
                        let q_new = out_pre.len() as int;
                        assert(0 <= q_new < out@.len() && out@[q_new].id == old(
                            self,
                        ).entries@[p].id && out@[q_new].routes@ == keep_live(
                            old(self).entries@[p].routes@,
                            now,
                            route_idle_time,
                        ));
                    }
                }
            }
            e = e + 1;
        }
        self.entries = out;
        proof {
            assert forall|e2: int, j: int|
                0 <= e2 < final(self).entries@.len() && 0 <= j < final(self).entries@[e2].routes@.len() implies now - (final(self).entries@[e2].routes@[j]).last_activity <= route_idle_time by {
                let p = choose|p: int|
                    0 <= p < old(self).entries@.len() && old(self).entries@[p].id == final(self).entries@[e2].id && final(self).entries@[e2].routes@ == keep_live(
                        old(self).entries@[p].routes@,
                        now,
                        route_idle_time,
                    );
                lemma_keep_live_fresh(old(self).entries@[p].routes@, now, route_idle_time);
            }
            lemma_sweep_wf(old(self).entries@, final(self).entries@, now, route_idle_time);
        }
    }

    /// The destinations the table knows, in table order.
    pub fn known_destinations(&self) -> (r: Vec<NodeID>)
        ensures
            r@.len() == self.entries@.len(),
            forall|i: int| 0 <= i < r@.len() ==> r@[i] == (#[trigger] self.entries@[i]).id,
    {
        let n = self.entries.len();
        let mut out: Vec<NodeID> = Vec::new();
        let mut i: usize = 0;
        while i < n
            invariant
                n == self.entries@.len(),
                0 <= i <= n,
                out@.len() == i,
                forall|k: int| 0 <= k < i ==> out@[k] == (#[trigger] self.entries@[k]).id,
            decreases n - i,
        {
            out.push(self.entries[i].id);
            i = i + 1;
        }
        out
    }
}

/// Keys and relay restrictions survive taking a subsequence of each
/// entry's routes, so a table rebuilt from `keep_key` is well-formed.
proof fn lemma_keep_key_sub(before: Seq<RouteEntry>, after: Seq<RouteEntry>, key: RouteKey)
    requires
        forall|i: int, j: int|
            #![trigger before[i].id, before[j].id]
            0 <= i < j < before.len() ==> before[i].id@ != before[j].id@,
        forall|e: int, i: int, j: int|
            #![trigger before[e].routes@[i], before[e].routes@[j]]
            0 <= e < before.len() && 0 <= i < j < before[e].routes@.len() ==> before[e].routes@[i].key
                != before[e].routes@[j].key,
        forall|e: int, i: int|
            0 <= e < before.len() && 0 <= i < before[e].routes@.len() ==> ((
            #[trigger] before[e].routes@[i]).relay_via matches Some(v) ==> v@ != before[e].id@),
        after.len() == before.len(),
        forall|e: int|
            0 <= e < before.len() ==> (#[trigger] after[e]).id == before[e].id
                && after[e].routes@ == keep_key(before[e].routes@, key),
    ensures
        forall|i: int, j: int|
            #![trigger after[i].id, after[j].id]
            0 <= i < j < after.len() ==> after[i].id@ != after[j].id@,
        forall|e: int, i: int, j: int|
            #![trigger after[e].routes@[i], after[e].routes@[j]]
            0 <= e < after.len() && 0 <= i < j < after[e].routes@.len() ==> after[e].routes@[i].key
                != after[e].routes@[j].key,
        forall|e: int, i: int|
            0 <= e < after.len() && 0 <= i < after[e].routes@.len() ==> ((
            #[trigger] after[e].routes@[i]).relay_via matches Some(v) ==> v@ != after[e].id@),
{
    assert forall|e: int, i: int, j: int|
        #![trigger after[e].routes@[i], after[e].routes@[j]]
        0 <= e < after.len() && 0 <= i < j < after[e].routes@.len() implies after[e].routes@[i].key
        != after[e].routes@[j].key by {
        lemma_keep_key_distinct(before[e].routes@, key);
    }
    assert forall|e: int, i: int|
        #![trigger after[e].routes@[i]]
        0 <= e < after.len() && 0 <= i < after[e].routes@.len() implies ((
    after[e].routes@[i]).relay_via matches Some(v) ==> v@ != after[e].id@) by {
        lemma_keep_key_member(before[e].routes@, key);
        let x = choose|x: int|
            0 <= x < before[e].routes@.len() && before[e].routes@[x] == after[e].routes@[i];
        assert(before[e].routes@[x].relay_via matches Some(v) ==> v@ != before[e].id@);
    }
}

/// Every route kept by `keep_key` was among the routes before.
proof fn lemma_keep_key_member(s: Seq<Route>, key: RouteKey)
    ensures
        forall|i: int|
            0 <= i < keep_key(s, key).len() ==> exists|x: int|
                0 <= x < s.len() && s[x] == #[trigger] keep_key(s, key)[i],
    decreases s.len(),
{
    if s.len() > 0 {
        lemma_keep_key_member(s.drop_last(), key);
        let a0 = keep_key(s.drop_last(), key);
        let a = keep_key(s, key);
        assert forall|i: int| #![trigger a[i]] 0 <= i < a.len() implies exists|x: int|
            0 <= x < s.len() && s[x] == a[i] by {
            if i < a0.len() {
                assert(a[i] == a0[i]);
                let x = choose|x: int| 0 <= x < s.drop_last().len() && s.drop_last()[x] == a0[i];
                assert(s[x] == a[i]);
            } else {
                assert(s[s.len() - 1] == a[i]);
            }
        }
    }
}

/// `keep_key` keeps route keys pairwise distinct.
proof fn lemma_keep_key_distinct(s: Seq<Route>, key: RouteKey)
    requires
        forall|x: int, y: int|
            #![trigger s[x], s[y]]
            0 <= x < y < s.len() ==> s[x].key != s[y].key,
    ensures
        forall|i: int, j: int|
            #![trigger keep_key(s, key)[i], keep_key(s, key)[j]]
            0 <= i < j < keep_key(s, key).len() ==> keep_key(s, key)[i].key != keep_key(
                s,
                key,
            )[j].key,
    decreases s.len(),
{
    if s.len() > 0 {
        let d = s.drop_last();
        assert(forall|x: int, y: int|
            #![trigger d[x], d[y]]
            0 <= x < y < d.len() ==> d[x].key != d[y].key) by {
            assert(forall|x: int| 0 <= x < d.len() ==> d[x] == s[x]);
        }
        lemma_keep_key_distinct(d, key);
        lemma_keep_key_member(d, key);
        let a0 = keep_key(d, key);
        let a = keep_key(s, key);
        assert forall|i: int, j: int|
            #![trigger a[i], a[j]]
            0 <= i < j < a.len() implies a[i].key != a[j].key by {
            if j < a0.len() {
                assert(a[i] == a0[i] && a[j] == a0[j]);
            } else {
                assert(a[j] == s.last());
                assert(a[i] == a0[i]);
                let x = choose|x: int| 0 <= x < d.len() && d[x] == a0[i];
                assert(s[x] == a0[i]);
                assert(s[x].key != s[s.len() - 1].key);
            }
        }
    }
}

/// Every route kept by `keep_live` was among the routes before.
proof fn lemma_keep_live_member(s: Seq<Route>, now: u64, idle: u64)
    ensures
        forall|i: int|
            0 <= i < keep_live(s, now, idle).len() ==> exists|x: int|
                0 <= x < s.len() && s[x] == #[trigger] keep_live(s, now, idle)[i],
    decreases s.len(),
{
    if s.len() > 0 {
        lemma_keep_live_member(s.drop_last(), now, idle);
        let a0 = keep_live(s.drop_last(), now, idle);
        let a = keep_live(s, now, idle);
        assert forall|i: int| #![trigger a[i]] 0 <= i < a.len() implies exists|x: int|
            0 <= x < s.len() && s[x] == a[i] by {
            if i < a0.len() {
                assert(a[i] == a0[i]);
                let x = choose|x: int| 0 <= x < s.drop_last().len() && s.drop_last()[x] == a0[i];
                assert(s[x] == a[i]);
            } else {
                assert(s[s.len() - 1] == a[i]);
            }
        }
    }
}

/// `keep_live` keeps route keys pairwise distinct.
proof fn lemma_keep_live_distinct(s: Seq<Route>, now: u64, idle: u64)
    requires
        forall|x: int, y: int|
            #![trigger s[x], s[y]]
            0 <= x < y < s.len() ==> s[x].key != s[y].key,
    ensures
        forall|i: int, j: int|
            #![trigger keep_live(s, now, idle)[i], keep_live(s, now, idle)[j]]
            0 <= i < j < keep_live(s, now, idle).len() ==> keep_live(s, now, idle)[i].key
                != keep_live(s, now, idle)[j].key,
    decreases s.len(),
{
    if s.len() > 0 {
        let d = s.drop_last();
        assert(forall|x: int, y: int|
            #![trigger d[x], d[y]]
            0 <= x < y < d.len() ==> d[x].key != d[y].key) by {
            assert(forall|x: int| 0 <= x < d.len() ==> d[x] == s[x]);
        }
        lemma_keep_live_distinct(d, now, idle);
        lemma_keep_live_member(d, now, idle);
        let a0 = keep_live(d, now, idle);
        let a = keep_live(s, now, idle);
        assert forall|i: int, j: int|
            #![trigger a[i], a[j]]
            0 <= i < j < a.len() implies a[i].key != a[j].key by {
            if j < a0.len() {
                assert(a[i] == a0[i] && a[j] == a0[j]);
            } else {
                assert(a[j] == s.last());
                assert(a[i] == a0[i]);
                let x = choose|x: int| 0 <= x < d.len() && d[x] == a0[i];
                assert(s[x] == a0[i]);
                assert(s[x].key != s[s.len() - 1].key);
            }
        }
    }
}

proof fn lemma_sweep_wf(before: Seq<RouteEntry>, after: Seq<RouteEntry>, now: u64, idle: u64)
    requires
        forall|e: int, i: int, j: int|
            #![trigger before[e].routes@[i], before[e].routes@[j]]
            0 <= e < before.len() && 0 <= i < j < before[e].routes@.len() ==> before[e].routes@[i].key
                != before[e].routes@[j].key,
        forall|e: int, i: int|
            0 <= e < before.len() && 0 <= i < before[e].routes@.len() ==> ((
            #[trigger] before[e].routes@[i]).relay_via matches Some(v) ==> v@ != before[e].id@),
        forall|q1: int, q2: int|
            #![trigger after[q1].id, after[q2].id]
            0 <= q1 < q2 < after.len() ==> after[q1].id@ != after[q2].id@,
        forall|q: int|
            0 <= q < after.len() ==> exists|e: int|
                0 <= e < before.len() && before[e].id == (#[trigger] after[q]).id
                    && after[q].routes@ == keep_live(before[e].routes@, now, idle),
    ensures
        forall|q: int, i: int, j: int|
            #![trigger after[q].routes@[i], after[q].routes@[j]]
            0 <= q < after.len() && 0 <= i < j < after[q].routes@.len() ==> after[q].routes@[i].key
                != after[q].routes@[j].key,
        forall|q: int, i: int|
            0 <= q < after.len() && 0 <= i < after[q].routes@.len() ==> ((
            #[trigger] after[q].routes@[i]).relay_via matches Some(v) ==> v@ != after[q].id@),
{
    assert forall|q: int, i: int, j: int|
        #![trigger after[q].routes@[i], after[q].routes@[j]]
        0 <= q < after.len() && 0 <= i < j < after[q].routes@.len() implies after[q].routes@[i].key
        != after[q].routes@[j].key by {
        let e = choose|e: int|
            0 <= e < before.len() && before[e].id == after[q].id && after[q].routes@ == keep_live(
                before[e].routes@,
                now,
                idle,
            );
        lemma_keep_live_distinct(before[e].routes@, now, idle);
    }
    assert forall|q: int, i: int|
        #![trigger after[q].routes@[i]]
        0 <= q < after.len() && 0 <= i < after[q].routes@.len() implies ((
    after[q].routes@[i]).relay_via matches Some(v) ==> v@ != after[q].id@) by {
        let e = choose|e: int|
            0 <= e < before.len() && before[e].id == after[q].id && after[q].routes@ == keep_live(
                before[e].routes@,
                now,
                idle,
            );
        lemma_keep_live_member(before[e].routes@, now, idle);
        let x = choose|x: int|
            0 <= x < before[e].routes@.len() && before[e].routes@[x] == after[q].routes@[i];
        assert(before[e].routes@[x].relay_via matches Some(v) ==> v@ != before[e].id@);
    }
}

/// The order test, executable.
pub fn route_le_exec(a: &Route, b: &Route, first_latency: bool) -> (r: bool)
    ensures
        r == route_le(*a, *b, first_latency),
{
    if first_latency {
        if a.rtt_estimate != b.rtt_estimate {
            a.rtt_estimate < b.rtt_estimate
        } else if a.cost != b.cost {
            a.cost < b.cost
        } else {
            a.is_direct || !b.is_direct
        }
    } else {
        if a.cost != b.cost {
            a.cost < b.cost
        } else if a.rtt_estimate != b.rtt_estimate {
            a.rtt_estimate < b.rtt_estimate
        } else {
            a.is_direct || !b.is_direct
        }
    }
}

/// What an inbound packet becomes.
#[derive(Debug, Clone, Copy, PartialEq, Eq, Structural)]
pub enum ForwardDecision {
    /// Addressed to this node: hand it up.
    Deliver,
    /// Re-emit on the given path with the reduced hop budget.
    Turn { key: RouteKey, ttl: u8 },
    /// Dropped: looped back, out of hops, or no route.
    Drop,
}

/// The forwarding decision: a function of the header, the table
/// snapshot and this node's identifier, and of nothing else. A packet
/// whose sender is this node is dropped — a packet never travels the
/// same hop chain twice. A packet addressed to this node, or to the
/// unset identifier, is delivered. Anything else is relayed on the
/// selected route with the hop budget counted down, and dropped when
/// the budget or the routes run out.
pub fn forward_decision(
    h: &PacketHeader,
    table: &RouteTable,
    self_id: &NodeID,
    first_latency: bool,
) -> (r: ForwardDecision)
    ensures
        h.src_id@ == self_id@ ==> r == ForwardDecision::Drop,
        h.src_id@ != self_id@ && (h.dst_id.spec_is_unset() || h.dst_id@ == self_id@) ==> r
            == ForwardDecision::Deliver,
        h.src_id@ != self_id@ && !h.dst_id.spec_is_unset() && h.dst_id@ != self_id@ ==> {
            let routes = table.spec_routes(h.dst_id);
            &&& h.ttl <= 1 ==> r == ForwardDecision::Drop
            &&& h.ttl > 1 && routes.len() == 0 ==> r == ForwardDecision::Drop
            &&& h.ttl > 1 && routes.len() > 0 ==> r == (ForwardDecision::Turn {
                key: routes[best_idx(routes, first_latency)].key,
                ttl: (h.ttl - 1) as u8,
            })
        },
{
    if h.src_id == *self_id {
        return ForwardDecision::Drop;
    }
    if h.dst_id.is_unset() || h.dst_id == *self_id {
        return ForwardDecision::Deliver;
    }
    if h.ttl <= 1 {
        return ForwardDecision::Drop;
    }
    match table.select(&h.dst_id, first_latency) {
        None => ForwardDecision::Drop,
        Some(rt) => ForwardDecision::Turn { key: rt.key, ttl: h.ttl - 1 },
    }
}

} // verus!
