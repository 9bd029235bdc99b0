//! Multi-region relay pool with automatic failover.

use vstd::prelude::*;

use crate::addr::SocketAddr;

verus! {

/// How many failures in a row make a relay unhealthy on failover.
pub const FAILURE_LIMIT: u32 = 3;

/// A relay server with latency tracking. Times are in nanoseconds.
#[derive(Debug, Clone, Copy, PartialEq, Eq, Structural)]
pub struct RelayServer {
    /// Server address.
    pub addr: SocketAddr,
    /// Measured latency (None = not yet measured).
    pub latency: Option<u128>,
    /// When the latency was last measured.
    pub last_probe: Option<u128>,
    /// Whether this relay is currently considered healthy.
    pub healthy: bool,
    /// Consecutive failures.
    pub failures: u32,
}

impl RelayServer {
    /// A relay of which nothing is known yet.
    pub open spec fn fresh(addr: SocketAddr) -> RelayServer {
        RelayServer { addr, latency: None, last_probe: None, healthy: true, failures: 0 }
    }

    /// Create a new relay server entry.
    pub fn new(addr: SocketAddr) -> (s: Self)
        ensures
            s == Self::fresh(addr),
    {
        RelayServer { addr, latency: None, last_probe: None, healthy: true, failures: 0 }
    }

    /// Whether the relay is healthy and was measured.
    pub open spec fn is_measured(self) -> bool {
        self.healthy && self.latency is Some
    }

    /// Whether the relay is healthy and was not measured.
    pub open spec fn is_unmeasured(self) -> bool {
        self.healthy && self.latency is None
    }
}

/// How probing one relay ended.
#[derive(Debug, Clone, Copy, PartialEq, Eq, Structural)]
pub enum ProbeResult {
    /// An answer came back after so many nanoseconds.
    Answered { elapsed: u128 },
    /// No answer came back.
    NoAnswer,
    /// No socket could be opened.
    NoSocket,
}

/// What a probe that was begun at `start` makes of a relay: an answer clears
/// its failures; anything else is a failure, and makes it unhealthy.
pub open spec fn probed(s: RelayServer, start: u128, result: ProbeResult) -> RelayServer {
    match result {
        ProbeResult::Answered { elapsed } => RelayServer {
            latency: Some(elapsed),
            healthy: true,
            failures: 0,
            last_probe: Some(start),
            ..s
        },
        ProbeResult::NoAnswer | ProbeResult::NoSocket => RelayServer {
            healthy: false,
            failures: (s.failures + 1) as u32,
            last_probe: Some(start),
            ..s
        },
    }
}

/// What failing over makes of the relay that failed.
pub open spec fn failed(s: RelayServer) -> RelayServer {
    RelayServer {
        failures: (s.failures + 1) as u32,
        healthy: s.healthy && s.failures + 1 < FAILURE_LIMIT,
        ..s
    }
}

/// Whether relay `i` is the one to use: the first of those with the lowest
/// latency; if none was measured, the first unmeasured one. Only healthy
/// relays count.
pub open spec fn is_best(servers: Seq<RelayServer>, i: int) -> bool {
    &&& 0 <= i < servers.len()
    &&& if servers[i].is_measured() {
        forall|j: int|
            0 <= j < servers.len() && #[trigger] servers[j].is_measured() ==> {
                ||| servers[i].latency->0 < servers[j].latency->0
                ||| servers[i].latency->0 == servers[j].latency->0 && i <= j
            }
    } else {
        &&& servers[i].is_unmeasured()
        &&& forall|j: int| 0 <= j < servers.len() ==> !#[trigger] servers[j].is_measured()
        &&& forall|j: int| 0 <= j < i ==> !#[trigger] servers[j].is_unmeasured()
    }
}

/// Whether no relay can be used.
pub open spec fn none_usable(servers: Seq<RelayServer>) -> bool {
    forall|j: int| 0 <= j < servers.len() ==> !(#[trigger] servers[j]).healthy
}

/// Whether another relay than `i` can be used.
pub open spec fn other_usable(servers: Seq<RelayServer>, i: int) -> bool {
    exists|j: int| 0 <= j < servers.len() && j != i && (#[trigger] servers[j]).healthy
}

/// The relays, as they are seen when another than `i` is looked for.
pub open spec fn set_aside(servers: Seq<RelayServer>, i: int) -> Seq<RelayServer> {
    servers.update(i, RelayServer { healthy: false, ..servers[i] })
}

/// The active relay after a selection: the best one, or the one before where
/// none can be used.
pub open spec fn selected(servers: Seq<RelayServer>, before: usize, after: usize) -> bool {
    if none_usable(servers) {
        after == before
    } else {
        is_best(servers, after as int)
    }
}

/// Summary of a relay server for diagnostics display.
#[derive(Debug, Clone, Copy, PartialEq, Eq, Structural)]
pub struct RelaySummary {
    /// Server address.
    pub addr: SocketAddr,
    /// Measured latency in milliseconds, if known.
    pub latency_ms: Option<u64>,
    /// Whether the relay is currently considered healthy.
    pub healthy: bool,
    /// Whether this relay is the active (selected) one.
    pub active: bool,
}

/// A pool of relay servers with automatic selection and failover.
pub struct RelayPool {
    /// The relays.
    pub servers: Vec<RelayServer>,
    /// Index of the currently active relay.
    pub active: usize,
}

impl RelayPool {
    /// Some relay of the pool is active.
    pub open spec fn wf(self) -> bool {
        self.active < self.servers@.len()
    }

    /// Create a new relay pool with the given server addresses.
    pub fn new(addrs: &[SocketAddr]) -> (pool: Self)
        requires
            addrs@.len() > 0,
        ensures
            pool.wf(),
            pool.active == 0,
            pool.servers@.len() == addrs@.len(),
            forall|i: int|
                0 <= i < addrs@.len() ==> #[trigger] pool.servers@[i] == RelayServer::fresh(
                    addrs@[i],
                ),
    {
        let mut servers: Vec<RelayServer> = Vec::new();
        let mut i: usize = 0;
        while i < addrs.len()
            invariant
                i <= addrs@.len(),
                servers@.len() == i,
                forall|j: int|
                    0 <= j < i ==> #[trigger] servers@[j] == RelayServer::fresh(addrs@[j]),
            decreases addrs@.len() - i,
        {
            servers.push(RelayServer::new(addrs[i]));
            i = i + 1;
        }
        RelayPool { servers, active: 0 }
    }

    /// Return the currently active relay address.
    pub fn active_addr(&self) -> (addr: SocketAddr)
        requires
            self.wf(),
        ensures
            addr == self.servers@[self.active as int].addr,
    {
        self.servers[self.active].addr
    }

    /// Return the number of relay servers in the pool.
    pub fn len(&self) -> (n: usize)
        ensures
            n == self.servers@.len(),
    {
        self.servers.len()
    }

    /// Record how probing each relay server ended, and select the best one.
    ///
    /// `results` holds for each relay when its probe began and what came of
    /// it.
    pub fn probe_all(&mut self, results: &[(u128, ProbeResult)])
        requires
            old(self).wf(),
            results@.len() == old(self).servers@.len(),
            forall|i: int|
                0 <= i < old(self).servers@.len() ==> (#[trigger] old(self).servers@[i]).failures
                    < u32::MAX,
        ensures
            final(self).wf(),
            final(self).servers@.len() == old(self).servers@.len(),
            forall|i: int|
                0 <= i < final(self).servers@.len() ==> #[trigger] final(self).servers@[i]
                    == probed(old(self).servers@[i], results@[i].0, results@[i].1),
            selected(final(self).servers@, old(self).active, final(self).active),
    {
        let mut i: usize = 0;
        while i < self.servers.len()
            invariant
                i <= self.servers@.len() == old(self).servers@.len() == results@.len(),
                self.active == old(self).active,
                forall|j: int|
                    0 <= j < old(self).servers@.len() ==> (#[trigger] old(
                        self,
                    ).servers@[j]).failures < u32::MAX,
                forall|j: int|
                    0 <= j < i ==> #[trigger] self.servers@[j] == probed(
                        old(self).servers@[j],
                        results@[j].0,
                        results@[j].1,
                    ),
                forall|j: int|
                    i <= j < self.servers@.len() ==> #[trigger] self.servers@[j] == old(
                        self,
                    ).servers@[j],
            decreases self.servers@.len() - i,
        {
            let mut server: RelayServer = self.servers[i];
            assert(server == old(self).servers@[i as int]);
            let (start, result): (u128, ProbeResult) = results[i];
            match result {
                ProbeResult::Answered { elapsed } => {
                    server.latency = Some(elapsed);
                    server.healthy = true;
                    server.failures = 0;
                },
                ProbeResult::NoAnswer | ProbeResult::NoSocket => {
                    server.failures = server.failures + 1;
                    server.healthy = false;
                },
            }
            server.last_probe = Some(start);
            self.servers.set(i, server);
            i = i + 1;
        }
        self.select_best();
    }

    /// Mark the active relay as failed and switch to the next healthy one: the
    /// best of the others.
    ///
    /// Returns `true` if a failover occurred.
    pub fn failover(&mut self) -> (switched: bool)
        requires
            old(self).wf(),
            old(self).servers@[old(self).active as int].failures < u32::MAX,
        ensures
            final(self).wf(),
            final(self).servers@ == old(self).servers@.update(
                old(self).active as int,
                failed(old(self).servers@[old(self).active as int]),
            ),
            selected(
                set_aside(old(self).servers@, old(self).active as int),
                old(self).active,
                final(self).active,
            ),
            switched <==> other_usable(old(self).servers@, old(self).active as int),
            switched ==> final(self).active != old(self).active
                && final(self).servers@[final(self).active as int].healthy,
            !switched ==> final(self).active == old(self).active,
    {
        let before: usize = self.active;
        let mut server: RelayServer = self.servers[before];
        let healthy: bool = server.healthy;
        server.healthy = false;
        self.servers.set(before, server);
        let ghost others = self.servers@;
        assert(others == set_aside(old(self).servers@, before as int));
        self.select_best();
        server.failures = server.failures + 1;
        server.healthy = healthy && server.failures < FAILURE_LIMIT;
        self.servers.set(before, server);
        proof {
            assert(self.servers@ =~= old(self).servers@.update(
                before as int,
                failed(old(self).servers@[before as int]),
            ));
            assert(!others[before as int].healthy);
            if other_usable(old(self).servers@, before as int) {
                let j = choose|j: int|
                    0 <= j < others.len() && j != before && (#[trigger] old(
                        self,
                    ).servers@[j]).healthy;
                assert(others[j].healthy);
            }
            if !none_usable(others) {
                let j = choose|j: int| 0 <= j < others.len() && (#[trigger] others[j]).healthy;
                assert(old(self).servers@[j].healthy && j != before);
                assert(others[self.active as int].healthy);
            }
        }
        self.active != before
    }

    /// Select the relay with the lowest latency among healthy servers.
    fn select_best(&mut self)
        requires
            old(self).wf(),
        ensures
            final(self).wf(),
            final(self).servers == old(self).servers,
            selected(final(self).servers@, old(self).active, final(self).active),
    {
        let mut best: Option<usize> = None;
        let mut i: usize = 0;
        while i < self.servers.len()
            invariant
                i <= self.servers@.len(),
                self.wf(),
                self.servers == old(self).servers,
                self.active == old(self).active,
                best matches Some(b) ==> is_best(self.servers@.subrange(0, i as int), b as int),
                best is None ==> none_usable(self.servers@.subrange(0, i as int)),
            decreases self.servers@.len() - i,
        {
            let ghost before = self.servers@.subrange(0, i as int);
            let ghost after = self.servers@.subrange(0, i + 1);
            let ghost best_before = best;
            let server: RelayServer = self.servers[i];
            if server.healthy {
                match server.latency {
                    Some(lat) => {
                        let is_better: bool = match best {
                            Some(b) => match self.servers[b].latency {
                                Some(best_latency) => lat < best_latency,
                                None => true,
                            },
                            None => true,
                        };
                        if is_better {
                            best = Some(i);
                        }
                    },
                    None => {
                        if best.is_none() {
                            best = Some(i);
                        }
                    },
                }
            }
            proof {
                assert(after[i as int] == server);
                assert forall|j: int| 0 <= j < i implies before[j] == after[j] by {}
                if best_before is Some {
                    assert(before[best_before->0 as int] == after[best_before->0 as int]);
                }
                assert forall|j: int| 0 <= j < after.len() && #[trigger] after[j].is_measured() && j
                    < i implies before[j].is_measured() by {}
                assert forall|j: int| 0 <= j < after.len() && #[trigger] after[j].is_unmeasured()
                    && j < i implies before[j].is_unmeasured() by {}
            }
            i = i + 1;
        }
        assert(self.servers@.subrange(0, i as int) =~= self.servers@);
        if let Some(b) = best {
            self.active = b;
            assert(self.servers@[b as int].healthy);
        }
    }

    /// Return a summary of all relays for diagnostics.
    pub fn summary(&self) -> (out: Vec<RelaySummary>)
        ensures
            out@.len() == self.servers@.len(),
            forall|i: int|
                0 <= i < out@.len() ==> #[trigger] out@[i] == summarized(
                    self.servers@[i],
                    i == self.active,
                ),
    {
        let mut out: Vec<RelaySummary> = Vec::new();
        let mut i: usize = 0;
        while i < self.servers.len()
            invariant
                i <= self.servers@.len(),
                out@.len() == i,
                forall|j: int|
                    0 <= j < i ==> #[trigger] out@[j] == summarized(
                        self.servers@[j],
                        j == self.active,
                    ),
            decreases self.servers@.len() - i,
        {
            let s: RelayServer = self.servers[i];
            let latency_ms: Option<u64> = match s.latency {
                Some(ns) => {
                    let ms: u128 = (ns / 1_000_000) % 0x1_0000_0000_0000_0000;
                    Some(ms as u64)
                },
                None => None,
            };
            out.push(
                RelaySummary { addr: s.addr, latency_ms, healthy: s.healthy, active: i == self.active },
            );
            i = i + 1;
        }
        out
    }
}

/// What the summary says of a relay. Milliseconds are whole ones, and count
/// up to 2^64 before they start over.
pub open spec fn summarized(s: RelayServer, active: bool) -> RelaySummary {
    RelaySummary {
        addr: s.addr,
        latency_ms: match s.latency {
            Some(ns) => Some(((ns / 1_000_000) % 0x1_0000_0000_0000_0000) as u64),
            None => None,
        },
        healthy: s.healthy,
        active,
    }
}

/// There is at most one best relay.
pub proof fn law_best_is_unique(servers: Seq<RelayServer>, i: int, j: int)
    requires
        is_best(servers, i),
        is_best(servers, j),
    ensures
        i == j,
{
    assert(servers[i].is_measured() || servers[i].is_unmeasured());
    assert(servers[j].is_measured() || servers[j].is_unmeasured());
}

/// The active relay is healthy whenever a relay can be used at all.
pub proof fn law_selected_is_healthy(servers: Seq<RelayServer>, before: usize, after: usize)
    requires
        selected(servers, before, after),
        !none_usable(servers),
    ensures
        servers[after as int].healthy,
{
}

/// A relay that failed over three times in a row is not healthy any more.
pub proof fn law_three_failures_are_unhealthy(s: RelayServer)
    requires
        s.failures < u32::MAX - 3,
    ensures
        !failed(failed(failed(s))).healthy,
{
}

/// As long as some relay is healthy, a healthy one is selected. One that was
/// measured goes before all that were not, and no healthy relay that was measured
/// has a lower latency; of those with the same latency it is the first, as it is
/// of those without any if none was measured.
pub proof fn law_fastest_healthy_relay_is_selected(
    servers: Seq<RelayServer>,
    before: usize,
    after: usize,
    j: int,
)
    requires
        selected(servers, before, after),
        0 <= j < servers.len(),
        servers[j].healthy,
    ensures
        after < servers.len(),
        servers[after as int].healthy,
        servers[j].latency matches Some(other) ==> {
            &&& servers[after as int].latency matches Some(ns)
            &&& ns <= other
            &&& ns == other ==> after <= j
        },
        servers[after as int].latency is None ==> servers[j].latency is None && after <= j,
{
    assert(!none_usable(servers));
    assert(servers[j].is_measured() || servers[j].is_unmeasured());
}

/// Where no relay is healthy, the active one stays active.
pub proof fn law_without_a_healthy_relay_none_is_selected(
    servers: Seq<RelayServer>,
    before: usize,
    after: usize,
)
    requires
        selected(servers, before, after),
        forall|j: int| 0 <= j < servers.len() ==> !(#[trigger] servers[j]).healthy,
    ensures
        after == before,
{
}

/// What a probe makes of a relay, field by field: the address stays; an answer
/// gives the latency, makes the relay healthy and clears its failures; without one
/// the last latency stays, the relay is not healthy, and there is one failure more.
pub proof fn law_probe_sets_what_it_found(s: RelayServer, start: u128, result: ProbeResult)
    requires
        s.failures < u32::MAX,
    ensures
        probed(s, start, result).addr == s.addr,
        probed(s, start, result).last_probe == Some(start),
        probed(s, start, result).healthy <==> result is Answered,
        result matches ProbeResult::Answered { elapsed } ==> probed(s, start, result).latency
            == Some(elapsed) && probed(s, start, result).failures == 0,
        !(result is Answered) ==> probed(s, start, result).latency == s.latency && probed(
            s,
            start,
            result,
        ).failures == s.failures + 1,
{
}

/// What failing over makes of the relay that failed: one failure more, and with
/// the third in a row it is not healthy any more. Nothing else changes.
pub proof fn law_failing_over_counts_one_failure(s: RelayServer)
    requires
        s.failures < u32::MAX,
    ensures
        failed(s).failures == s.failures + 1,
        failed(s).healthy <==> s.healthy && s.failures < 2,
        failed(s).addr == s.addr,
        failed(s).latency == s.latency,
        failed(s).last_probe == s.last_probe,
{
}

/// Failing over looks for another relay among the others as they are: only the
/// one that failed is left out.
pub proof fn law_only_the_failed_relay_is_set_aside(servers: Seq<RelayServer>, i: int)
    requires
        0 <= i < servers.len(),
    ensures
        set_aside(servers, i).len() == servers.len(),
        !set_aside(servers, i)[i].healthy,
        forall|j: int|
            0 <= j < servers.len() && j != i ==> #[trigger] set_aside(servers, i)[j] == servers[j],
{
}

/// The relay that is switched to is the best of the others: none that is healthy
/// and was measured has a lower latency.
pub proof fn law_failover_takes_the_best_of_the_others(
    servers: Seq<RelayServer>,
    before: usize,
    after: usize,
    j: int,
)
    requires
        before < servers.len(),
        selected(set_aside(servers, before as int), before, after),
        0 <= j < servers.len(),
        j != before,
        servers[j].healthy,
    ensures
        after != before,
        after < servers.len(),
        servers[after as int].healthy,
        servers[j].latency matches Some(other) ==> {
            &&& servers[after as int].latency matches Some(ns)
            &&& ns <= other
        },
{
    let others = set_aside(servers, before as int);
    assert(others[j] == servers[j]);
    law_fastest_healthy_relay_is_selected(others, before, after, j);
    assert(others[after as int].healthy);
}

/// The summary gives the latency in whole milliseconds.
pub proof fn law_summary_shows_whole_milliseconds(s: RelayServer, active: bool, ns: u128)
    requires
        s.latency == Some(ns),
        ns / 1_000_000 <= u64::MAX,
    ensures
        summarized(s, active).latency_ms matches Some(ms) && ms * 1_000_000 <= ns < (ms + 1)
            * 1_000_000,
        summarized(s, active).addr == s.addr,
        summarized(s, active).healthy == s.healthy,
        summarized(s, active).active == active,
{
    let q = ns / 1_000_000;
    assert(q * 1_000_000 <= ns < (q + 1) * 1_000_000);
    assert(q % 0x1_0000_0000_0000_0000 == q);
}

/// A relay that was not measured has no latency in the summary either.
pub proof fn law_summary_without_latency(s: RelayServer, active: bool)
    ensures
        summarized(s, active).latency_ms is None <==> s.latency is None,
        RelayServer::fresh(s.addr).addr == s.addr,
        RelayServer::fresh(s.addr).healthy,
        RelayServer::fresh(s.addr).latency is None,
        RelayServer::fresh(s.addr).last_probe is None,
        RelayServer::fresh(s.addr).failures == 0,
{
}

/// Failing over switches exactly if another relay is healthy, to the one of them
/// with the lowest latency. Only the relay that failed is changed: it has one
/// failure more, and is out with the third.
pub proof fn law_failover(pool: &mut RelayPool, switched: bool, j: int)
    requires
        call_ensures(RelayPool::failover, (pool,), switched),
        old(pool).wf(),
        old(pool).servers@[old(pool).active as int].failures < u32::MAX,
    ensures
        switched <==> exists|k: int|
            0 <= k < old(pool).servers@.len() && k != old(pool).active && (#[trigger] old(pool).servers@[k]).healthy,
        switched <==> final(pool).active != old(pool).active,
        final(pool).servers@.len() == old(pool).servers@.len(),
        forall|k: int|
            0 <= k < old(pool).servers@.len() && k != old(pool).active ==> #[trigger] final(pool).servers@[k] == old(pool).servers@[k],
        final(pool).servers@[old(pool).active as int].failures == old(pool).servers@[old(pool).active as int].failures + 1,
        final(pool).servers@[old(pool).active as int].healthy <==> old(pool).servers@[old(pool).active as int].healthy && old(pool).servers@[old(pool).active as int].failures < 2,
        0 <= j < old(pool).servers@.len() && j != old(pool).active && old(pool).servers@[j].healthy
            && old(pool).servers@[j].latency is Some ==> {
            &&& final(pool).servers@[final(pool).active as int].latency matches Some(ns)
            &&& ns <= old(pool).servers@[j].latency->0
        },
{
    if 0 <= j < old(pool).servers@.len() && j != old(pool).active && old(pool).servers@[j].healthy {
        law_failover_takes_the_best_of_the_others(
            old(pool).servers@,
            old(pool).active,
            final(pool).active,
            j,
        );
    }
}

/// After probing, each relay stands as its own probe left it, and the active one is
/// a healthy one with the lowest latency, if any is healthy.
pub proof fn law_probe_all(pool: &mut RelayPool, results: &[(u128, ProbeResult)], i: int)
    requires
        call_ensures(RelayPool::probe_all, (pool, results), ()),
        0 <= i < old(pool).servers@.len(),
        old(pool).servers@[i].failures < u32::MAX,
    ensures
        final(pool).servers@.len() == old(pool).servers@.len(),
        final(pool).servers@[i].addr == old(pool).servers@[i].addr,
        final(pool).servers@[i].last_probe == Some(results@[i].0),
        final(pool).servers@[i].healthy <==> results@[i].1 is Answered,
        results@[i].1 matches ProbeResult::Answered { elapsed } ==> {
            &&& final(pool).servers@[i].latency == Some(elapsed)
            &&& final(pool).servers@[i].failures == 0
            &&& final(pool).servers@[final(pool).active as int].healthy
            &&& final(pool).servers@[final(pool).active as int].latency matches Some(ns)
            &&& ns <= elapsed
        },
        !(results@[i].1 is Answered) ==> {
            &&& final(pool).servers@[i].latency == old(pool).servers@[i].latency
            &&& final(pool).servers@[i].failures == old(pool).servers@[i].failures + 1
        },
{
    assert(final(pool).servers@[i] == probed(
        old(pool).servers@[i],
        results@[i].0,
        results@[i].1,
    ));
    if results@[i].1 is Answered {
        law_fastest_healthy_relay_is_selected(
            final(pool).servers@,
            old(pool).active,
            final(pool).active,
            i,
        );
    }
}

} // verus!
