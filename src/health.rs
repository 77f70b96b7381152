//! Health bookkeeping: per-backend probe results with a hysteresis of three
//! consecutive failures before a backend leaves the healthy subset.

use vstd::prelude::*;
use crate::backend::{views, Backend, BackendView};
use crate::table::{find_key, keys_unique, lemma_first_key, lemma_value_after_push, lemma_value_after_set, value_in, Keyed};
use crate::text::{join_text, trim_trailing_slashes};

verus! {

/// Consecutive failed probes after which a backend counts as unhealthy.
pub const FAILURE_THRESHOLD: usize = 3;

/// The latest known health of one backend.
#[derive(Debug, Clone, Copy, PartialEq, Eq, Structural)]
pub struct HealthStatus {
    pub is_healthy: bool,
    /// Seconds on a monotonic clock at the latest probe.
    pub last_check: u64,
    pub consecutive_failures: usize,
}

/// The status of one backend, keyed by its identifier.
pub type HealthEntry = Keyed<HealthStatus>;

/// A status obeys the hysteresis: unhealthy exactly when three or more
/// consecutive probes have failed.
pub open spec fn consistent(s: HealthStatus) -> bool {
    !s.is_healthy <==> s.consecutive_failures >= FAILURE_THRESHOLD
}

/// The status after one probe at time `now`; a backend never probed
/// starts out healthy.
pub open spec fn next_status(prev: Option<HealthStatus>, success: bool, now: u64) -> HealthStatus {
    let base = match prev {
        Some(s) => s,
        None => HealthStatus { is_healthy: true, last_check: now, consecutive_failures: 0 },
    };
    if success {
        HealthStatus { is_healthy: true, last_check: now, consecutive_failures: 0 }
    } else {
        let failures = if base.consecutive_failures < usize::MAX {
            (base.consecutive_failures + 1) as usize
        } else {
            base.consecutive_failures
        };
        HealthStatus {
            is_healthy: if failures >= FAILURE_THRESHOLD {
                false
            } else {
                base.is_healthy
            },
            last_check: now,
            consecutive_failures: failures,
        }
    }
}

/// `next_status`, executable.
pub fn apply_probe(prev: Option<HealthStatus>, success: bool, now: u64) -> (r: HealthStatus)
    ensures
        r == next_status(prev, success, now),
{
    let base = match prev {
        Some(s) => s,
        None => HealthStatus { is_healthy: true, last_check: now, consecutive_failures: 0 },
    };
    if success {
        HealthStatus { is_healthy: true, last_check: now, consecutive_failures: 0 }
    } else {
        let failures = if base.consecutive_failures < usize::MAX {
            base.consecutive_failures + 1
        } else {
            base.consecutive_failures
        };
        HealthStatus {
            is_healthy: if failures >= FAILURE_THRESHOLD {
                false
            } else {
                base.is_healthy
            },
            last_check: now,
            consecutive_failures: failures,
        }
    }
}

/// Every probe keeps a status consistent, and a successful one makes the
/// backend healthy with no failures on record, in that one step.
pub proof fn lemma_probe_hysteresis(prev: Option<HealthStatus>, success: bool, now: u64)
    requires
        prev is Some ==> consistent(prev->Some_0),
    ensures
        consistent(next_status(prev, success, now)),
        success ==> next_status(prev, success, now).is_healthy
            && next_status(prev, success, now).consecutive_failures == 0,
{
}

/// The status that a table holds for `id`.
pub open spec fn status_in(es: Seq<HealthEntry>, id: Seq<char>) -> Option<HealthStatus> {
    value_in(es, id)
}

/// The health map, updated only by probe results.
pub struct HealthChecker {
    pub entries: Vec<HealthEntry>,
    pub vk_secret: Option<String>,
}

impl HealthChecker {
    pub fn new(vk_secret: Option<String>) -> (r: Self)
        ensures
            r.entries@.len() == 0,
            r.vk_secret == vk_secret,
            r.wf(),
    {
        HealthChecker { entries: Vec::new(), vk_secret }
    }

    /// The recorded status of `id`, if it was ever probed.
    pub open spec fn status_of(&self, id: Seq<char>) -> Option<HealthStatus> {
        status_in(self.entries@, id)
    }

    /// Healthy, or never probed.
    pub open spec fn healthy(&self, id: Seq<char>) -> bool {
        match self.status_of(id) {
            Some(s) => s.is_healthy,
            None => true,
        }
    }

    /// Each backend has at most one entry, and every recorded status obeys
    /// the hysteresis.
    pub open spec fn wf(&self) -> bool {
        &&& keys_unique(self.entries@)
        &&& forall|id: Seq<char>| #[trigger] self.status_of(id) is Some ==> consistent(self.status_of(id)->Some_0)
    }

    /// The recorded status of `server_id`.
    pub fn status(&self, server_id: &str) -> (r: Option<HealthStatus>)
        ensures
            r == self.status_of(server_id@),
    {
        match find_key(&self.entries, server_id) {
            Some(k) => Some(self.entries[k].value),
            None => None,
        }
    }

    /// Records the outcome of one probe of `server_id` made at `now`.
    pub fn record_probe(&mut self, server_id: &str, success: bool, now: u64)
        ensures
            forall|id: Seq<char>| #[trigger] final(self).status_of(id) == if id == server_id@ {
                Some(next_status(old(self).status_of(id), success, now))
            } else {
                old(self).status_of(id)
            },
            old(self).wf() ==> final(self).wf(),
            final(self).vk_secret == old(self).vk_secret,
    {
        let ghost before = self.entries@;
        match find_key(&self.entries, server_id) {
            Some(k) => {
                let next = apply_probe(Some(self.entries[k].value), success, now);
                let entry = Keyed { key: self.entries[k].key.clone(), value: next };
                self.entries.set(k, entry);
                proof {
                    lemma_first_key(before, server_id@);
                    lemma_value_after_set(before, k as int, entry, server_id@);
                }
            },
            None => {
                let next = apply_probe(None, success, now);
                let entry = Keyed { key: String::from_str(server_id), value: next };
                self.entries.push(entry);
                proof {
                    lemma_value_after_push(before, entry);
                }
            },
        }
        proof {
            if old(self).wf() {
                assert forall|id: Seq<char>| #[trigger] self.status_of(id) is Some implies consistent(
                    self.status_of(id)->Some_0,
                ) by {
                    if id == server_id@ {
                        assert(old(self).status_of(id) is Some ==> consistent(old(self).status_of(id)->Some_0));
                        lemma_probe_hysteresis(old(self).status_of(id), success, now);
                    } else {
                        assert(old(self).status_of(id) is Some ==> consistent(old(self).status_of(id)->Some_0));
                    }
                }
            }
        }
    }

    /// Whether `server_id` is healthy; one never probed is.
    pub fn is_backend_healthy(&self, server_id: &str) -> (r: bool)
        ensures
            r == self.healthy(server_id@),
    {
        match self.status(server_id) {
            Some(s) => s.is_healthy,
            None => true,
        }
    }

    /// The backends that are healthy or never probed, in registry order.
    pub fn get_healthy_backends(&self, backends: &[Backend]) -> (r: Vec<Backend>)
        ensures
            views(r@) == views(backends@).filter(|b: BackendView| self.healthy(b.server_id)),
    {
        let ghost bs = views(backends@);
        let ghost pred = |b: BackendView| self.healthy(b.server_id);
        let mut out: Vec<Backend> = Vec::new();
        let mut i: usize = 0;
        assert(bs.subrange(0, 0) =~= Seq::<BackendView>::empty());
        assert(views(out@) =~= Seq::<BackendView>::empty());
        while i < backends.len()
            invariant
                bs == views(backends@),
                pred == (|b: BackendView| self.healthy(b.server_id)),
                i <= backends@.len(),
                views(out@) == bs.subrange(0, i as int).filter(pred),
            decreases backends.len() - i,
        {
            let ghost prev = out@;
            assert(bs.subrange(0, i + 1).drop_last() =~= bs.subrange(0, i as int));
            assert(bs[i as int] == backends@[i as int]@);
            assert(bs.subrange(0, i + 1).last() == bs[i as int]);
            proof {
                reveal(Seq::filter);
            }
            assert(pred(bs[i as int]) == self.healthy(bs[i as int].server_id));
            if self.is_backend_healthy(backends[i].server_id.as_str()) {
                let copy = backends[i].duplicate();
                out.push(copy);
                assert(views(out@) =~= views(prev).push(bs[i as int]));
                assert(bs.subrange(0, i + 1).filter(pred) == bs.subrange(0, i as int).filter(pred).push(
                    bs[i as int],
                ));
            } else {
                assert(bs.subrange(0, i + 1).filter(pred) == bs.subrange(0, i as int).filter(pred));
            }
            i = i + 1;
        }
        assert(bs.subrange(0, backends@.len() as int) =~= bs);
        out
    }

    /// A copy of every recorded status.
    pub fn get_all_health_status(&self) -> (r: Vec<HealthEntry>)
        ensures
            r@.len() == self.entries@.len(),
            forall|k: int| 0 <= k < r@.len() ==> (#[trigger] r@[k]).key@ == self.entries@[k].key@
                && r@[k].value == self.entries@[k].value,
    {
        let mut out: Vec<HealthEntry> = Vec::new();
        let mut i: usize = 0;
        while i < self.entries.len()
            invariant
                i <= self.entries@.len(),
                out@.len() == i,
                forall|k: int| 0 <= k < i ==> (#[trigger] out@[k]).key@ == self.entries@[k].key@
                    && out@[k].value == self.entries@[k].value,
            decreases self.entries.len() - i,
        {
            let e = Keyed { key: self.entries[i].key.clone(), value: self.entries[i].value };
            out.push(e);
            i = i + 1;
        }
        out
    }
}

/// The URL that a backend's health is probed at.
pub fn health_url(server_url: &str) -> (r: String)
    ensures
        r@ == crate::text::strip_trailing_slashes(server_url@) + "/api/v1/health"@,
{
    join_text(trim_trailing_slashes(server_url), "/api/v1/health")
}

/// A probe answered with a 2xx status succeeded.
pub fn probe_succeeded(status: u16) -> (r: bool)
    ensures
        r == (200 <= status <= 299),
{
    200 <= status && status <= 299
}


/// One backend's line of the gateway statistics.
#[derive(Debug, Clone)]
pub struct BackendStat {
    pub server_id: String,
    pub server_name: String,
    pub server_url: String,
    pub provider: String,
    pub is_healthy: bool,
    pub consecutive_failures: usize,
}

/// Number of healthy statuses among the first `n` entries.
pub open spec fn healthy_entries(es: Seq<HealthEntry>, n: int) -> nat
    decreases n,
{
    if n <= 0 {
        0
    } else {
        healthy_entries(es, n - 1) + if es[n - 1].value.is_healthy {
            1nat
        } else {
            0nat
        }
    }
}

impl HealthChecker {
    /// How many recorded statuses are healthy.
    pub fn healthy_count(&self) -> (r: usize)
        ensures
            r as nat == healthy_entries(self.entries@, self.entries@.len() as int),
    {
        let mut count: usize = 0;
        let mut i: usize = 0;
        while i < self.entries.len()
            invariant
                i <= self.entries@.len(),
                count as nat == healthy_entries(self.entries@, i as int),
                count <= i,
            decreases self.entries.len() - i,
        {
            if self.entries[i].value.is_healthy {
                count = count + 1;
            }
            i = i + 1;
        }
        count
    }

    /// The statistics line of every registered backend, in registry order;
    /// one never probed shows as healthy with no failures.
    pub fn backend_stats(&self, backends: &[Backend]) -> (r: Vec<BackendStat>)
        ensures
            r@.len() == backends@.len(),
            forall|k: int| 0 <= k < r@.len() ==> {
                let s = #[trigger] r@[k];
                let b = backends@[k];
                &&& s.server_id@ == b.server_id@
                &&& s.server_name@ == b.server_name@
                &&& s.server_url@ == b.server_url@
                &&& s.provider@ == b.provider@
                &&& s.is_healthy == self.healthy(b.server_id@)
                &&& s.consecutive_failures == match self.status_of(b.server_id@) {
                    Some(st) => st.consecutive_failures,
                    None => 0,
                }
            },
    {
        let mut out: Vec<BackendStat> = Vec::new();
        let mut i: usize = 0;
        while i < backends.len()
            invariant
                i <= backends@.len(),
                out@.len() == i,
                forall|k: int| 0 <= k < i ==> {
                    let s = #[trigger] out@[k];
                    let b = backends@[k];
                    &&& s.server_id@ == b.server_id@
                    &&& s.server_name@ == b.server_name@
                    &&& s.server_url@ == b.server_url@
                    &&& s.provider@ == b.provider@
                    &&& s.is_healthy == self.healthy(b.server_id@)
                    &&& s.consecutive_failures == match self.status_of(b.server_id@) {
                        Some(st) => st.consecutive_failures,
                        None => 0,
                    }
                },
            decreases backends.len() - i,
        {
            let b = &backends[i];
            let status = self.status(b.server_id.as_str());
            let (is_healthy, consecutive_failures) = match status {
                Some(st) => (st.is_healthy, st.consecutive_failures),
                None => (true, 0),
            };
            out.push(
                BackendStat {
                    server_id: b.server_id.clone(),
                    server_name: b.server_name.clone(),
                    server_url: b.server_url.clone(),
                    provider: b.provider.clone(),
                    is_healthy,
                    consecutive_failures,
                },
            );
            i = i + 1;
        }
        out
    }
}

/// A backend without a recorded status counts as healthy.
pub proof fn lemma_unprobed_is_healthy(health: HealthChecker, id: Seq<char>)
    requires
        health.status_of(id) is None,
    ensures
        health.healthy(id),
{
}

} // verus!
