//! Running per-model aggregates: request counts, cumulative cost, a
//! running average processing time, and the counters from which the
//! cache-hit and off-chain ratios are derived. Stats are created
//! lazily on a model's first request and never reset.
use crate::table::Table;
use crate::BrokerError;
use vstd::arithmetic::div_mod::lemma_div_is_ordered;
use vstd::arithmetic::div_mod::lemma_div_multiples_vanish;
use vstd::prelude::*;

verus! {

/// Saturating 64-bit addition, as `u64::saturating_add` computes it.
pub open spec fn sat_add(a: u64, b: u64) -> u64 {
    if a + b > u64::MAX {
        u64::MAX
    } else {
        (a + b) as u64
    }
}

/// Aggregates for one model.
#[derive(Clone, Copy, Debug, PartialEq, Eq, Structural)]
pub struct ProcessingStats {
    /// Requests routed for this model, whatever their path.
    pub total_requests: u64,
    /// Cumulative cost of local executions.
    pub total_gas_used: u64,
    /// Running average duration of local executions.
    pub avg_processing_time: u64,
    /// Fraction of successful requests, in percent. Failed requests
    /// are rejected before they are recorded, so this stays at 100.
    pub success_rate: u64,
    /// Requests served from the cache.
    pub cache_hits: u64,
    /// Requests delegated off-chain.
    pub off_chain_count: u64,
}

/// The zero/defaults entry that a model starts from.
pub open spec fn fresh_stats() -> ProcessingStats {
    ProcessingStats {
        total_requests: 0,
        total_gas_used: 0,
        avg_processing_time: 0,
        success_rate: 100,
        cache_hits: 0,
        off_chain_count: 0,
    }
}

/// The model's current entry, or the fresh one if none is recorded
/// yet.
pub open spec fn stats_or_fresh(m: Map<u64, ProcessingStats>, model_id: u64) -> ProcessingStats {
    if m.contains_key(model_id) {
        m[model_id]
    } else {
        fresh_stats()
    }
}

/// One local execution recorded on top of `s`: the request count and
/// cumulative cost grow, and the average duration is recomputed
/// incrementally as `(old_avg * (n - 1) + duration) / n`.
pub open spec fn recorded_local(s: ProcessingStats, cost: u64, duration: u64) -> ProcessingStats {
    let n = sat_add(s.total_requests, 1);
    ProcessingStats {
        total_requests: n,
        total_gas_used: sat_add(s.total_gas_used, cost),
        avg_processing_time: ((s.avg_processing_time * (n - 1) + duration) / n as int) as u64,
        ..s
    }
}

/// One cache hit recorded on top of `s`: only the request and hit
/// counters move; no cost or duration is charged.
pub open spec fn recorded_cache_hit(s: ProcessingStats) -> ProcessingStats {
    ProcessingStats {
        total_requests: sat_add(s.total_requests, 1),
        cache_hits: sat_add(s.cache_hits, 1),
        ..s
    }
}

/// One off-chain delegation recorded on top of `s`: only the request
/// and off-chain counters move; no cost or duration is charged.
pub open spec fn recorded_off_chain(s: ProcessingStats) -> ProcessingStats {
    ProcessingStats {
        total_requests: sat_add(s.total_requests, 1),
        off_chain_count: sat_add(s.off_chain_count, 1),
        ..s
    }
}

/// A stats entry is internally consistent: the per-path counters
/// never exceed the total request count.
pub open spec fn stats_wf(s: ProcessingStats) -> bool {
    s.cache_hits <= s.total_requests && s.off_chain_count <= s.total_requests
}

/// A weighted average of two values bounded by `m` stays bounded by
/// `m`, so the incremental average always fits in a `u64`.
proof fn lemma_avg_bounded(a: int, d: int, n: int, m: int)
    requires
        0 <= a <= m,
        0 <= d <= m,
        1 <= n,
    ensures
        0 <= (a * (n - 1) + d) / n <= m,
{
    assert(0 <= a * (n - 1) + d && a * (n - 1) + d <= n * m) by (nonlinear_arith)
        requires
            0 <= a <= m,
            0 <= d <= m,
            1 <= n,
    ;
    lemma_div_is_ordered(0, a * (n - 1) + d, n);
    lemma_div_is_ordered(a * (n - 1) + d, n * m, n);
    lemma_div_multiples_vanish(m, n);
    assert(0int / n == 0);
}

/// Owns the per-model aggregates, keyed by model id.
pub struct StatsAggregator {
    table: Table<ProcessingStats>,
}

impl StatsAggregator {
    /// The aggregator as a map from model id to its stats.
    pub closed spec fn view(&self) -> Map<u64, ProcessingStats> {
        self.table@
    }

    pub closed spec fn wf(&self) -> bool {
        &&& self.table.wf()
        &&& forall|id: u64|
            self.table@.contains_key(id) ==> #[trigger] stats_wf(self.table@[id])
    }

    pub fn new() -> (r: StatsAggregator)
        ensures
            r.wf(),
            r@ =~= Map::<u64, ProcessingStats>::empty(),
    {
        StatsAggregator { table: Table::new() }
    }

    /// Records one local execution with its metered cost and duration.
    pub fn record(&mut self, model_id: u64, cost: u64, duration: u64)
        requires
            old(self).wf(),
        ensures
            final(self).wf(),
            final(self)@ =~= old(self)@.insert(
                model_id,
                recorded_local(stats_or_fresh(old(self)@, model_id), cost, duration),
            ),
    {
        let mut s = self.current(model_id);
        let n = s.total_requests.saturating_add(1);
        proof {
            assert(s.avg_processing_time as int * (n - 1) as int <= (u64::MAX as int) * (
            u64::MAX as int)) by (nonlinear_arith)
                requires
                    s.avg_processing_time <= u64::MAX,
                    0 <= n - 1 <= u64::MAX,
            ;
            lemma_avg_bounded(
                s.avg_processing_time as int,
                duration as int,
                n as int,
                u64::MAX as int,
            );
        }
        let numerator: u128 = s.avg_processing_time as u128 * (n - 1) as u128 + duration as u128;
        s.total_requests = n;
        s.total_gas_used = s.total_gas_used.saturating_add(cost);
        s.avg_processing_time = (numerator / n as u128) as u64;
        self.table.insert(model_id, s);
        proof {
            self.lemma_wf_after_insert(*old(self), model_id);
        }
    }

    /// Records one request served from the cache.
    pub fn record_cache_hit(&mut self, model_id: u64)
        requires
            old(self).wf(),
        ensures
            final(self).wf(),
            final(self)@ =~= old(self)@.insert(
                model_id,
                recorded_cache_hit(stats_or_fresh(old(self)@, model_id)),
            ),
    {
        let mut s = self.current(model_id);
        s.total_requests = s.total_requests.saturating_add(1);
        s.cache_hits = s.cache_hits.saturating_add(1);
        self.table.insert(model_id, s);
        proof {
            self.lemma_wf_after_insert(*old(self), model_id);
        }
    }

    /// Records one request delegated off-chain.
    pub fn record_off_chain(&mut self, model_id: u64)
        requires
            old(self).wf(),
        ensures
            final(self).wf(),
            final(self)@ =~= old(self)@.insert(
                model_id,
                recorded_off_chain(stats_or_fresh(old(self)@, model_id)),
            ),
    {
        let mut s = self.current(model_id);
        s.total_requests = s.total_requests.saturating_add(1);
        s.off_chain_count = s.off_chain_count.saturating_add(1);
        self.table.insert(model_id, s);
        proof {
            self.lemma_wf_after_insert(*old(self), model_id);
        }
    }

    /// Looks the model's stats up; fails with `ModelNotFound` exactly
    /// when nothing has been recorded for the id.
    pub fn get(&self, model_id: u64) -> (r: Result<ProcessingStats, BrokerError>)
        requires
            self.wf(),
        ensures
            match r {
                Ok(s) => self@.contains_key(model_id) && s == self@[model_id] && stats_wf(s),
                Err(e) => !self@.contains_key(model_id) && e == BrokerError::ModelNotFound,
            },
    {
        match self.table.get(model_id) {
            Some(s) => {
                proof {
                    assert(stats_wf(self.table@[model_id]));
                }
                Ok(*s)
            },
            None => Err(BrokerError::ModelNotFound),
        }
    }

    /// An insert of a well-formed entry keeps every stored entry
    /// well-formed.
    proof fn lemma_wf_after_insert(&self, prev: StatsAggregator, model_id: u64)
        requires
            prev.wf(),
            self.table.wf(),
            self.table@.contains_key(model_id),
            stats_wf(self.table@[model_id]),
            forall|id: u64|
                id != model_id && self.table@.contains_key(id) ==> prev.table@.contains_key(id)
                    && self.table@[id] == prev.table@[id],
        ensures
            self.wf(),
    {
        assert forall|id: u64| self.table@.contains_key(id) implies #[trigger] stats_wf(
            self.table@[id],
        ) by {
            if id != model_id {
                assert(stats_wf(prev.table@[id]));
            }
        }
    }

    /// The model's entry, lazily initialized.
    fn current(&self, model_id: u64) -> (r: ProcessingStats)
        requires
            self.wf(),
        ensures
            r == stats_or_fresh(self@, model_id),
            stats_wf(r),
    {
        match self.table.get(model_id) {
            Some(s) => {
                proof {
                    assert(stats_wf(self.table@[model_id]));
                }
                *s
            },
            None => ProcessingStats {
                total_requests: 0,
                total_gas_used: 0,
                avg_processing_time: 0,
                success_rate: 100,
                cache_hits: 0,
                off_chain_count: 0,
            },
        }
    }
}

impl ProcessingStats {
    /// The share of requests served from the cache, in percent of all
    /// recorded requests; zero while nothing is recorded.
    pub fn cache_hit_rate(&self) -> (r: u64)
        requires
            stats_wf(*self),
        ensures
            self.total_requests == 0 ==> r == 0,
            self.total_requests > 0 ==> r == self.cache_hits * 100 / self.total_requests as int,
    {
        if self.total_requests == 0 {
            0
        } else {
            proof {
                lemma_ratio_bounded(self.cache_hits as int, self.total_requests as int);
            }
            (self.cache_hits as u128 * 100 / self.total_requests as u128) as u64
        }
    }

    /// The share of requests delegated off-chain, in percent of all
    /// recorded requests; zero while nothing is recorded.
    pub fn off_chain_ratio(&self) -> (r: u64)
        requires
            stats_wf(*self),
        ensures
            self.total_requests == 0 ==> r == 0,
            self.total_requests > 0 ==> r == self.off_chain_count * 100
                / self.total_requests as int,
    {
        if self.total_requests == 0 {
            0
        } else {
            proof {
                lemma_ratio_bounded(self.off_chain_count as int, self.total_requests as int);
            }
            (self.off_chain_count as u128 * 100 / self.total_requests as u128) as u64
        }
    }
}

/// A percentage of a part bounded by its whole fits in a `u64`.
pub proof fn lemma_ratio_bounded(part: int, total: int)
    requires
        0 <= part,
        1 <= total,
    ensures
        0 <= part * 100 / total,
        part <= total ==> part * 100 / total <= 100,
{
    assert(part * 100 >= 0) by (nonlinear_arith)
        requires
            0 <= part,
    ;
    lemma_div_is_ordered(0, part * 100, total);
    if part <= total {
        assert(part * 100 <= total * 100) by (nonlinear_arith)
            requires
                0 <= part <= total,
        ;
        lemma_div_is_ordered(part * 100, total * 100, total);
        lemma_div_multiples_vanish(100, total);
    }
}

} // verus!
