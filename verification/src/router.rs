//! The inference router: the orchestrator that, for each request,
//! consults the cache, decides between local execution and off-chain
//! delegation, invokes the chosen path, records the result, and
//! updates the per-model statistics.
//!
//! Host collaborators are explicit arguments: `caller` is the
//! authenticated identity, `now` and `height` come from the clock and
//! height source, and `cost` and `duration` are the resource meter's
//! readings for a local execution.
use crate::cache::entry_live;
use crate::cache::ComputationCache;
use crate::directory::best_idx;
use crate::directory::ProcessorDirectory;
use crate::directory::ProcessorInfo;
use crate::dtable::clone_bytes;
use crate::dtable::DigestTable;
use crate::hashing;
use crate::ledger::ComputeRequest;
use crate::ledger::OffChainCompute;
use crate::ledger::RequestStatus;
use crate::registry::registered_config;
use crate::registry::ModelConfig;
use crate::registry::ModelRegistry;
use crate::stats::recorded_cache_hit;
use crate::stats::recorded_local;
use crate::stats::recorded_off_chain;
use crate::stats::sat_add;
use crate::stats::stats_or_fresh;
use crate::stats::stats_wf;
use crate::stats::ProcessingStats;
use crate::stats::StatsAggregator;
use crate::BrokerError;
use vstd::prelude::*;

verus! {

/// How long after submission a delegated request stays serviceable.
pub const DELEGATION_WINDOW: u64 = 3600;

/// Where a result's computation happened.
#[derive(Clone, Copy, Debug, PartialEq, Eq, Structural)]
pub enum ComputationSource {
    OnChain,
    OffChain,
    Cached,
}

/// The uniformly shaped outcome of a routed request.
#[derive(Clone, Debug)]
pub struct InferenceResult {
    /// The id the computation runs under; a result served from the
    /// cache carries the zero id: the id of the run that stored the
    /// entry is not kept.
    pub request_id: Vec<u8>,
    /// The fingerprint of the input payload.
    pub input_hash: Vec<u8>,
    /// The output payload; empty while a delegated request is pending.
    pub output: Vec<u8>,
    /// A score between 0 and 100.
    pub confidence: u64,
    pub timestamp: u64,
    /// The metered cost of local execution; zero for cached and
    /// delegated results.
    pub gas_used: u64,
    pub computation_source: ComputationSource,
}

/// The zero request id carried by cache-served results.
pub open spec fn zero_id() -> Seq<u8> {
    Seq::new(32, |i: int| 0u8)
}

/// A byte rotated left by two bits: the low six bits move up, the top
/// two bits wrap around to the bottom.
pub open spec fn rotl2(b: u8) -> u8 {
    ((b % 64) * 4 + b / 64) as u8
}

/// The placeholder local inference: each input byte rotated left by
/// two bits.
pub open spec fn simulated(s: Seq<u8>) -> Seq<u8> {
    Seq::new(s.len(), |i: int| rotl2(s[i]))
}

/// The sum of a byte string's values.
pub open spec fn byte_sum(s: Seq<u8>) -> int
    decreases s.len(),
{
    if s.len() == 0 {
        0
    } else {
        byte_sum(s.drop_last()) + s.last()
    }
}

/// The confidence score of an output: its mean byte value as a share
/// of the maximum, in percent; zero for an empty output.
pub open spec fn confidence_of(s: Seq<u8>) -> int {
    if s.len() == 0 {
        0
    } else {
        byte_sum(s) * 100 / (s.len() * 255) as int
    }
}

/// The placeholder cost estimate that drives the off-chain decision.
pub open spec fn estimated_gas(len: nat) -> int {
    len as int * 100000
}

/// A request must go off-chain exactly when the model allows it and
/// the estimated cost exceeds the model's on-chain ceiling.
pub open spec fn needs_off_chain(c: ModelConfig, len: nat) -> bool {
    c.off_chain_enabled && estimated_gas(len) > c.max_gas_limit
}

/// No byte exceeds 255, so a byte string's sum is at most 255 per
/// byte.
proof fn lemma_byte_sum_bounded(s: Seq<u8>)
    ensures
        0 <= byte_sum(s) <= s.len() * 255,
    decreases s.len(),
{
    if s.len() > 0 {
        lemma_byte_sum_bounded(s.drop_last());
        assert((s.len() - 1) * 255 + 255 == s.len() * 255) by (nonlinear_arith);
    }
}

/// The shape facts every result produced within one batch satisfies.
pub open spec fn batch_item_props(res: InferenceResult, input: Seq<u8>, now: u64) -> bool {
    &&& res.input_hash@ == hashing::keccak_of(input)
    &&& res.timestamp == now
    &&& res.computation_source == ComputationSource::OnChain ==> res.output@ == simulated(input)
        && res.confidence == confidence_of(simulated(input))
    &&& res.computation_source == ComputationSource::OffChain ==> res.output@ == Seq::<u8>::empty()
        && res.confidence == 0 && res.gas_used == 0
    &&& res.computation_source == ComputationSource::Cached ==> res.confidence == 100
        && res.gas_used == 0
}

/// The routing facts every result produced within one batch satisfies:
/// the shape facts, and the tie between the item's computation source
/// and the model's off-chain decision for the item's input.
pub open spec fn batch_item_routed(
    res: InferenceResult,
    input: Seq<u8>,
    c: ModelConfig,
    now: u64,
) -> bool {
    &&& batch_item_props(res, input, now)
    &&& !needs_off_chain(c, input.len()) ==> res.computation_source
        != ComputationSource::OffChain
    &&& needs_off_chain(c, input.len()) ==> res.computation_source != ComputationSource::OnChain
}

/// The cache serves the item: a live entry for the input's fingerprint
/// holds exactly the output the item returned.
pub open spec fn cache_serves(
    cache: Map<Seq<u8>, crate::cache::CacheEntry>,
    input: Seq<u8>,
    res: InferenceResult,
    now: u64,
) -> bool {
    &&& cache.contains_key(hashing::keccak_of(input))
    &&& entry_live(cache[hashing::keccak_of(input)], now)
    &&& res.output@ == cache[hashing::keccak_of(input)].result@
}

/// A locally executed item left a cache entry for its fingerprint,
/// stamped with the current time and the model's time-to-live.
pub open spec fn cache_stamped(
    cache: Map<Seq<u8>, crate::cache::CacheEntry>,
    input: Seq<u8>,
    c: ModelConfig,
    now: u64,
) -> bool {
    &&& cache.contains_key(hashing::keccak_of(input))
    &&& cache[hashing::keccak_of(input)].timestamp == now
    &&& cache[hashing::keccak_of(input)].ttl == c.cache_ttl
}

/// The computation sources of a sequence of results, in order.
pub open spec fn sources_of(results: Seq<InferenceResult>) -> Seq<ComputationSource> {
    results.map_values(|r: InferenceResult| r.computation_source)
}

/// The per-model stats after one routed request of the given source: a
/// local run records its metered cost and duration, a cache hit and a
/// delegation move only their counters.
pub open spec fn stats_after_item(
    m: Map<u64, ProcessingStats>,
    model_id: u64,
    source: ComputationSource,
    cost: u64,
    duration: u64,
) -> Map<u64, ProcessingStats> {
    match source {
        ComputationSource::OnChain => m.insert(
            model_id,
            recorded_local(stats_or_fresh(m, model_id), cost, duration),
        ),
        ComputationSource::Cached => m.insert(
            model_id,
            recorded_cache_hit(stats_or_fresh(m, model_id)),
        ),
        ComputationSource::OffChain => m.insert(
            model_id,
            recorded_off_chain(stats_or_fresh(m, model_id)),
        ),
    }
}

/// The per-model stats after a sequence of routed requests, one per
/// source, applied in order.
pub open spec fn stats_after_items(
    m: Map<u64, ProcessingStats>,
    model_id: u64,
    sources: Seq<ComputationSource>,
    cost: u64,
    duration: u64,
) -> Map<u64, ProcessingStats>
    decreases sources.len(),
{
    if sources.len() == 0 {
        m
    } else {
        stats_after_items(
            stats_after_item(m, model_id, sources[0], cost, duration),
            model_id,
            sources.skip(1),
            cost,
            duration,
        )
    }
}

/// Recording one more source on top of a fold is one more step.
proof fn lemma_stats_after_items_push(
    m: Map<u64, ProcessingStats>,
    model_id: u64,
    sources: Seq<ComputationSource>,
    source: ComputationSource,
    cost: u64,
    duration: u64,
)
    ensures
        stats_after_items(m, model_id, sources.push(source), cost, duration) == stats_after_item(
            stats_after_items(m, model_id, sources, cost, duration),
            model_id,
            source,
            cost,
            duration,
        ),
    decreases sources.len(),
{
    if sources.len() == 0 {
        assert(sources.push(source)[0] == source);
        assert(sources.push(source).skip(1) =~= Seq::<ComputationSource>::empty());
        assert(stats_after_items(
            stats_after_item(m, model_id, source, cost, duration),
            model_id,
            Seq::<ComputationSource>::empty(),
            cost,
            duration,
        ) == stats_after_item(m, model_id, source, cost, duration));
        assert(stats_after_items(m, model_id, sources, cost, duration) == m);
    } else {
        assert(sources.push(source)[0] == sources[0]);
        assert(sources.push(source).skip(1) =~= sources.skip(1).push(source));
        lemma_stats_after_items_push(
            stats_after_item(m, model_id, sources[0], cost, duration),
            model_id,
            sources.skip(1),
            source,
            cost,
            duration,
        );
    }
}

/// The first failure the per-item procedure would hit, scanning the
/// inputs in order: an oversized input fails with `InputTooLarge`, and
/// an input that must go off-chain fails with `NoProcessorsAvailable`
/// when no active processor exists. `None` when every item can be
/// routed.
pub open spec fn first_item_error(
    c: ModelConfig,
    inputs: Seq<Vec<u8>>,
    has_proc: bool,
) -> Option<BrokerError>
    decreases inputs.len(),
{
    if inputs.len() == 0 {
        None
    } else if inputs[0]@.len() > c.input_size {
        Some(BrokerError::InputTooLarge)
    } else if needs_off_chain(c, inputs[0]@.len()) && !has_proc {
        Some(BrokerError::NoProcessorsAvailable)
    } else {
        first_item_error(c, inputs.skip(1), has_proc)
    }
}

/// The broker: model registry, computation cache, per-model stats,
/// and the off-chain ledger, orchestrated per request.
pub struct AIProcessor {
    owner: u64,
    registry: ModelRegistry,
    cache: ComputationCache,
    stats: StatsAggregator,
    compute: OffChainCompute,
    results: DigestTable<InferenceResult>,
}

impl AIProcessor {
    /// The registered models, by id.
    pub closed spec fn models(&self) -> Map<u64, ModelConfig> {
        self.registry@
    }

    /// The cache, by fingerprint content.
    pub closed spec fn cache_map(&self) -> Map<Seq<u8>, crate::cache::CacheEntry> {
        self.cache@
    }

    /// The per-model stats, by model id.
    pub closed spec fn stats_map(&self) -> Map<u64, ProcessingStats> {
        self.stats@
    }

    /// The registered off-chain processors, in registration order.
    pub closed spec fn processors(&self) -> Seq<ProcessorInfo> {
        self.compute.processors()
    }

    /// The delegated requests, by request-id content.
    pub closed spec fn request_map(&self) -> Map<Seq<u8>, ComputeRequest> {
        self.compute.request_map()
    }

    /// The recorded inference results, by request-id content.
    pub closed spec fn results_map(&self) -> Map<Seq<u8>, InferenceResult> {
        self.results@
    }

    /// The identity allowed to register models.
    pub closed spec fn owner_of(&self) -> u64 {
        self.owner
    }

    pub closed spec fn wf(&self) -> bool {
        &&& self.registry.wf()
        &&& self.cache.wf()
        &&& self.stats.wf()
        &&& self.compute.wf()
        &&& self.results.wf()
    }

    /// Nothing observable differs between the two states.
    pub open spec fn unchanged(a: &AIProcessor, b: &AIProcessor) -> bool {
        &&& a.models() == b.models()
        &&& a.cache_map() == b.cache_map()
        &&& a.stats_map() == b.stats_map()
        &&& a.processors() == b.processors()
        &&& a.request_map() == b.request_map()
        &&& a.results_map() == b.results_map()
    }

    /// A fresh broker owned by the creating identity.
    pub fn new(owner: u64) -> (r: AIProcessor)
        ensures
            r.wf(),
            r.owner_of() == owner,
            r.models() =~= Map::<u64, ModelConfig>::empty(),
            r.cache_map() =~= Map::<Seq<u8>, crate::cache::CacheEntry>::empty(),
            r.stats_map() =~= Map::<u64, ProcessingStats>::empty(),
            r.processors() =~= Seq::<ProcessorInfo>::empty(),
            r.request_map() =~= Map::<Seq<u8>, ComputeRequest>::empty(),
            r.results_map() =~= Map::<Seq<u8>, InferenceResult>::empty(),
    {
        AIProcessor {
            owner,
            registry: ModelRegistry::new(),
            cache: ComputationCache::new(),
            stats: StatsAggregator::new(),
            compute: OffChainCompute::new(owner),
            results: DigestTable::new(),
        }
    }

    /// Registers or re-registers a model configuration; only the owner
    /// may do so. Re-registration overwrites the whole configuration
    /// and always reactivates the model.
    pub fn register_model(
        &mut self,
        caller: u64,
        model_id: u64,
        input_size: u64,
        output_size: u64,
        batch_size: u64,
        compute_units: u64,
        off_chain_enabled: bool,
        cache_ttl: u64,
        max_gas_limit: u64,
    ) -> (r: Result<bool, BrokerError>)
        requires
            old(self).wf(),
            input_size > 0,
            output_size > 0,
            batch_size > 0,
        ensures
            final(self).wf(),
            final(self).owner_of() == old(self).owner_of(),
            caller != old(self).owner_of() ==> r == Err::<bool, BrokerError>(
                BrokerError::Unauthorized,
            ) && Self::unchanged(old(self), final(self)),
            caller == old(self).owner_of() ==> r == Ok::<bool, BrokerError>(true) && final(self).models() =~= old(self).models().insert(
                model_id,
                registered_config(
                    model_id,
                    input_size,
                    output_size,
                    batch_size,
                    compute_units,
                    off_chain_enabled,
                    cache_ttl,
                    max_gas_limit,
                ),
            ) && final(self).cache_map() == old(self).cache_map() && final(self).stats_map() == old(self).stats_map() && final(self).processors() == old(self).processors() && final(self).request_map() == old(self).request_map() && final(self).results_map() == old(self).results_map(),
    {
        if caller != self.owner {
            return Err(BrokerError::Unauthorized);
        }
        self.registry.register(
            model_id,
            input_size,
            output_size,
            batch_size,
            compute_units,
            off_chain_enabled,
            cache_ttl,
            max_gas_limit,
        );
        Ok(true)
    }

    /// Registers the caller as an off-chain processor.
    pub fn register_processor(&mut self, caller: u64, compute_power: u64) -> (r: Result<
        bool,
        BrokerError,
    >)
        requires
            old(self).wf(),
        ensures
            final(self).wf(),
            r == Ok::<bool, BrokerError>(true),
            final(self).models() == old(self).models(),
            final(self).cache_map() == old(self).cache_map(),
            final(self).stats_map() == old(self).stats_map(),
            final(self).request_map() == old(self).request_map(),
            final(self).results_map() == old(self).results_map(),
            final(self).processors() =~= (if ProcessorDirectory::has_proc(
                old(self).processors(),
                caller,
            ) {
                old(self).processors().update(
                    ProcessorDirectory::index_of(old(self).processors(), caller),
                    crate::directory::fresh_processor(caller, compute_power),
                )
            } else {
                old(self).processors().push(
                    crate::directory::fresh_processor(caller, compute_power),
                )
            }),
    {
        self.compute.register_processor(caller, compute_power)
    }

    /// Looks a model's configuration up.
    pub fn get_model_config(&self, model_id: u64) -> (r: Result<ModelConfig, BrokerError>)
        requires
            self.wf(),
        ensures
            match r {
                Ok(c) => self.models().contains_key(model_id) && c == self.models()[model_id],
                Err(e) => !self.models().contains_key(model_id) && e == BrokerError::ModelNotFound,
            },
    {
        self.registry.get(model_id)
    }

    /// Looks a model's recorded stats up; fails with `ModelNotFound`
    /// while no request has been recorded for the id.
    pub fn get_processing_stats(&self, model_id: u64) -> (r: Result<ProcessingStats, BrokerError>)
        requires
            self.wf(),
        ensures
            match r {
                Ok(s) => self.stats_map().contains_key(model_id) && s == self.stats_map()[model_id]
                    && stats_wf(s),
                Err(e) => !self.stats_map().contains_key(model_id) && e
                    == BrokerError::ModelNotFound,
            },
    {
        self.stats.get(model_id)
    }

    /// Routes one inference request: serves it from the cache when a
    /// live entry exists, delegates it off-chain when the model allows
    /// it and the estimated cost exceeds the model's ceiling, and
    /// otherwise executes it locally, populating the cache and the
    /// stats.
    ///
    /// `caller`, `now` and `height` are the identity, clock and height
    /// readings for this call; `cost` and `duration` are the resource
    /// meter's readings for a local execution and are ignored on the
    /// other paths.
    pub fn process_inference(
        &mut self,
        model_id: u64,
        input_data: Vec<u8>,
        caller: u64,
        now: u64,
        height: u64,
        cost: u64,
        duration: u64,
    ) -> (r: Result<InferenceResult, BrokerError>)
        requires
            old(self).wf(),
            now < u64::MAX,
        ensures
            final(self).wf(),
            final(self).models() == old(self).models(),
            final(self).owner_of() == old(self).owner_of(),
            !old(self).models().contains_key(model_id) ==> r == Err::<InferenceResult, BrokerError>(
                BrokerError::ModelNotFound,
            ) && Self::unchanged(old(self), final(self)),
            old(self).models().contains_key(model_id) ==> {
                let config = old(self).models()[model_id];
                let len = input_data@.len();
                let fp = hashing::keccak_of(input_data@);
                let hit = old(self).cache_map().contains_key(fp) && entry_live(
                    old(self).cache_map()[fp],
                    now,
                );
                &&& !config.is_active ==> r == Err::<InferenceResult, BrokerError>(
                    BrokerError::ModelInactive,
                ) && Self::unchanged(old(self), final(self))
                &&& config.is_active && len > config.input_size ==> r == Err::<
                    InferenceResult,
                    BrokerError,
                >(BrokerError::InputTooLarge) && Self::unchanged(old(self), final(self))
                &&& config.is_active && len <= config.input_size && hit ==> (r matches Ok(res) && {
                    &&& res.request_id@ == zero_id()
                    &&& res.input_hash@ == fp
                    &&& res.output@ == old(self).cache_map()[fp].result@
                    &&& res.confidence == 100
                    &&& res.timestamp == now
                    &&& res.gas_used == 0
                    &&& res.computation_source == ComputationSource::Cached
                    &&& final(self).stats_map() =~= old(self).stats_map().insert(
                        model_id,
                        recorded_cache_hit(stats_or_fresh(old(self).stats_map(), model_id)),
                    )
                    &&& final(self).cache_map().dom() =~= old(self).cache_map().dom()
                    &&& crate::cache::same_entry_data(
                        final(self).cache_map()[fp],
                        old(self).cache_map()[fp],
                    )
                    &&& forall|k: Seq<u8>|
                        old(self).cache_map().contains_key(k) && k != fp ==> final(self).cache_map()[k] == old(self).cache_map()[k]
                    &&& final(self).processors() == old(self).processors()
                    &&& final(self).request_map() == old(self).request_map()
                    &&& final(self).results_map() == old(self).results_map()
                })
                &&& config.is_active && len <= config.input_size && !hit && needs_off_chain(
                    config,
                    len,
                ) && best_idx(old(self).processors()) is None ==> r == Err::<
                    InferenceResult,
                    BrokerError,
                >(BrokerError::NoProcessorsAvailable) && Self::unchanged(old(self), final(self))
                &&& config.is_active && len <= config.input_size && !hit && needs_off_chain(
                    config,
                    len,
                ) && best_idx(old(self).processors()) is Some ==> (r matches Ok(res) && {
                    let rid = hashing::keccak_of(hashing::id_preimage(height, now, caller));
                    let b = best_idx(old(self).processors())->Some_0;
                    &&& res.request_id@ == rid
                    &&& res.input_hash@ == fp
                    &&& res.output@ == Seq::<u8>::empty()
                    &&& res.confidence == 0
                    &&& res.timestamp == now
                    &&& res.gas_used == 0
                    &&& res.computation_source == ComputationSource::OffChain
                    &&& final(self).request_map().dom() =~= old(self).request_map().dom().insert(
                        rid,
                    )
                    &&& {
                        let req = final(self).request_map()[rid];
                        &&& req.request_id@ == rid
                        &&& req.model_id == model_id
                        &&& req.input_data@ == input_data@
                        &&& req.processor == old(self).processors()[b].address
                        &&& req.requester == caller
                        &&& req.deadline == sat_add(now, DELEGATION_WINDOW)
                        &&& req.status == RequestStatus::Pending
                        &&& req.result is None
                    }
                    &&& forall|k: Seq<u8>|
                        old(self).request_map().contains_key(k) && k != rid ==> final(self).request_map()[k] == old(self).request_map()[k]
                    &&& final(self).stats_map() =~= old(self).stats_map().insert(
                        model_id,
                        recorded_off_chain(stats_or_fresh(old(self).stats_map(), model_id)),
                    )
                    &&& final(self).cache_map() == old(self).cache_map()
                    &&& final(self).processors() == old(self).processors()
                    &&& final(self).results_map() == old(self).results_map()
                })
                &&& config.is_active && len <= config.input_size && !hit && !needs_off_chain(
                    config,
                    len,
                ) ==> (r matches Ok(res) && {
                    let rid = hashing::keccak_of(hashing::id_preimage(height, now, caller));
                    &&& res.request_id@ == rid
                    &&& res.input_hash@ == fp
                    &&& res.output@ == simulated(input_data@)
                    &&& res.confidence == confidence_of(simulated(input_data@))
                    &&& res.timestamp == now
                    &&& res.gas_used == cost
                    &&& res.computation_source == ComputationSource::OnChain
                    &&& final(self).results_map().dom() =~= old(self).results_map().dom().insert(
                        rid,
                    )
                    &&& {
                        let stored = final(self).results_map()[rid];
                        &&& stored.request_id@ == rid
                        &&& stored.input_hash@ == fp
                        &&& stored.output@ == simulated(input_data@)
                        &&& stored.confidence == res.confidence
                        &&& stored.timestamp == now
                        &&& stored.gas_used == cost
                        &&& stored.computation_source == ComputationSource::OnChain
                    }
                    &&& forall|k: Seq<u8>|
                        old(self).results_map().contains_key(k) && k != rid ==> final(self).results_map()[k] == old(self).results_map()[k]
                    &&& final(self).cache_map().dom() =~= old(self).cache_map().dom().insert(fp)
                    &&& {
                        let entry = final(self).cache_map()[fp];
                        &&& entry.result@ == simulated(input_data@)
                        &&& entry.timestamp == now
                        &&& entry.ttl == config.cache_ttl
                        &&& entry.hits == 1
                    }
                    &&& forall|k: Seq<u8>|
                        old(self).cache_map().contains_key(k) && k != fp ==> final(self).cache_map()[k] == old(self).cache_map()[k]
                    &&& final(self).stats_map() =~= old(self).stats_map().insert(
                        model_id,
                        recorded_local(
                            stats_or_fresh(old(self).stats_map(), model_id),
                            cost,
                            duration,
                        ),
                    )
                    &&& final(self).processors() == old(self).processors()
                    &&& final(self).request_map() == old(self).request_map()
                })
            },
    {
        let config = match self.registry.get(model_id) {
            Err(e) => { return Err(e) },
            Ok(c) => c,
        };
        if !config.is_active {
            return Err(BrokerError::ModelInactive);
        }
        if input_data.len() as u128 > config.input_size as u128 {
            return Err(BrokerError::InputTooLarge);
        }
        let fingerprint = hashing::fingerprint_of(&input_data);
        match self.cache.lookup(&fingerprint, now) {
            Some(entry) => {
                self.stats.record_cache_hit(model_id);
                return Ok(
                    InferenceResult {
                        request_id: zero_request_id(),
                        input_hash: fingerprint,
                        output: entry.result,
                        confidence: 100,
                        timestamp: now,
                        gas_used: 0,
                        computation_source: ComputationSource::Cached,
                    },
                );
            },
            None => {},
        }
        if should_process_off_chain(&config, &input_data) {
            let request_id = match self.compute.submit_compute_request(
                clone_bytes(&input_data),
                model_id,
                now.saturating_add(DELEGATION_WINDOW),
                caller,
                now,
                height,
            ) {
                Err(e) => { return Err(e) },
                Ok(id) => id,
            };
            self.stats.record_off_chain(model_id);
            return Ok(
                InferenceResult {
                    request_id,
                    input_hash: fingerprint,
                    output: Vec::new(),
                    confidence: 0,
                    timestamp: now,
                    gas_used: 0,
                    computation_source: ComputationSource::OffChain,
                },
            );
        }
        let request_id = hashing::derive_id(height, now, caller);
        let output = simulate_inference(&input_data);
        let confidence = calculate_confidence(&output);
        let stored = InferenceResult {
            request_id: clone_bytes(&request_id),
            input_hash: clone_bytes(&fingerprint),
            output: clone_bytes(&output),
            confidence,
            timestamp: now,
            gas_used: cost,
            computation_source: ComputationSource::OnChain,
        };
        let returned = InferenceResult {
            request_id,
            input_hash: clone_bytes(&fingerprint),
            output: clone_bytes(&output),
            confidence,
            timestamp: now,
            gas_used: cost,
            computation_source: ComputationSource::OnChain,
        };
        self.results.insert(clone_bytes(&stored.request_id), stored);
        self.stats.record(model_id, cost, duration);
        self.cache.store(fingerprint, output, config.cache_ttl, now);
        Ok(returned)
    }

    /// Routes a whole batch, one input after the other, preserving the
    /// input order in the results. The whole call is all-or-nothing:
    /// every per-item failure condition is checked before any item is
    /// processed, so a failed batch changes nothing and returns no
    /// results, and a batch that passes validation processes every
    /// item.
    ///
    /// `cost` and `duration` are the meter's readings charged for each
    /// locally executed item.
    pub fn batch_process(
        &mut self,
        model_id: u64,
        inputs: Vec<Vec<u8>>,
        caller: u64,
        now: u64,
        height: u64,
        cost: u64,
        duration: u64,
    ) -> (r: Result<Vec<InferenceResult>, BrokerError>)
        requires
            old(self).wf(),
            now < u64::MAX,
        ensures
            final(self).wf(),
            final(self).models() == old(self).models(),
            final(self).owner_of() == old(self).owner_of(),
            final(self).processors() == old(self).processors(),
            r is Err ==> Self::unchanged(old(self), final(self)),
            !old(self).models().contains_key(model_id) ==> r == Err::<
                Vec<InferenceResult>,
                BrokerError,
            >(BrokerError::ModelNotFound),
            old(self).models().contains_key(model_id) ==> ({
                let config = stored_config(old(self).models(), model_id);
                let has_proc = best_idx(old(self).processors()) is Some;
                let item_error = first_item_error(config, inputs@, has_proc);
                &&& inputs@.len() > config.batch_size ==> r == Err::<
                    Vec<InferenceResult>,
                    BrokerError,
                >(BrokerError::BatchTooLarge)
                &&& inputs@.len() <= config.batch_size && inputs@.len() > 0 && !config.is_active
                    ==> r == Err::<Vec<InferenceResult>, BrokerError>(BrokerError::ModelInactive)
                &&& inputs@.len() <= config.batch_size && (inputs@.len() == 0
                    || config.is_active) && item_error is Some ==> r == Err::<
                    Vec<InferenceResult>,
                    BrokerError,
                >(item_error->Some_0)
                &&& inputs@.len() <= config.batch_size && (inputs@.len() == 0
                    || config.is_active) && item_error is None ==> (r matches Ok(results) && {
                    &&& results@.len() == inputs@.len()
                    &&& forall|i: int|
                        #![trigger results@[i]]
                        0 <= i < results@.len() ==> batch_item_routed(
                            results@[i],
                            inputs@[i]@,
                            config,
                            now,
                        )
                    &&& forall|i: int|
                        #![trigger results@[i]]
                        0 <= i < results@.len() && results@[i].computation_source
                            == ComputationSource::Cached ==> cache_serves(
                            final(self).cache_map(),
                            inputs@[i]@,
                            results@[i],
                            now,
                        )
                    &&& forall|i: int|
                        #![trigger results@[i]]
                        0 <= i < results@.len() && results@[i].computation_source
                            == ComputationSource::OnChain ==> cache_stamped(
                            final(self).cache_map(),
                            inputs@[i]@,
                            config,
                            now,
                        )
                    &&& final(self).stats_map() == stats_after_items(
                        old(self).stats_map(),
                        model_id,
                        sources_of(results@),
                        cost,
                        duration,
                    )
                })
            }),
    {
        let config = match self.registry.get(model_id) {
            Err(e) => { return Err(e) },
            Ok(c) => c,
        };
        if inputs.len() as u128 > config.batch_size as u128 {
            return Err(BrokerError::BatchTooLarge);
        }
        if inputs.len() > 0 && !config.is_active {
            return Err(BrokerError::ModelInactive);
        }
        let has_proc = self.compute.has_active_processor();
        let n = inputs.len();
        proof {
            assert(inputs@.skip(0) =~= inputs@);
        }

        // Validate every item before any state changes: the whole
        // batch is one atomic transaction.
        let mut j: usize = 0;
        while j < n
            invariant
                n == inputs@.len(),
                j <= n,
                *self == *old(self),
                self.wf(),
                config == stored_config(old(self).models(), model_id),
                old(self).models().contains_key(model_id),
                inputs@.len() <= config.batch_size,
                n > 0 ==> config.is_active,
                has_proc == (best_idx(old(self).processors()) is Some),
                first_item_error(config, inputs@, has_proc) == first_item_error(
                    config,
                    inputs@.skip(j as int),
                    has_proc,
                ),
                forall|k: int|
                    #![trigger inputs@[k]]
                    0 <= k < j ==> inputs@[k]@.len() <= config.input_size && (needs_off_chain(
                        config,
                        inputs@[k]@.len(),
                    ) ==> has_proc),
            decreases n - j,
        {
            proof {
                assert(inputs@.skip(j as int)[0] == inputs@[j as int]);
                assert(inputs@.skip(j as int).skip(1) =~= inputs@.skip(j + 1));
            }
            if inputs[j].len() as u128 > config.input_size as u128 {
                return Err(BrokerError::InputTooLarge);
            }
            if should_process_off_chain(&config, &inputs[j]) && !has_proc {
                return Err(BrokerError::NoProcessorsAvailable);
            }
            j += 1;
        }
        proof {
            assert(inputs@.skip(n as int) =~= Seq::<Vec<u8>>::empty());
        }

        // Every item is now known to route without failing.
        let mut results: Vec<InferenceResult> = Vec::new();
        let mut i: usize = 0;
        while i < n
            invariant
                n == inputs@.len(),
                i == results@.len() <= n,
                now < u64::MAX,
                self.wf(),
                self.models() == old(self).models(),
                self.owner_of() == old(self).owner_of(),
                self.processors() == old(self).processors(),
                old(self).models().contains_key(model_id),
                config == stored_config(old(self).models(), model_id),
                has_proc == (best_idx(old(self).processors()) is Some),
                n > 0 ==> config.is_active,
                forall|k: int|
                    #![trigger inputs@[k]]
                    0 <= k < n ==> inputs@[k]@.len() <= config.input_size && (needs_off_chain(
                        config,
                        inputs@[k]@.len(),
                    ) ==> has_proc),
                forall|k: int|
                    #![trigger results@[k]]
                    0 <= k < i ==> batch_item_routed(results@[k], inputs@[k]@, config, now),
                forall|k: int|
                    #![trigger results@[k]]
                    0 <= k < i && results@[k].computation_source == ComputationSource::Cached
                        ==> cache_serves(self.cache_map(), inputs@[k]@, results@[k], now),
                forall|k: int|
                    #![trigger results@[k]]
                    0 <= k < i && results@[k].computation_source == ComputationSource::OnChain
                        ==> cache_stamped(self.cache_map(), inputs@[k]@, config, now),
                self.stats_map() == stats_after_items(
                    old(self).stats_map(),
                    model_id,
                    sources_of(results@),
                    cost,
                    duration,
                ),
            decreases n - i,
        {
            let ghost pre = *self;
            let ghost results_before = results@;
            let input = clone_bytes(&inputs[i]);
            let res = match self.process_inference(
                model_id,
                input,
                caller,
                now,
                height,
                cost,
                duration,
            ) {
                Ok(res) => res,
                Err(e) => {
                    proof {
                        assert(inputs@[i as int]@.len() <= config.input_size);
                        assert(false);
                    }
                    return Err(e);
                },
            };
            proof {
                let fpi = hashing::keccak_of(inputs@[i as int]@);
                let was_hit = pre.cache_map().contains_key(fpi) && entry_live(
                    pre.cache_map()[fpi],
                    now,
                );
                assert(batch_item_routed(res, inputs@[i as int]@, config, now));
                if res.computation_source == ComputationSource::Cached {
                    assert(cache_serves(self.cache_map(), inputs@[i as int]@, res, now));
                }
                if res.computation_source == ComputationSource::OnChain {
                    assert(cache_stamped(self.cache_map(), inputs@[i as int]@, config, now));
                }
                let needs = needs_off_chain(config, inputs@[i as int]@.len());
                // Earlier items keep their cache facts: a later hit
                // leaves every entry's data in place, a later store
                // happens only at a key with no live entry, and the
                // stamped fields are rewritten with the same values.
                assert forall|k: int|
                    0 <= k < i && (#[trigger] results@[k]).computation_source
                        == ComputationSource::Cached implies cache_serves(
                    self.cache_map(),
                    inputs@[k]@,
                    results@[k],
                    now,
                ) by {
                    let fpk = hashing::keccak_of(inputs@[k]@);
                    assert(cache_serves(pre.cache_map(), inputs@[k]@, results@[k], now));
                    if was_hit {
                        if fpk != fpi {
                            assert(self.cache_map()[fpk] == pre.cache_map()[fpk]);
                        }
                    } else if needs {
                        assert(self.cache_map() == pre.cache_map());
                    } else {
                        if fpk == fpi {
                            assert(was_hit);
                        } else {
                            assert(self.cache_map()[fpk] == pre.cache_map()[fpk]);
                        }
                    }
                }
                assert forall|k: int|
                    0 <= k < i && (#[trigger] results@[k]).computation_source
                        == ComputationSource::OnChain implies cache_stamped(
                    self.cache_map(),
                    inputs@[k]@,
                    config,
                    now,
                ) by {
                    let fpk = hashing::keccak_of(inputs@[k]@);
                    assert(cache_stamped(pre.cache_map(), inputs@[k]@, config, now));
                    if was_hit {
                        if fpk != fpi {
                            assert(self.cache_map()[fpk] == pre.cache_map()[fpk]);
                        }
                    } else if needs {
                        assert(self.cache_map() == pre.cache_map());
                    } else {
                        if fpk != fpi {
                            assert(self.cache_map()[fpk] == pre.cache_map()[fpk]);
                        }
                    }
                }
                assert(self.stats_map() == stats_after_item(
                    pre.stats_map(),
                    model_id,
                    res.computation_source,
                    cost,
                    duration,
                ));
                lemma_stats_after_items_push(
                    old(self).stats_map(),
                    model_id,
                    sources_of(results_before),
                    res.computation_source,
                    cost,
                    duration,
                );
                assert(sources_of(results_before.push(res)) =~= sources_of(results_before).push(
                    res.computation_source,
                ));
            }
            results.push(res);
            i += 1;
        }
        proof {
            assert(sources_of(Seq::<InferenceResult>::empty())
                =~= Seq::<ComputationSource>::empty());
        }
        Ok(results)
    }

    /// Records a delegated result handed back by the bound processor:
    /// completes the ledger request, stores an `OffChain`-tagged
    /// inference result under the request id, and populates the cache
    /// for the request's input under the model's time-to-live.
    ///
    /// Fails with `RequestNotFound` for an unknown id, `Forbidden` when
    /// the caller is not the bound processor, `InvalidState` when the
    /// request is not `Pending`, `Expired` when the deadline has
    /// passed, and `ModelNotFound` when the request's model is gone —
    /// in that order; nothing changes on failure.
    pub fn submit_off_chain_result(
        &mut self,
        request_id: &Vec<u8>,
        result: Vec<u8>,
        confidence: u64,
        compute_time: u64,
        resources_used: u64,
        caller: u64,
        now: u64,
    ) -> (r: Result<bool, BrokerError>)
        requires
            old(self).wf(),
        ensures
            final(self).wf(),
            final(self).models() == old(self).models(),
            final(self).owner_of() == old(self).owner_of(),
            final(self).stats_map() == old(self).stats_map(),
            !old(self).request_map().contains_key(request_id@) ==> r == Err::<bool, BrokerError>(
                BrokerError::RequestNotFound,
            ) && Self::unchanged(old(self), final(self)),
            old(self).request_map().contains_key(request_id@) ==> {
                let req = old(self).request_map()[request_id@];
                &&& caller != req.processor ==> r == Err::<bool, BrokerError>(
                    BrokerError::Forbidden,
                ) && Self::unchanged(old(self), final(self))
                &&& caller == req.processor && req.status != RequestStatus::Pending ==> r == Err::<
                    bool,
                    BrokerError,
                >(BrokerError::InvalidState) && Self::unchanged(old(self), final(self))
                &&& caller == req.processor && req.status == RequestStatus::Pending && now
                    >= req.deadline ==> r == Err::<bool, BrokerError>(BrokerError::Expired)
                    && Self::unchanged(old(self), final(self))
                &&& caller == req.processor && req.status == RequestStatus::Pending && now
                    < req.deadline && !old(self).models().contains_key(req.model_id) ==> r == Err::<
                    bool,
                    BrokerError,
                >(BrokerError::ModelNotFound) && Self::unchanged(old(self), final(self))
                &&& caller == req.processor && req.status == RequestStatus::Pending && now
                    < req.deadline && old(self).models().contains_key(req.model_id) ==> r == Ok::<
                    bool,
                    BrokerError,
                >(true) && {
                    let fp = hashing::keccak_of(req.input_data@);
                    &&& final(self).request_map().dom() =~= old(self).request_map().dom()
                    &&& crate::ledger::same_request_core(
                        final(self).request_map()[request_id@],
                        req,
                    )
                    &&& final(self).request_map()[request_id@].status == RequestStatus::Completed
                    &&& forall|k: Seq<u8>|
                        old(self).request_map().contains_key(k) && k != request_id@ ==> final(self).request_map()[k] == old(self).request_map()[k]
                    &&& final(self).results_map().dom() =~= old(self).results_map().dom().insert(request_id@)
                    &&& {
                        let stored = final(self).results_map()[request_id@];
                        &&& stored.request_id@ == request_id@
                        &&& stored.input_hash@ == fp
                        &&& stored.output@ == result@
                        &&& stored.confidence == confidence
                        &&& stored.timestamp == now
                        &&& stored.gas_used == 0
                        &&& stored.computation_source == ComputationSource::OffChain
                    }
                    &&& forall|k: Seq<u8>|
                        old(self).results_map().contains_key(k) && k != request_id@ ==> final(self).results_map()[k] == old(self).results_map()[k]
                    &&& final(self).cache_map().dom() =~= old(self).cache_map().dom().insert(fp)
                    &&& {
                        let entry = final(self).cache_map()[fp];
                        &&& entry.result@ == result@
                        &&& entry.timestamp == now
                        &&& entry.ttl == old(self).models()[req.model_id].cache_ttl
                        &&& entry.hits == 1
                    }
                    &&& forall|k: Seq<u8>|
                        old(self).cache_map().contains_key(k) && k != fp ==> final(self).cache_map()[k] == old(self).cache_map()[k]
                    &&& final(self).processors() =~= (if ProcessorDirectory::has_proc(
                        old(self).processors(),
                        caller,
                    ) {
                        old(self).processors().update(
                            ProcessorDirectory::index_of(old(self).processors(), caller),
                            ProcessorDirectory::completed(
                                old(self).processors()[ProcessorDirectory::index_of(
                                    old(self).processors(),
                                    caller,
                                )],
                            ),
                        )
                    } else {
                        old(self).processors()
                    })
                }
            },
    {
        let (model_id, input_clone) = match self.compute.get_request(request_id) {
            None => { return Err(BrokerError::RequestNotFound) },
            Some(req) => {
                if caller != req.processor {
                    return Err(BrokerError::Forbidden);
                }
                if !matches!(req.status, RequestStatus::Pending) {
                    return Err(BrokerError::InvalidState);
                }
                if now >= req.deadline {
                    return Err(BrokerError::Expired);
                }
                (req.model_id, clone_bytes(&req.input_data))
            },
        };
        let config = match self.registry.get(model_id) {
            Err(e) => { return Err(e) },
            Ok(c) => c,
        };
        let accepted = match self.compute.submit_compute_result(
            request_id,
            clone_bytes(&result),
            confidence,
            compute_time,
            resources_used,
            caller,
            now,
        ) {
            Ok(a) => a,
            Err(e) => { return Err(e) },
        };
        let fingerprint = hashing::fingerprint_of(&input_clone);
        let stored = InferenceResult {
            request_id: clone_bytes(request_id),
            input_hash: clone_bytes(&fingerprint),
            output: clone_bytes(&result),
            confidence,
            timestamp: now,
            gas_used: 0,
            computation_source: ComputationSource::OffChain,
        };
        self.results.insert(clone_bytes(request_id), stored);
        self.cache.store(fingerprint, result, config.cache_ttl, now);
        Ok(accepted)
    }
}

/// Law: after a local execution stored an entry at `now1` under the
/// model's time-to-live, re-submitting the identical input at any
/// `now2` strictly before `now1 + ttl` meets the router's cache-hit
/// condition, so by `process_inference`'s contract the second call
/// returns a result tagged `Cached` at zero cost, with no cost or
/// duration recorded in the stats.
pub proof fn lemma_resubmission_within_ttl_hits(s: AIProcessor, input: Seq<u8>, now2: u64)
    requires
        s.cache_map().contains_key(hashing::keccak_of(input)),
        now2 < s.cache_map()[hashing::keccak_of(input)].timestamp + s.cache_map()[
            hashing::keccak_of(input)
        ].ttl,
    ensures
        entry_live(s.cache_map()[hashing::keccak_of(input)], now2),
{
}

/// Law: once `now2` has reached `timestamp + ttl`, the entry stored
/// for the input's fingerprint is no longer servable, so by
/// `process_inference`'s contract a re-submission takes a fresh
/// on-chain or off-chain path and its result is not tagged `Cached`.
pub proof fn lemma_resubmission_after_ttl_misses(s: AIProcessor, input: Seq<u8>, now2: u64)
    requires
        s.cache_map().contains_key(hashing::keccak_of(input)),
        now2 >= s.cache_map()[hashing::keccak_of(input)].timestamp + s.cache_map()[
            hashing::keccak_of(input)
        ].ttl,
    ensures
        !entry_live(s.cache_map()[hashing::keccak_of(input)], now2),
{
}

/// The model's stored configuration; meaningful only while the id is
/// registered.
pub open spec fn stored_config(m: Map<u64, ModelConfig>, model_id: u64) -> ModelConfig {
    m[model_id]
}

/// Whether the request must be delegated: the model allows it and the
/// estimate exceeds the model's on-chain ceiling.
fn should_process_off_chain(config: &ModelConfig, input_data: &Vec<u8>) -> (r: bool)
    ensures
        r == needs_off_chain(*config, input_data@.len()),
{
    if !config.off_chain_enabled {
        return false;
    }
    let estimated = estimate_computation_gas(input_data);
    estimated > config.max_gas_limit as u128
}

/// The placeholder cost estimate, exact in 128-bit space.
fn estimate_computation_gas(input_data: &Vec<u8>) -> (r: u128)
    ensures
        r == estimated_gas(input_data@.len()),
{
    input_data.len() as u128 * 100000
}

/// Runs the placeholder local inference: rotates each byte left by
/// two bits.
fn simulate_inference(input: &Vec<u8>) -> (r: Vec<u8>)
    ensures
        r@ == simulated(input@),
{
    let n = input.len();
    let mut output: Vec<u8> = Vec::new();
    let mut i: usize = 0;
    while i < n
        invariant
            n == input@.len(),
            i == output@.len() <= n,
            forall|j: int| 0 <= j < i ==> output@[j] == rotl2(input@[j]),
        decreases n - i,
    {
        let b = input[i];
        let rotated: u8 = (b % 64) * 4 + b / 64;
        output.push(rotated);
        i += 1;
    }
    proof {
        assert(output@ =~= simulated(input@));
    }
    output
}

/// Scores an output: its mean byte value as a share of the maximum,
/// in percent.
fn calculate_confidence(output: &Vec<u8>) -> (r: u64)
    ensures
        r == confidence_of(output@),
        0 <= r <= 100,
{
    let n = output.len();
    if n == 0 {
        return 0;
    }
    let mut sum: u128 = 0;
    let mut i: usize = 0;
    while i < n
        invariant
            n == output@.len(),
            i <= n,
            sum == byte_sum(output@.take(i as int)),
            sum <= i * 255,
        decreases n - i,
    {
        proof {
            assert(output@.take(i + 1).drop_last() =~= output@.take(i as int));
            assert(output@.take(i + 1).last() == output@[i as int]);
        }
        sum = sum + output[i] as u128;
        i += 1;
    }
    proof {
        assert(output@.take(n as int) =~= output@);
        lemma_byte_sum_bounded(output@);
        assert(1 <= output@.len() * 255 && output@.len() * 255 <= output@.len() * 255)
            by (nonlinear_arith)
            requires
                1 <= output@.len(),
        ;
        crate::stats::lemma_ratio_bounded(byte_sum(output@), (output@.len() * 255) as int);
    }
    (sum * 100 / (n as u128 * 255)) as u64
}

/// The zero id carried by cache-served results.
fn zero_request_id() -> (r: Vec<u8>)
    ensures
        r@ == zero_id(),
{
    let mut v: Vec<u8> = Vec::new();
    let mut i: usize = 0;
    while i < 32
        invariant
            i == v@.len() <= 32,
            forall|j: int| 0 <= j < i ==> v@[j] == 0u8,
        decreases 32 - i,
    {
        v.push(0u8);
        i += 1;
    }
    proof {
        assert(v@ =~= zero_id());
    }
    v
}

} // verus!
