//! Exercises of the stated behavior: routing paths and cache
//! freshness, processor selection and the reputation boundary, request
//! expiry, batch limits, and the running-average formula.
use compute_broker::directory::ProcessorDirectory;
use compute_broker::ledger::OffChainCompute;
use compute_broker::ledger::RequestStatus;
use compute_broker::optimizer::StylusOptimizer;
use compute_broker::router::AIProcessor;
use compute_broker::router::ComputationSource;
use compute_broker::stats::StatsAggregator;
use compute_broker::BrokerError;

const OWNER: u64 = 1;
const NOW: u64 = 1_000;
const HEIGHT: u64 = 7;
const COST: u64 = 42;
const DURATION: u64 = 10;

#[test]
fn on_chain_execution_populates_cache() {
    let mut processor = AIProcessor::new(OWNER);
    // input_size 1024, cost estimate 4 * 100_000 <= max 1_000_000
    processor
        .register_model(OWNER, 1, 1024, 128, 32, 100, true, 3600, 1_000_000)
        .unwrap();
    let input = vec![1, 2, 3, 4];
    let result = processor
        .process_inference(1, input.clone(), OWNER, NOW, HEIGHT, COST, DURATION)
        .unwrap();
    assert_eq!(result.computation_source, ComputationSource::OnChain);
    assert_eq!(result.gas_used, COST);
    assert_eq!(result.timestamp, NOW);
    // The rotate-left-by-two placeholder inference
    assert_eq!(result.output, vec![4, 8, 12, 16]);
    // sum 40, length 4: 40 * 100 / (4 * 255) = 3
    assert_eq!(result.confidence, 3);
    // The fingerprint is a digest, not the input handed back
    assert_eq!(result.input_hash.len(), 32);
    assert_ne!(result.input_hash, input);
    // The cache entry is live: the same input is now served from it
    let again = processor
        .process_inference(1, input, OWNER, NOW + 1, HEIGHT, COST, DURATION)
        .unwrap();
    assert_eq!(again.computation_source, ComputationSource::Cached);
}

#[test]
fn resubmission_within_ttl_is_cached_at_zero_cost() {
    let mut processor = AIProcessor::new(OWNER);
    processor
        .register_model(OWNER, 1, 1024, 128, 32, 100, true, 3600, 1_000_000)
        .unwrap();
    let input = vec![9, 9, 9];
    let first = processor
        .process_inference(1, input.clone(), OWNER, NOW, HEIGHT, COST, DURATION)
        .unwrap();
    let second = processor
        .process_inference(1, input, OWNER, NOW + 3599, HEIGHT, COST, DURATION)
        .unwrap();
    assert_eq!(second.computation_source, ComputationSource::Cached);
    assert_eq!(second.gas_used, 0);
    assert_eq!(second.output, first.output);
    assert_eq!(second.confidence, 100);
    // The zero id replaces the original request id on a cache hit
    assert_eq!(second.request_id, vec![0u8; 32]);
    // No cost was added for the hit
    let stats = processor.get_processing_stats(1).unwrap();
    assert_eq!(stats.total_requests, 2);
    assert_eq!(stats.cache_hits, 1);
    assert_eq!(stats.total_gas_used, COST);
}

#[test]
fn resubmission_after_ttl_is_fresh() {
    let mut processor = AIProcessor::new(OWNER);
    processor
        .register_model(OWNER, 1, 1024, 128, 32, 100, true, 3600, 1_000_000)
        .unwrap();
    let input = vec![9, 9, 9];
    processor
        .process_inference(1, input.clone(), OWNER, NOW, HEIGHT, COST, DURATION)
        .unwrap();
    // `NOW + 3600` is exactly `timestamp + ttl`: the entry is stale
    let second = processor
        .process_inference(1, input, OWNER, NOW + 3600, HEIGHT, COST, DURATION)
        .unwrap();
    assert_eq!(second.computation_source, ComputationSource::OnChain);
}

#[test]
fn oversized_input_fails_without_state_change() {
    let mut processor = AIProcessor::new(OWNER);
    processor
        .register_model(OWNER, 1, 4, 128, 32, 100, true, 3600, 1_000_000)
        .unwrap();
    let result = processor.process_inference(1, vec![1; 8], OWNER, NOW, HEIGHT, COST, DURATION);
    assert_eq!(result.unwrap_err(), BrokerError::InputTooLarge);
    // No stats were recorded for the rejected request
    assert!(processor.get_processing_stats(1).is_err());
}

#[test]
fn select_best_picks_highest_score() {
    let mut directory = ProcessorDirectory::new();
    // A: power 10, reputation 100, success 100 -> score 320
    directory.register(11, 10);
    // B: power 5, reputation 100, success 100 -> score 210
    directory.register(22, 5);
    assert_eq!(directory.select_best().unwrap(), 11);
}

#[test]
fn select_best_tie_goes_to_earliest() {
    let mut directory = ProcessorDirectory::new();
    directory.register(33, 5);
    directory.register(44, 5);
    assert_eq!(directory.select_best().unwrap(), 33);
}

#[test]
fn select_best_without_processors_fails() {
    let directory = ProcessorDirectory::new();
    assert_eq!(directory.select_best().unwrap_err(), BrokerError::NoProcessorsAvailable);
}

#[test]
fn reputation_floor_boundary() {
    let mut directory = ProcessorDirectory::new();
    directory.register(11, 10);
    // Five penalties of 10: reputation 100 -> 50, exactly at the floor
    for _ in 0..5 {
        directory.penalize(11, 10);
    }
    let at_floor = directory.get_processor(11).unwrap();
    assert_eq!(at_floor.reputation, 50);
    assert!(at_floor.is_active);
    // One more point below the floor deactivates
    directory.penalize(11, 1);
    let below_floor = directory.get_processor(11).unwrap();
    assert_eq!(below_floor.reputation, 49);
    assert!(!below_floor.is_active);
}

#[test]
fn penalty_saturates_at_zero() {
    let mut directory = ProcessorDirectory::new();
    directory.register(11, 10);
    directory.penalize(11, 1_000);
    let entry = directory.get_processor(11).unwrap();
    assert_eq!(entry.reputation, 0);
    assert!(!entry.is_active);
}

#[test]
fn dispute_penalizes_and_marks_disputed() {
    let mut compute = OffChainCompute::new(OWNER);
    compute.register_processor(55, 1000).unwrap();
    let request_id = compute
        .submit_compute_request(vec![1, 2, 3], 1, NOW + 100, OWNER, NOW, HEIGHT)
        .unwrap();
    compute
        .submit_compute_result(&request_id, vec![4, 5], 90, 10, 10, 55, NOW + 1)
        .unwrap();
    compute.dispute_result(&request_id, &vec![7, 7, 7]).unwrap();
    let request = compute.get_request(&request_id).unwrap();
    assert!(matches!(request.status, RequestStatus::Disputed));
    let processor = compute.get_processor(55).unwrap();
    assert_eq!(processor.reputation, 90);
    assert!(processor.is_active);
    // A second dispute of the same request is rejected
    let again = compute.dispute_result(&request_id, &vec![7]);
    assert_eq!(again.unwrap_err(), BrokerError::InvalidState);
}

#[test]
fn expired_submission_fails_and_stays_pending() {
    let mut compute = OffChainCompute::new(OWNER);
    compute.register_processor(55, 1000).unwrap();
    let request_id = compute
        .submit_compute_request(vec![1, 2, 3], 1, NOW + 10, OWNER, NOW, HEIGHT)
        .unwrap();
    // At the deadline the submission is already expired
    let result = compute.submit_compute_result(&request_id, vec![4], 90, 10, 10, 55, NOW + 10);
    assert_eq!(result.unwrap_err(), BrokerError::Expired);
    let request = compute.get_request(&request_id).unwrap();
    assert!(matches!(request.status, RequestStatus::Pending));
}

#[test]
fn wrong_submitter_is_forbidden() {
    let mut compute = OffChainCompute::new(OWNER);
    compute.register_processor(55, 1000).unwrap();
    let request_id = compute
        .submit_compute_request(vec![1, 2, 3], 1, NOW + 10, OWNER, NOW, HEIGHT)
        .unwrap();
    let result = compute.submit_compute_result(&request_id, vec![4], 90, 10, 10, 66, NOW + 1);
    assert_eq!(result.unwrap_err(), BrokerError::Forbidden);
}

#[test]
fn completed_request_rejects_second_result() {
    let mut compute = OffChainCompute::new(OWNER);
    compute.register_processor(55, 1000).unwrap();
    let request_id = compute
        .submit_compute_request(vec![1, 2, 3], 1, NOW + 10, OWNER, NOW, HEIGHT)
        .unwrap();
    compute
        .submit_compute_result(&request_id, vec![4], 90, 10, 10, 55, NOW + 1)
        .unwrap();
    let again = compute.submit_compute_result(&request_id, vec![5], 90, 10, 10, 55, NOW + 2);
    assert_eq!(again.unwrap_err(), BrokerError::InvalidState);
}

#[test]
fn unknown_request_is_not_found() {
    let mut compute = OffChainCompute::new(OWNER);
    let missing = vec![0u8; 32];
    let result = compute.submit_compute_result(&missing, vec![4], 90, 10, 10, 55, NOW);
    assert_eq!(result.unwrap_err(), BrokerError::RequestNotFound);
    let disputed = compute.dispute_result(&missing, &vec![1]);
    assert_eq!(disputed.unwrap_err(), BrokerError::RequestNotFound);
}

#[test]
fn past_deadline_is_invalid() {
    let mut compute = OffChainCompute::new(OWNER);
    compute.register_processor(55, 1000).unwrap();
    let result = compute.submit_compute_request(vec![1], 1, NOW, OWNER, NOW, HEIGHT);
    assert_eq!(result.unwrap_err(), BrokerError::InvalidDeadline);
}

#[test]
fn unauthorized_registration_is_rejected() {
    let mut processor = AIProcessor::new(OWNER);
    let result = processor.register_model(2, 1, 1024, 128, 32, 100, false, 3600, 1_000_000);
    assert_eq!(result.unwrap_err(), BrokerError::Unauthorized);
    assert!(processor.get_model_config(1).is_err());
}

#[test]
fn oversized_batch_yields_no_results() {
    let mut processor = AIProcessor::new(OWNER);
    processor
        .register_model(OWNER, 1, 1024, 128, 2, 100, false, 3600, 1_000_000)
        .unwrap();
    let inputs = vec![vec![1], vec![2], vec![3]];
    let result = processor.batch_process(1, inputs, OWNER, NOW, HEIGHT, COST, DURATION);
    assert_eq!(result.unwrap_err(), BrokerError::BatchTooLarge);
    // Nothing was processed: no stats exist
    assert!(processor.get_processing_stats(1).is_err());
}

#[test]
fn running_average_follows_the_formula() {
    let mut stats = StatsAggregator::new();
    stats.record(1, COST, 10);
    assert_eq!(stats.get(1).unwrap().avg_processing_time, 10);
    stats.record(1, COST, 20);
    assert_eq!(stats.get(1).unwrap().avg_processing_time, 15);
    stats.record(1, COST, 30);
    assert_eq!(stats.get(1).unwrap().avg_processing_time, 20);
    let entry = stats.get(1).unwrap();
    assert_eq!(entry.total_requests, 3);
    assert_eq!(entry.total_gas_used, 3 * COST);
}

#[test]
fn ratios_follow_the_counters() {
    let mut stats = StatsAggregator::new();
    stats.record(1, COST, 10);
    stats.record_cache_hit(1);
    stats.record_off_chain(1);
    stats.record_cache_hit(1);
    let entry = stats.get(1).unwrap();
    assert_eq!(entry.total_requests, 4);
    assert_eq!(entry.cache_hits, 2);
    assert_eq!(entry.off_chain_count, 1);
    assert_eq!(entry.cache_hit_rate(), 50);
    assert_eq!(entry.off_chain_ratio(), 25);
    assert_eq!(entry.success_rate, 100);
}

#[test]
fn costly_request_is_delegated_off_chain() {
    let mut processor = AIProcessor::new(OWNER);
    // max cost 100: a 4-byte input estimates at 400_000 and must go
    // off-chain
    processor
        .register_model(OWNER, 1, 1024, 128, 32, 100, true, 3600, 100)
        .unwrap();
    processor.register_processor(55, 1000).unwrap();
    let result = processor
        .process_inference(1, vec![1, 2, 3, 4], OWNER, NOW, HEIGHT, COST, DURATION)
        .unwrap();
    assert_eq!(result.computation_source, ComputationSource::OffChain);
    assert_eq!(result.confidence, 0);
    assert!(result.output.is_empty());
    assert_eq!(result.request_id.len(), 32);
    let stats = processor.get_processing_stats(1).unwrap();
    assert_eq!(stats.off_chain_count, 1);
    assert_eq!(stats.total_gas_used, 0);
}

#[test]
fn costly_request_without_processors_fails() {
    let mut processor = AIProcessor::new(OWNER);
    processor
        .register_model(OWNER, 1, 1024, 128, 32, 100, true, 3600, 100)
        .unwrap();
    let result = processor.process_inference(1, vec![1, 2, 3, 4], OWNER, NOW, HEIGHT, COST, DURATION);
    assert_eq!(result.unwrap_err(), BrokerError::NoProcessorsAvailable);
}

#[test]
fn delegated_result_completes_and_caches() {
    let mut processor = AIProcessor::new(OWNER);
    processor
        .register_model(OWNER, 1, 1024, 128, 32, 100, true, 3600, 100)
        .unwrap();
    processor.register_processor(55, 1000).unwrap();
    let input = vec![1, 2, 3, 4];
    let pending = processor
        .process_inference(1, input.clone(), OWNER, NOW, HEIGHT, COST, DURATION)
        .unwrap();
    let accepted = processor.submit_off_chain_result(
        &pending.request_id,
        vec![9, 8, 7],
        88,
        5,
        6,
        55,
        NOW + 1,
    );
    assert_eq!(accepted.unwrap(), true);
    // The delegated output is now served from the cache
    let served = processor
        .process_inference(1, input, OWNER, NOW + 2, HEIGHT, COST, DURATION)
        .unwrap();
    assert_eq!(served.computation_source, ComputationSource::Cached);
    assert_eq!(served.output, vec![9, 8, 7]);
}

#[test]
fn compression_round_trips() {
    let mut optimizer = StylusOptimizer::new(9);
    let data = vec![5, 5, 5, 5, 1, 2, 2, 9];
    let compressed = optimizer.compress_educational_data(data.clone(), 5, 2).unwrap();
    assert_eq!(compressed, vec![4, 5, 1, 1, 2, 2, 1, 9]);
    let mut decoded: Vec<u8> = Vec::new();
    let mut i = 0;
    while i + 1 < compressed.len() {
        for _ in 0..compressed[i] {
            decoded.push(compressed[i + 1]);
        }
        i += 2;
    }
    assert_eq!(decoded, data);
}

#[test]
fn short_certificate_is_rejected() {
    let mut optimizer = StylusOptimizer::new(9);
    let result = optimizer.process_certificate_verification(vec![0; 31], 5, 2).unwrap();
    assert!(!result);
}

#[test]
fn layout_pass_keeps_only_words_with_data() {
    let mut optimizer = StylusOptimizer::new(9);
    let mut data = vec![0u8; 32];
    data.extend(vec![1u8; 32]);
    data.extend(vec![0u8; 32]);
    let result = optimizer.optimize_storage_layout(data, 5, 2).unwrap();
    assert_eq!(result.original_size, 96);
    assert_eq!(result.compressed_size, 32);
}

#[test]
fn reregistration_overwrites_and_reactivates() {
    let mut processor = AIProcessor::new(OWNER);
    processor
        .register_model(OWNER, 1, 1024, 128, 32, 100, false, 3600, 1_000_000)
        .unwrap();
    processor
        .register_model(OWNER, 1, 2048, 256, 16, 200, true, 60, 500)
        .unwrap();
    let config = processor.get_model_config(1).unwrap();
    assert_eq!(config.input_size, 2048);
    assert_eq!(config.batch_size, 16);
    assert!(config.is_active);
}

#[test]
fn request_ids_are_deterministic_per_height() {
    let mut compute = OffChainCompute::new(OWNER);
    compute.register_processor(55, 1000).unwrap();
    // The id derives from height, timestamp and caller alone, so the
    // same readings yield the same id and the entry is overwritten
    let first = compute
        .submit_compute_request(vec![1], 1, NOW + 10, OWNER, NOW, HEIGHT)
        .unwrap();
    let second = compute
        .submit_compute_request(vec![2], 1, NOW + 20, OWNER, NOW, HEIGHT)
        .unwrap();
    assert_eq!(first, second);
    let stored = compute.get_request(&first).unwrap();
    assert_eq!(stored.input_data, vec![2]);
    assert_eq!(stored.deadline, NOW + 20);
    // A different height yields a different id
    let third = compute
        .submit_compute_request(vec![3], 1, NOW + 30, OWNER, NOW, HEIGHT + 1)
        .unwrap();
    assert_ne!(first, third);
}

#[test]
fn compression_records_metrics() {
    let mut optimizer = StylusOptimizer::new(9);
    let compressed = optimizer.compress_educational_data(vec![8, 8, 8], 5, 2).unwrap();
    assert_eq!(compressed, vec![3, 8]);
    let metrics = optimizer.calculate_performance_metrics();
    assert_eq!(metrics.memory_used, 2);
    assert_eq!(metrics.gas_used, 5);
    assert_eq!(metrics.execution_time, 2);
}

#[test]
fn failed_batch_changes_nothing() {
    let mut processor = AIProcessor::new(OWNER);
    processor
        .register_model(OWNER, 1, 4, 128, 10, 100, false, 3600, 1_000_000)
        .unwrap();
    // The second item is oversized: the whole batch is rejected before
    // any item is processed
    let inputs = vec![vec![1, 2], vec![1; 8]];
    let result = processor.batch_process(1, inputs, OWNER, NOW, HEIGHT, COST, DURATION);
    assert_eq!(result.unwrap_err(), BrokerError::InputTooLarge);
    // No stats were recorded for the first item
    assert!(processor.get_processing_stats(1).is_err());
    // The first item was not cached either: processing it now runs
    // locally instead of being served from the cache
    let single = processor
        .process_inference(1, vec![1, 2], OWNER, NOW, HEIGHT, COST, DURATION)
        .unwrap();
    assert_eq!(single.computation_source, ComputationSource::OnChain);
}

#[test]
fn batch_without_processors_fails_before_processing() {
    let mut processor = AIProcessor::new(OWNER);
    // max cost 150_000: a 2-byte input estimates at 200_000 and needs a
    // processor, but none is registered
    processor
        .register_model(OWNER, 1, 1024, 128, 10, 100, true, 3600, 150_000)
        .unwrap();
    let inputs = vec![vec![1], vec![2, 3]];
    let result = processor.batch_process(1, inputs, OWNER, NOW, HEIGHT, COST, DURATION);
    assert_eq!(result.unwrap_err(), BrokerError::NoProcessorsAvailable);
    assert!(processor.get_processing_stats(1).is_err());
}

#[test]
fn batch_routes_each_item_by_cost() {
    let mut processor = AIProcessor::new(OWNER);
    processor
        .register_model(OWNER, 1, 1024, 128, 10, 100, true, 3600, 150_000)
        .unwrap();
    processor.register_processor(55, 1000).unwrap();
    // One local item (estimate 100_000), one delegated (200_000)
    let inputs = vec![vec![1], vec![2, 3]];
    let results = processor
        .batch_process(1, inputs, OWNER, NOW, HEIGHT, COST, DURATION)
        .unwrap();
    assert_eq!(results.len(), 2);
    assert_eq!(results[0].computation_source, ComputationSource::OnChain);
    assert_eq!(results[1].computation_source, ComputationSource::OffChain);
    let stats = processor.get_processing_stats(1).unwrap();
    assert_eq!(stats.total_requests, 2);
    assert_eq!(stats.off_chain_count, 1);
    assert_eq!(stats.total_gas_used, COST);
}

#[test]
fn batch_serves_duplicate_items_from_cache() {
    let mut processor = AIProcessor::new(OWNER);
    processor
        .register_model(OWNER, 1, 1024, 128, 10, 100, false, 3600, 1_000_000)
        .unwrap();
    let inputs = vec![vec![7, 7], vec![7, 7]];
    let results = processor
        .batch_process(1, inputs, OWNER, NOW, HEIGHT, COST, DURATION)
        .unwrap();
    assert_eq!(results[0].computation_source, ComputationSource::OnChain);
    assert_eq!(results[1].computation_source, ComputationSource::Cached);
    assert_eq!(results[1].output, results[0].output);
    let stats = processor.get_processing_stats(1).unwrap();
    assert_eq!(stats.total_requests, 2);
    assert_eq!(stats.cache_hits, 1);
    assert_eq!(stats.total_gas_used, COST);
}
