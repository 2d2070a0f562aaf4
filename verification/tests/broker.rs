//! End-to-end exercises of the broker: model registration, routing,
//! batching, the off-chain ledger, and the storage optimizer.
#![allow(non_snake_case)]
use compute_broker::ledger::OffChainCompute;
use compute_broker::optimizer::StylusOptimizer;
use compute_broker::router::AIProcessor;
use compute_broker::router::ComputationSource;

const OWNER: u64 = 1;
const NOW: u64 = 1_000;
const HEIGHT: u64 = 7;
const COST: u64 = 42;
const DURATION: u64 = 10;

fn full_processor() -> AIProcessor {
    let mut processor = AIProcessor::new(OWNER);
    processor
        .register_model(OWNER, 1, 1024, 128, 32, 100, true, 3600, 1_000_000)
        .unwrap();
    processor
}

#[test]
fn AIProcessorStylus_test_register_model() {
    let mut processor = AIProcessor::new(OWNER);
    let result = processor.register_model(OWNER, 1, 1024, 128, 32, 100, true, 3600, 1_000_000);
    assert!(result.is_ok());
}

#[test]
fn AIProcessorStylus_test_process_inference() {
    let mut processor = full_processor();
    let input = vec![1, 2, 3, 4];
    let result = processor.process_inference(1, input, OWNER, NOW, HEIGHT, COST, DURATION);
    assert!(result.is_ok());
}

#[test]
fn test_cache_hit() {
    let mut processor = full_processor();
    let input = vec![1, 2, 3, 4];

    // First call should process
    let result1 = processor.process_inference(1, input.clone(), OWNER, NOW, HEIGHT, COST, DURATION);
    assert!(result1.is_ok());

    // Second call should hit cache
    let result2 = processor.process_inference(1, input, OWNER, NOW, HEIGHT, COST, DURATION);
    assert!(result2.is_ok());
    assert_eq!(result2.unwrap().computation_source, ComputationSource::Cached);
}

#[test]
fn test_register_processor() {
    let mut compute = OffChainCompute::new(OWNER);
    let result = compute.register_processor(OWNER, 1000);
    assert!(result.is_ok());
}

#[test]
fn test_submit_request() {
    let mut compute = OffChainCompute::new(OWNER);

    // Register a processor first
    compute.register_processor(OWNER, 1000).unwrap();

    let input = vec![1, 2, 3, 4];
    let deadline = NOW + 3600;
    let result = compute.submit_compute_request(input, 1, deadline, OWNER, NOW, HEIGHT);
    assert!(result.is_ok());
}

#[test]
fn test_submit_result() {
    let mut compute = OffChainCompute::new(OWNER);

    // Setup
    compute.register_processor(OWNER, 1000).unwrap();
    let input = vec![1, 2, 3, 4];
    let deadline = NOW + 3600;
    let request_id = compute
        .submit_compute_request(input, 1, deadline, OWNER, NOW, HEIGHT)
        .unwrap();

    // Submit result
    let output = vec![5, 6, 7, 8];
    let result = compute.submit_compute_result(&request_id, output, 95, 100, 1000, OWNER, NOW);
    assert!(result.is_ok());
}

#[test]
fn test_compression() {
    let mut optimizer = StylusOptimizer::new(9);
    let test_data = vec![1, 1, 1, 2, 2, 3, 3, 3, 3];
    let compressed = optimizer.compress_educational_data(test_data, 5, 2).unwrap();
    assert!(compressed.len() < 9);
}

#[test]
fn test_certificate_verification() {
    let mut optimizer = StylusOptimizer::new(9);
    let test_cert = vec![0; 64]; // Simulated certificate
    let result = optimizer.process_certificate_verification(test_cert, 5, 2).unwrap();
    assert!(result);
}

#[test]
fn test_storage_optimization() {
    let mut optimizer = StylusOptimizer::new(9);
    let test_storage = vec![0; 128];
    let result = optimizer.optimize_storage_layout(test_storage, 5, 2).unwrap();
    let ratio = result.compressed_size as f32 / result.original_size as f32;
    assert!(ratio < 1.0);
}
