//! Exercises of the processor surface: lazily created stats,
//! validation errors, and batching limits.
#![allow(non_snake_case)]
use compute_broker::router::AIProcessor;

const OWNER: u64 = 1;
const NOW: u64 = 1_000;
const HEIGHT: u64 = 7;
const COST: u64 = 42;
const DURATION: u64 = 10;

fn basic_processor() -> AIProcessor {
    let mut processor = AIProcessor::new(OWNER);
    processor
        .register_model(OWNER, 1, 1024, 128, 32, 100, false, 3600, 1_000_000)
        .unwrap();
    processor
}

#[test]
fn lib_test_register_model() {
    let mut processor = AIProcessor::new(OWNER);
    let result = processor.register_model(OWNER, 1, 1024, 128, 32, 100, false, 3600, 1_000_000);
    assert!(result.is_ok());
}

#[test]
fn lib_test_process_inference() {
    let mut processor = basic_processor();
    let input = vec![1, 2, 3, 4];
    let result = processor.process_inference(1, input, OWNER, NOW, HEIGHT, COST, DURATION);
    assert!(result.is_ok());
}

#[test]
fn test_batch_process() {
    let mut processor = basic_processor();
    let inputs = vec![vec![1, 2, 3], vec![4, 5, 6]];
    let result = processor.batch_process(1, inputs, OWNER, NOW, HEIGHT, COST, DURATION);
    assert!(result.is_ok());
    assert_eq!(result.unwrap().len(), 2);
}

#[test]
fn test_model_registration() {
    let mut processor = basic_processor();

    let config = processor.get_model_config(1).unwrap();
    assert!(config.is_active);
    assert_eq!(config.input_size, 1024);
}

#[test]
fn test_inference_processing() {
    let mut processor = basic_processor();

    let input_data = vec![1, 2, 3, 4];
    let result = processor.process_inference(1, input_data, OWNER, NOW, HEIGHT, COST, DURATION);

    assert!(result.is_ok());
    let inference = result.unwrap();
    assert!(inference.confidence > 0);
}

#[test]
fn test_batch_processing() {
    let mut processor = basic_processor();

    let inputs = vec![vec![1, 2, 3], vec![4, 5, 6]];
    let result = processor.batch_process(1, inputs, OWNER, NOW, HEIGHT, COST, DURATION);
    assert!(result.is_ok());

    let results = result.unwrap();
    assert_eq!(results.len(), 2);

    for inference in results {
        assert!(inference.confidence > 0);
    }
}

#[test]
fn test_stats_tracking() {
    let mut processor = basic_processor();

    let input_data = vec![1, 2, 3, 4];
    processor
        .process_inference(1, input_data.clone(), OWNER, NOW, HEIGHT, COST, DURATION)
        .unwrap();
    processor
        .process_inference(1, input_data, OWNER, NOW, HEIGHT, COST, DURATION)
        .unwrap();

    let stats = processor.get_processing_stats(1).unwrap();
    assert_eq!(stats.total_requests, 2);
    assert!(stats.total_gas_used > 0);
    assert!(stats.avg_processing_time > 0);
}

#[test]
fn test_error_handling() {
    let mut processor = AIProcessor::new(OWNER);

    // Processing without a registered model fails
    let input_data = vec![1, 2, 3, 4];
    let result = processor.process_inference(1, input_data, OWNER, NOW, HEIGHT, COST, DURATION);
    assert!(result.is_err());

    // Looking an unregistered model up fails
    let result = processor.get_model_config(1);
    assert!(result.is_err());
}

#[test]
fn test_input_validation() {
    let mut processor = AIProcessor::new(OWNER);

    // Register a model with a small input bound
    processor
        .register_model(OWNER, 1, 4, 128, 32, 100, false, 3600, 1_000_000)
        .unwrap();

    // An oversized input is rejected
    let large_input = vec![1; 8];
    let result = processor.process_inference(1, large_input, OWNER, NOW, HEIGHT, COST, DURATION);
    assert!(result.is_err());
}

#[test]
fn test_batch_size_limits() {
    let mut processor = AIProcessor::new(OWNER);

    // Register a model with a small batch bound
    processor
        .register_model(OWNER, 1, 1024, 128, 2, 100, false, 3600, 1_000_000)
        .unwrap();

    // A batch over the bound is rejected
    let inputs = vec![vec![1, 2, 3], vec![4, 5, 6], vec![7, 8, 9]];
    let result = processor.batch_process(1, inputs, OWNER, NOW, HEIGHT, COST, DURATION);
    assert!(result.is_err());
}

#[test]
fn test_owner_functions() {
    let mut processor = AIProcessor::new(OWNER);

    // The creator is the owner and may register models
    let result = processor.register_model(OWNER, 1, 1024, 128, 32, 100, false, 3600, 1_000_000);
    assert!(result.is_ok());
}
