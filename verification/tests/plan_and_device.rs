use bedrock_cracker::context::{
    candidates_to_read, check_upload, check_uploaded, select_device, work_sizes, MAX_CANDIDATES,
};
use bedrock_cracker::error::GpuError;
use bedrock_cracker::gpu::{is_gpu_available, name_or_unknown, GpuDevice};
use bedrock_cracker::search::{Batch, BatchPlan, TOTAL_UPPER_BITS};

fn run(mut plan: BatchPlan) -> Vec<Batch> {
    let mut batches = Vec::new();
    while let Some(b) = plan.next_batch() {
        batches.push(b);
    }
    batches
}

#[test]
fn full_search_plan() {
    let mut plan = BatchPlan::full_search(1 << 20);
    assert_eq!(plan.next_start, 0);
    assert_eq!(plan.end_upper_bits, TOTAL_UPPER_BITS);
    assert_eq!(plan.next_batch(), Some(Batch { start_seed: 0, size: 1 << 20 }));
    assert_eq!(plan.next_batch(), Some(Batch { start_seed: (1u64 << 20) << 12, size: 1 << 20 }));
    plan.next_start = TOTAL_UPPER_BITS - (1 << 20);
    let last = plan.next_batch().unwrap();
    assert_eq!(last, Batch { start_seed: (TOTAL_UPPER_BITS - (1 << 20)) << 12, size: 1 << 20 });
    assert_eq!(plan.next_batch(), None);
}

#[test]
fn full_search_keeps_partial_last_batch() {
    // 3 does not divide 2^36: the last batch holds the single value 2^36 - 1
    let mut plan = BatchPlan::full_search(3);
    plan.next_start = TOTAL_UPPER_BITS - 4;
    assert_eq!(plan.next_batch(), Some(Batch { start_seed: (TOTAL_UPPER_BITS - 4) << 12, size: 3 }));
    assert_eq!(plan.next_batch(), Some(Batch { start_seed: (TOTAL_UPPER_BITS - 1) << 12, size: 1 }));
    assert_eq!(plan.next_batch(), None);
}

#[test]
fn full_search_progress_adds_up_to_all_seeds() {
    let batches = run(BatchPlan::full_search(1 << 30));
    assert_eq!(batches.len(), 64);
    let total: u64 = batches.iter().map(BatchPlan::progress).sum();
    assert_eq!(total, 1u64 << 48);
    let batches = run(BatchPlan::full_search(3_000_000_000));
    let total: u64 = batches.iter().map(|b| b.size as u64).sum();
    assert_eq!(total, TOTAL_UPPER_BITS);
}

#[test]
fn range_search_plan_cuts_first_and_last_batch() {
    let batches = run(BatchPlan::range_search(5, 10, 4));
    assert_eq!(batches, vec![Batch { start_seed: 5 << 12, size: 3 }, Batch { start_seed: 8 << 12, size: 2 }]);
    assert_eq!(BatchPlan::progress(&batches[0]), 3 * 4096);
    assert_eq!(BatchPlan::progress(&batches[1]), 2 * 4096);
    let batches = run(BatchPlan::range_search(2, 6, 4));
    assert_eq!(batches, vec![Batch { start_seed: 2 << 12, size: 2 }, Batch { start_seed: 4 << 12, size: 2 }]);
    let batches = run(BatchPlan::range_search(8, 20, 4));
    assert_eq!(batches.len(), 3);
    assert!(batches.iter().all(|b| b.size == 4));
}

#[test]
fn range_search_splits_at_batch_boundary() {
    let whole = run(BatchPlan::range_search(3, 22, 4));
    let mut parts = run(BatchPlan::range_search(3, 12, 4));
    parts.extend(run(BatchPlan::range_search(12, 22, 4)));
    assert_eq!(whole, parts);
    let total: u32 = whole.iter().map(|b| b.size).sum();
    assert_eq!(total, 19);
}

#[test]
fn range_search_with_empty_range() {
    assert!(run(BatchPlan::range_search(100, 50, 8)).is_empty());
    assert!(run(BatchPlan::range_search(0, 0, 8)).is_empty());
    assert!(run(BatchPlan::range_search(3, 3, 8)).is_empty());
}

#[test]
fn undelivered_progress_stops_the_plan() {
    let mut plan = BatchPlan::range_search(0, 100, 10);
    plan.next_batch();
    plan.record_delivery(true);
    assert_eq!(plan.next_start, 10);
    plan.record_delivery(false);
    assert_eq!(plan.next_batch(), None);
}

#[test]
fn device_selection() {
    assert_eq!(select_device(2, 1), Ok(1));
    assert_eq!(
        select_device(0, 0),
        Err(GpuError::DeviceNotFound("No GPU devices found".to_string()))
    );
    assert_eq!(
        select_device(2, 3),
        Err(GpuError::DeviceNotFound("Device index 3 out of range (found 2 devices)".to_string()))
    );
    assert_eq!(
        select_device(12, 140),
        Err(GpuError::DeviceNotFound("Device index 140 out of range (found 12 devices)".to_string()))
    );
}

#[test]
fn upload_and_work_sizes() {
    assert_eq!(check_upload(0), Err(GpuError::InvalidInput("No checks provided".to_string())));
    assert_eq!(check_upload(3), Ok(()));
    assert_eq!(check_uploaded(false), Err(GpuError::InvalidInput("Checks not uploaded".to_string())));
    assert_eq!(check_uploaded(true), Ok(()));
    assert_eq!(work_sizes(1 << 20, Some(1024)), (256, 1 << 20));
    assert_eq!(work_sizes(1000, Some(100)), (100, 1000));
    assert_eq!(work_sizes(1001, None), (256, 1024));
    assert_eq!(work_sizes(1, Some(64)), (64, 64));
    assert_eq!(candidates_to_read(0), 0);
    assert_eq!(candidates_to_read(70000), MAX_CANDIDATES);
    assert_eq!(candidates_to_read(65535), 65535);
}

#[test]
fn device_descriptions() {
    let d = GpuDevice::from_query(2, Some("RTX".to_string()), None, Some(46), None);
    assert_eq!(d.index, 2);
    assert_eq!(d.name, "RTX");
    assert_eq!(d.vendor, "Unknown");
    assert_eq!(d.compute_units, 46);
    assert_eq!(d.memory, 0);
    assert_eq!(name_or_unknown(None), "Unknown");
    assert!(is_gpu_available(&Ok(vec![d.clone()])));
    assert!(!is_gpu_available(&Ok(vec![])));
    assert!(!is_gpu_available(&Err(GpuError::DeviceNotFound("x".to_string()))));
}

#[test]
fn error_texts() {
    let expected = vec![
        (GpuError::DeviceNotFound("a".to_string()), "GPU device not found: a"),
        (GpuError::ContextCreation("b".to_string()), "Failed to create OpenCL context: b"),
        (GpuError::QueueCreation("c".to_string()), "Failed to create command queue: c"),
        (GpuError::KernelCompilation("d".to_string()), "Failed to compile OpenCL kernel: d"),
        (GpuError::KernelCreation("e".to_string()), "Failed to create kernel: e"),
        (GpuError::BufferCreation("f".to_string()), "Failed to create buffer: f"),
        (GpuError::BufferWrite("g".to_string()), "Failed to write to buffer: g"),
        (GpuError::BufferRead("h".to_string()), "Failed to read from buffer: h"),
        (GpuError::KernelExecution("i".to_string()), "Failed to execute kernel: i"),
        (GpuError::InvalidInput("j".to_string()), "Invalid input: j"),
    ];
    for (e, text) in expected {
        assert_eq!(e.to_string(), text);
    }
}
