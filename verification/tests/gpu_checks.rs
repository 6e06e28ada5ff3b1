use bedrock_cracker::block_data::{BedrockGeneration, Block, BlockFilter, BlockType};
use bedrock_cracker::gpu::GpuCheckObject;
use bedrock_cracker::search::prepare_gpu_checks;

fn test_blocks() -> Vec<Block> {
    vec![
        Block::new(18, 123, -117, BlockType::OTHER),
        Block::new(18, 123, -118, BlockType::OTHER),
        Block::new(18, 123, -119, BlockType::OTHER),
        Block::new(33, 126, -99, BlockType::OTHER),
        Block::new(35, 126, -99, BlockType::OTHER),
        Block::new(38, 126, -99, BlockType::OTHER),
        Block::new(19, 123, -117, BlockType::BEDROCK),
        Block::new(19, 123, -118, BlockType::BEDROCK),
        Block::new(19, 123, -119, BlockType::BEDROCK),
        Block::new(25, 126, -112, BlockType::BEDROCK),
        Block::new(25, 126, -113, BlockType::BEDROCK),
        Block::new(25, 126, -114, BlockType::BEDROCK),
        Block::new(11, 1, -111, BlockType::OTHER),
        Block::new(11, 1, -110, BlockType::OTHER),
        Block::new(11, 1, -109, BlockType::OTHER),
        Block::new(14, 4, -97, BlockType::OTHER),
        Block::new(14, 4, -96, BlockType::OTHER),
        Block::new(14, 4, -94, BlockType::OTHER),
        Block::new(10, 1, -111, BlockType::BEDROCK),
        Block::new(10, 1, -110, BlockType::BEDROCK),
        Block::new(10, 1, -109, BlockType::BEDROCK),
        Block::new(11, 4, -97, BlockType::BEDROCK),
        Block::new(11, 4, -96, BlockType::BEDROCK),
        Block::new(11, 4, -94, BlockType::BEDROCK),
    ]
}

#[test]
fn test_gpu_check_object_size() {
    // Verify the struct is 32 bytes (4 x 8-byte fields)
    assert_eq!(std::mem::size_of::<GpuCheckObject>(), 32);
}

#[test]
fn test_prepare_gpu_checks() {
    let (checks, _secondary, _is_floor_primary) =
        prepare_gpu_checks(&test_blocks(), BedrockGeneration::Normal);
    assert!(!checks.is_empty(), "GPU checks should not be empty");
}

#[test]
fn test_gpu_check_object_conversion() {
    let block = Block::new(18, 123, -117, BlockType::OTHER);
    let filter = BlockFilter::from(&block, BedrockGeneration::Normal);
    let check = filter.create_check(12);
    let gpu_check = GpuCheckObject::from_check_object(&check);

    // Verify the GPU check matches the CPU check behavior
    let test_seed: u64 = 0x123456789000; // Multiple of 4096
    let cpu_result = check.check(test_seed);
    let gpu_result = gpu_check.check_cpu(test_seed);
    assert_eq!(cpu_result, gpu_result, "GPU and CPU check should produce same result");
}

#[test]
fn prepare_picks_roof_for_known_pattern() {
    let blocks = test_blocks();
    let (checks, secondary, is_floor_primary) = prepare_gpu_checks(&blocks, BedrockGeneration::Normal);
    // Both surfaces hold twelve blocks; the roof's let slightly fewer seeds pass.
    assert!(!is_floor_primary);
    assert_eq!(checks.len(), 12);
    assert_eq!(secondary.len(), 12);
    // the first roof block, y = 123 observed OTHER, cannot filter with 12 unknown bits
    assert_eq!(checks[0].condition, 0);
    assert_eq!(checks[3].condition, 121924936406637);
    assert_eq!(checks[6].condition, 121924953183853);
    assert_eq!(checks[0]._padding, 0);
}

#[test]
fn gpu_check_equals_cpu_check_on_many_seeds() {
    for block in test_blocks() {
        let filter = BlockFilter::from(&block, BedrockGeneration::Normal);
        for bits in [0u32, 12] {
            let check = filter.create_check(bits);
            let gpu = GpuCheckObject::from_check_object(&check);
            assert_eq!(gpu.pos_hash, check.pos_hash());
            assert_eq!(gpu.condition, check.condition());
            assert_eq!(gpu.offset, check.offset());
            let mut seed: u64 = 0x1234_5678_9abc;
            for _ in 0..200 {
                assert_eq!(check.check(seed), gpu.check_cpu(seed));
                seed = seed.wrapping_mul(6364136223846793005).wrapping_add(1442695040888963407);
            }
        }
    }
}
