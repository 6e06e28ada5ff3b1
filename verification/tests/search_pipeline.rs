use bedrock_cracker::block_data::{
    get_filter_power, pos_seed, BedrockGeneration, Block, BlockFilter, BlockType, OutputMode,
    FLOOR_HASH, ROOF_HASH,
};
use bedrock_cracker::lcg::{next_long, reverse_next_long, MASK48};
use bedrock_cracker::search::{
    create_final_checks, cross_comparison, cross_comparison_of, report_structures, world_seeds_of, finalize_candidate, passes_checks,
    search_bedrock_pattern_gpu, search_bedrock_pattern_gpu_range, GpuSearchConfig, BATCH_SIZE,
};

const WORLD_SEED: u64 = 765906787396911863;

fn test_blocks() -> Vec<Block> {
    vec![
        Block::new(18, 123, -117, BlockType::OTHER),
        Block::new(18, 123, -118, BlockType::OTHER),
        Block::new(18, 123, -119, BlockType::OTHER),
        Block::new(33, 126, -99, BlockType::OTHER),
        Block::new(35, 126, -99, BlockType::OTHER),
        Block::new(38, 126, -99, BlockType::OTHER),
        Block::new(19, 123, -117, BlockType::BEDROCK),
        Block::new(19, 123, -118, BlockType::BEDROCK),
        Block::new(19, 123, -119, BlockType::BEDROCK),
        Block::new(25, 126, -112, BlockType::BEDROCK),
        Block::new(25, 126, -113, BlockType::BEDROCK),
        Block::new(25, 126, -114, BlockType::BEDROCK),
        Block::new(11, 1, -111, BlockType::OTHER),
        Block::new(11, 1, -110, BlockType::OTHER),
        Block::new(11, 1, -109, BlockType::OTHER),
        Block::new(14, 4, -97, BlockType::OTHER),
        Block::new(14, 4, -96, BlockType::OTHER),
        Block::new(14, 4, -94, BlockType::OTHER),
        Block::new(10, 1, -111, BlockType::BEDROCK),
        Block::new(10, 1, -110, BlockType::BEDROCK),
        Block::new(10, 1, -109, BlockType::BEDROCK),
        Block::new(11, 4, -97, BlockType::BEDROCK),
        Block::new(11, 4, -96, BlockType::BEDROCK),
        Block::new(11, 4, -94, BlockType::BEDROCK),
    ]
}

fn surface_seed(hash: u64) -> u64 {
    next_long(next_long(WORLD_SEED) ^ hash) & MASK48
}

#[test]
fn known_world_surface_seeds() {
    assert_eq!(next_long(WORLD_SEED), 8827770514309102379);
    assert_eq!(surface_seed(FLOOR_HASH), 18240473916414);
    assert_eq!(surface_seed(ROOF_HASH), 191924403737289);
}

#[test]
fn exact_checks_accept_the_generated_pattern() {
    let floor_seed = surface_seed(FLOOR_HASH);
    let roof_seed = surface_seed(ROOF_HASH);
    for block in test_blocks() {
        let seed = if block.y < 64 { floor_seed } else { roof_seed };
        let check = BlockFilter::from(&block, BedrockGeneration::Normal).create_check(0);
        assert!(!check.check(seed), "observed block rejected: {:?}", block);
        let flipped = Block::new(
            block.x,
            block.y,
            block.z,
            match block.block_type {
                BlockType::BEDROCK => BlockType::OTHER,
                BlockType::OTHER => BlockType::BEDROCK,
            },
        );
        let check = BlockFilter::from(&flipped, BedrockGeneration::Normal).create_check(0);
        assert!(check.check(seed), "contradicting block accepted: {:?}", flipped);
    }
}

#[test]
fn fixed_layers_accept_or_reject_every_seed() {
    let floor_bedrock = BlockFilter::from(&Block::new(3, 0, 9, BlockType::BEDROCK), BedrockGeneration::Normal);
    let floor_other = BlockFilter::from(&Block::new(3, 0, 9, BlockType::OTHER), BedrockGeneration::Normal);
    let middle_bedrock = BlockFilter::from(&Block::new(3, 70, 9, BlockType::BEDROCK), BedrockGeneration::Normal);
    let top_bedrock = BlockFilter::from(&Block::new(3, 127, 9, BlockType::BEDROCK), BedrockGeneration::Normal);
    assert_eq!(floor_bedrock.condition, 0);
    assert_eq!(floor_other.condition, 1u64 << 48);
    assert_eq!(middle_bedrock.condition, 1u64 << 48);
    assert_eq!(top_bedrock.condition, 0);
    for seed in [0u64, 1, 0xFFFF_FFFF_FFFF, 0x1234_5678_9ABC] {
        assert!(!floor_bedrock.create_check(0).check(seed));
        assert!(floor_other.create_check(0).check(seed));
        assert!(middle_bedrock.create_check(0).check(seed));
    }
}

#[test]
fn block_filter_values() {
    assert_eq!(pos_seed(18, 123, -117), -133828715419016);
    assert_eq!(pos_seed(0, 0, 0), 0);
    assert_eq!(pos_seed(-5, 4, 7), -109101843556698);
    let f = BlockFilter::from(&Block::new(18, 123, -117, BlockType::OTHER), BedrockGeneration::Normal);
    assert_eq!((f.pos_hash, f.offset, f.condition), (147666547248149, 56294991986699, 56294991986688));
    let f = BlockFilter::from(&Block::new(11, 1, -111, BlockType::OTHER), BedrockGeneration::Normal);
    assert_eq!((f.pos_hash, f.offset, f.condition), (129120870675441, 11, 225179984723968));
    // leaving out 12 bits clears them from the hash and narrows the condition
    let c = f.create_check(12);
    assert_eq!(c.pos_hash, 129120870675441 & !0xFFF);
    assert_eq!(c.condition, 225179984723968 - 4095 * 0x5DEECE66D);
    assert_eq!(c.offset, 11);
    assert_eq!(f.create_check(0).condition, f.condition);
}

#[test]
fn filter_power_of_known_pattern() {
    let blocks = test_blocks();
    let floor: Vec<BlockFilter> = blocks
        .iter()
        .filter(|b| b.y < 64)
        .map(|b| BlockFilter::from(b, BedrockGeneration::Normal))
        .collect();
    let roof: Vec<BlockFilter> = blocks
        .iter()
        .filter(|b| b.y >= 64)
        .map(|b| BlockFilter::from(b, BedrockGeneration::Normal))
        .collect();
    assert_eq!(get_filter_power(&floor), 72057);
    assert_eq!(get_filter_power(&roof), 72056);
    assert_eq!(get_filter_power(&[]), 1u64 << 32);
}

#[test]
fn gpu_prefilter_keeps_known_seed() {
    let search = search_bedrock_pattern_gpu(
        &test_blocks(),
        GpuSearchConfig::default(),
        BedrockGeneration::Normal,
        OutputMode::WorldSeed,
    )
    .unwrap();
    assert!(!search.is_floor_primary);
    assert_eq!(search.primary_hash, ROOF_HASH);
    assert_eq!(search.secondary_hash, FLOOR_HASH);
    let seed = surface_seed(ROOF_HASH);
    let upper = seed & !0xFFF;
    assert!(search.gpu_checks.iter().all(|c| !c.check_cpu(upper)));
    assert!(passes_checks(&search.primary_checks, seed));
    assert!(passes_checks(&search.secondary_checks, surface_seed(FLOOR_HASH)));
    assert_eq!(search.num_checks(), 12);
}

#[test]
fn test_cpu_finalization_finds_known_seed() {
    let search = search_bedrock_pattern_gpu(
        &test_blocks(),
        GpuSearchConfig { device_index: 0, batch_size: 1 << 16 },
        BedrockGeneration::Normal,
        OutputMode::WorldSeed,
    )
    .unwrap();
    let upper = surface_seed(ROOF_HASH) & !0xFFF;
    let found = search.finalize_batch(&[upper]);
    assert_eq!(found, vec![WORLD_SEED]);
}

#[test]
fn cpu_finalization_reports_structure_seed() {
    let blocks = test_blocks();
    let (primary, secondary) = create_final_checks(&blocks, BedrockGeneration::Normal, false);
    let upper = surface_seed(ROOF_HASH) & !0xFFF;
    let found = finalize_candidate(upper, &primary, &secondary, ROOF_HASH, FLOOR_HASH, OutputMode::StructureSeed);
    assert_eq!(found, vec![13375767216887]);
    assert_eq!(WORLD_SEED & MASK48, 13375767216887);
    let direct = cross_comparison(
        surface_seed(ROOF_HASH),
        &secondary,
        ROOF_HASH,
        FLOOR_HASH,
        OutputMode::StructureSeed,
    );
    assert_eq!(direct, vec![13375767216887]);
}

#[test]
fn cpu_finalization_of_a_wrong_candidate_reports_nothing() {
    let blocks = test_blocks();
    let (primary, secondary) = create_final_checks(&blocks, BedrockGeneration::Normal, false);
    let found = finalize_candidate(0x5555_5555_5000, &primary, &secondary, ROOF_HASH, FLOOR_HASH, OutputMode::WorldSeed);
    assert!(found.is_empty());
}

#[test]
fn final_checks_follow_primary_choice() {
    let blocks = test_blocks();
    let (p_floor, s_floor) = create_final_checks(&blocks, BedrockGeneration::Normal, true);
    let (p_roof, s_roof) = create_final_checks(&blocks, BedrockGeneration::Normal, false);
    assert_eq!(p_floor, s_roof);
    assert_eq!(s_floor, p_roof);
    assert_eq!(p_floor.len(), 12);
    let first_floor = BlockFilter::from(&blocks[12], BedrockGeneration::Normal).create_check(0);
    assert_eq!(p_floor[0], first_floor);
}

#[test]
fn search_without_primary_blocks_is_invalid_input() {
    let err = search_bedrock_pattern_gpu(
        &[],
        GpuSearchConfig::default(),
        BedrockGeneration::Normal,
        OutputMode::WorldSeed,
    )
    .err()
    .unwrap();
    assert_eq!(err.to_string(), "Invalid input: No valid blocks for GPU filtering");
    // a floor block that filters nothing leaves the (empty) roof primary
    let err = search_bedrock_pattern_gpu_range(
        &[Block::new(0, 10, 0, BlockType::OTHER)],
        GpuSearchConfig::default(),
        BedrockGeneration::Normal,
        OutputMode::WorldSeed,
        0,
        100,
    );
    assert!(err.is_err());
    // an informative floor block makes the floor primary
    let ok = search_bedrock_pattern_gpu_range(
        &[Block::new(0, 2, 0, BlockType::OTHER)],
        GpuSearchConfig::default(),
        BedrockGeneration::Normal,
        OutputMode::StructureSeed,
        0,
        100,
    )
    .unwrap();
    assert!(ok.is_floor_primary);
    assert_eq!(ok.range, Some((0, 100)));
    assert_eq!(ok.gpu_checks.len(), 1);
    assert!(ok.secondary_checks.is_empty());
}

#[test]
fn default_config() {
    let c = GpuSearchConfig::default();
    assert_eq!(c.device_index, 0);
    assert_eq!(c.batch_size, BATCH_SIZE);
    assert_eq!(BATCH_SIZE, 1 << 20);
}

#[test]
fn next_long_matches_java_random() {
    assert_eq!(next_long(123), 13340209503757141141);
    assert_eq!(next_long(0), 13483975608033169720);
    assert_eq!(next_long(u64::MAX), 4961115982468162243);
    let mut s: u64 = 99;
    for _ in 0..1000 {
        let expected = java_random::Random::with_seed(s).next_long() as u64;
        assert_eq!(next_long(s), expected);
        s = s.wrapping_mul(0x9E3779B97F4A7C15).wrapping_add(7);
    }
}

#[test]
fn reverse_next_long_finds_the_seed() {
    let value = next_long(123) & MASK48;
    let seeds = reverse_next_long(value);
    assert!(seeds.contains(&123));
    assert!(seeds.len() <= 4);
    for s in &seeds {
        assert!(*s <= MASK48);
    }
    // the reverser's states, unscrambled
    let states = next_long_reverser::get_next_long(value);
    assert_eq!(seeds.len(), states.len());
    for (s, st) in seeds.iter().zip(states.iter()) {
        assert_eq!(*s, st ^ 0x5DEECE66D);
        assert_ne!(*s, *st);
    }
}

#[test]
fn cross_comparison_on_given_seeds() {
    let blocks = test_blocks();
    let (_primary, secondary) = create_final_checks(&blocks, BedrockGeneration::Normal, false);
    let internals = reverse_next_long(surface_seed(ROOF_HASH));
    let found = cross_comparison_of(&internals, &secondary, ROOF_HASH, FLOOR_HASH, OutputMode::StructureSeed);
    assert_eq!(found, vec![13375767216887]);
    // a seed whose bedrock seed fails the floor reports nothing
    let none = cross_comparison_of(&[12345], &secondary, ROOF_HASH, FLOOR_HASH, OutputMode::WorldSeed);
    assert!(none.is_empty());
    assert!(cross_comparison_of(&[], &secondary, ROOF_HASH, FLOOR_HASH, OutputMode::WorldSeed).is_empty());
    // with no secondary checks every bedrock seed passes; each structure seed is reported
    let bedrock48 = next_long(WORLD_SEED) & MASK48;
    let structures = cross_comparison_of(&[bedrock48 ^ ROOF_HASH], &[], ROOF_HASH, FLOOR_HASH, OutputMode::StructureSeed);
    assert_eq!(structures, reverse_next_long(bedrock48));
    assert!(structures.contains(&(WORLD_SEED & MASK48)));
}

#[test]
fn world_and_structure_reports_on_given_seeds() {
    assert_eq!(world_seeds_of(&[123, 0]), vec![next_long(123), next_long(0)]);
    assert!(world_seeds_of(&[]).is_empty());
    let structure = WORLD_SEED & MASK48;
    assert_eq!(report_structures(&[structure, 7], OutputMode::StructureSeed), vec![structure, 7]);
    let worlds = report_structures(&[structure], OutputMode::WorldSeed);
    assert_eq!(worlds, world_seeds_of(&reverse_next_long(structure)));
    assert!(worlds.contains(&WORLD_SEED));
}
