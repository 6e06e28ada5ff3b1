//! The search for surface seeds: which surface the GPU filters, the checks
//! for both surfaces, the CPU finalization of GPU candidates, and the batch
//! schedule.

use vstd::prelude::*;
use vstd::string::StringExecFns;
use crate::block_data::{
    Block, BlockFilter, BedrockGeneration, CheckObject, OutputMode, FLOOR_HASH, ROOF_HASH,
    spec_block_filter, filter_power, get_filter_power, block_agrees, unknown_bits_mask,
    lemma_block_check_exact, lemma_partial_check_sound,
};
use crate::error::GpuError;
use crate::gpu::{GpuCheckObject, gpu_check_of};
use crate::lcg::{
    next_long, reverse_next_long, spec_next_long, spec_reverse_next_long, modulus, reverser_sound,
    reverser_complete, lemma_next_long_low_bits, lemma_xor_low_bits, MASK48,
};
use crate::block_data::{lemma_check_low_bits, lemma_mask48_is_mod};

verus! {

/// Batch size for GPU processing (number of seeds per batch).
pub const BATCH_SIZE: u32 = 1048576;

/// Number of upper-bit values of a full search: the upper 36 of 48 bits.
pub const TOTAL_UPPER_BITS: u64 = 68719476736;

/// The number of low seed bits that the GPU leaves to the CPU.
pub const GPU_UNKNOWN_BITS: u32 = 12;

/// Configuration for GPU search.
#[derive(Clone, Copy, Debug, PartialEq, Eq, Structural)]
pub struct GpuSearchConfig {
    /// Device index to use
    pub device_index: usize,
    /// Batch size (number of seeds per GPU dispatch)
    pub batch_size: u32,
}

impl Default for GpuSearchConfig {
    fn default() -> (config: Self)
        ensures
            config.device_index == 0,
            config.batch_size == BATCH_SIZE,
    {
        Self { device_index: 0, batch_size: BATCH_SIZE }
    }
}

// ---------------------------------------------------------------------------
// Surfaces and their checks
// ---------------------------------------------------------------------------

/// The blocks of one surface, in their order: the floor (y < 64) when
/// `floor`, else the roof.
pub open spec fn surface_blocks(blocks: Seq<Block>, floor: bool) -> Seq<Block>
    decreases blocks.len(),
{
    if blocks.len() == 0 {
        Seq::empty()
    } else {
        let rest = surface_blocks(blocks.drop_last(), floor);
        if (blocks.last().y < 64) == floor {
            rest.push(blocks.last())
        } else {
            rest
        }
    }
}

/// The filters of the blocks, in their order.
pub open spec fn filters_of(blocks: Seq<Block>) -> Seq<BlockFilter> {
    blocks.map_values(|b: Block| spec_block_filter(b))
}

/// The floor is the primary surface when its blocks let fewer seeds pass.
pub open spec fn spec_is_floor_primary(blocks: Seq<Block>) -> bool {
    filter_power(filters_of(surface_blocks(blocks, true))) < filter_power(
        filters_of(surface_blocks(blocks, false)),
    )
}

/// The blocks of the primary (`primary`) or the secondary surface.
pub open spec fn role_blocks(blocks: Seq<Block>, is_floor_primary: bool, primary: bool) -> Seq<
    Block,
> {
    surface_blocks(blocks, is_floor_primary == primary)
}

/// The checks that the GPU evaluates: each filter's check with the low
/// `GPU_UNKNOWN_BITS` bits left out.
pub open spec fn gpu_checks_of(filters: Seq<BlockFilter>) -> Seq<GpuCheckObject> {
    filters.map_values(|f: BlockFilter| gpu_check_of(f.spec_check(12)))
}

/// The exact checks of the filters.
pub open spec fn exact_checks_of(filters: Seq<BlockFilter>) -> Seq<CheckObject> {
    filters.map_values(|f: BlockFilter| f.spec_check(0))
}

/// Whether no check rejects `seed`.
pub open spec fn passes_all(checks: Seq<CheckObject>, seed: u64) -> bool {
    forall|i: int| 0 <= i < checks.len() ==> !#[trigger] checks[i].rejects(seed)
}

/// Whether no GPU check rejects `upper_bits`.
pub open spec fn gpu_passes_all(checks: Seq<GpuCheckObject>, upper_bits: u64) -> bool {
    forall|i: int| 0 <= i < checks.len() ==> !#[trigger] checks[i].rejects(upper_bits)
}

proof fn lemma_surface_step(blocks: Seq<Block>, i: int, floor: bool)
    requires
        0 <= i < blocks.len(),
    ensures
        surface_blocks(blocks.take(i + 1), floor) == (if (blocks[i].y < 64) == floor {
            surface_blocks(blocks.take(i), floor).push(blocks[i])
        } else {
            surface_blocks(blocks.take(i), floor)
        }),
{
    assert(blocks.take(i + 1).drop_last() =~= blocks.take(i));
}

/// Splits the blocks into the filters of the floor and of the roof.
fn surface_filters(blocks: &[Block], mode: BedrockGeneration) -> (r: (Vec<BlockFilter>, Vec<BlockFilter>))
    ensures
        r.0@ == filters_of(surface_blocks(blocks@, true)),
        r.1@ == filters_of(surface_blocks(blocks@, false)),
{
    let mut floor: Vec<BlockFilter> = Vec::new();
    let mut roof: Vec<BlockFilter> = Vec::new();
    let n = blocks.len();
    for i in 0..n
        invariant
            n == blocks@.len(),
            floor@ == filters_of(surface_blocks(blocks@.take(i as int), true)),
            roof@ == filters_of(surface_blocks(blocks@.take(i as int), false)),
    {
        let block = &blocks[i];
        let filter = BlockFilter::from(block, mode);
        proof {
            lemma_surface_step(blocks@, i as int, true);
            lemma_surface_step(blocks@, i as int, false);
            let bf = surface_blocks(blocks@.take(i as int), true);
            let br = surface_blocks(blocks@.take(i as int), false);
            assert(filters_of(bf.push(*block)) =~= filters_of(bf).push(filter));
            assert(filters_of(br.push(*block)) =~= filters_of(br).push(filter));
        }
        if block.y < 64 {
            floor.push(filter);
        } else {
            roof.push(filter);
        }
    }
    assert(blocks@.take(n as int) =~= blocks@);
    (floor, roof)
}

/// Prepare GPU check objects from block data: the checks of the primary
/// surface with the low 12 seed bits left out, the filters of the secondary
/// surface, and whether the floor is primary.
pub fn prepare_gpu_checks(blocks: &[Block], mode: BedrockGeneration) -> (r: (
    Vec<GpuCheckObject>,
    Vec<BlockFilter>,
    bool,
))
    ensures
        r.2 == spec_is_floor_primary(blocks@),
        r.0@ == gpu_checks_of(filters_of(role_blocks(blocks@, r.2, true))),
        r.1@ == filters_of(role_blocks(blocks@, r.2, false)),
{
    let (floor_blocks, roof_blocks) = surface_filters(blocks, mode);
    let floor_power = get_filter_power(floor_blocks.as_slice());
    let roof_power = get_filter_power(roof_blocks.as_slice());
    let is_floor_primary = floor_power < roof_power;
    let (primary_filter, secondary_filter) = if is_floor_primary {
        (floor_blocks, roof_blocks)
    } else {
        (roof_blocks, floor_blocks)
    };
    let mut gpu_checks: Vec<GpuCheckObject> = Vec::new();
    let n = primary_filter.len();
    for i in 0..n
        invariant
            n == primary_filter@.len(),
            gpu_checks@ == gpu_checks_of(primary_filter@.take(i as int)),
    {
        let check = primary_filter[i].create_check(GPU_UNKNOWN_BITS);
        gpu_checks.push(GpuCheckObject::from_check_object(&check));
        assert(gpu_checks_of(primary_filter@.take(i + 1)) =~= gpu_checks_of(
            primary_filter@.take(i as int),
        ).push(gpu_check_of(check)));
    }
    assert(primary_filter@.take(n as int) =~= primary_filter@);
    (gpu_checks, secondary_filter, is_floor_primary)
}

/// The exact checks of a sequence of filters.
fn exact_checks(filters: &[BlockFilter]) -> (checks: Vec<CheckObject>)
    ensures
        checks@ == exact_checks_of(filters@),
{
    let mut checks: Vec<CheckObject> = Vec::new();
    let n = filters.len();
    for i in 0..n
        invariant
            n == filters@.len(),
            checks@ == exact_checks_of(filters@.take(i as int)),
    {
        let check = filters[i].create_check(0);
        checks.push(check);
        assert(exact_checks_of(filters@.take(i + 1)) =~= exact_checks_of(filters@.take(i as int)).push(
            check,
        ));
    }
    assert(filters@.take(n as int) =~= filters@);
    checks
}

/// Create final check objects for exact 48-bit verification: those of the
/// primary surface, then those of the secondary surface.
pub fn create_final_checks(blocks: &[Block], mode: BedrockGeneration, is_floor_primary: bool) -> (r: (
    Vec<CheckObject>,
    Vec<CheckObject>,
))
    ensures
        r.0@ == exact_checks_of(filters_of(role_blocks(blocks@, is_floor_primary, true))),
        r.1@ == exact_checks_of(filters_of(role_blocks(blocks@, is_floor_primary, false))),
{
    let (floor_filters, roof_filters) = surface_filters(blocks, mode);
    let floor_checks = exact_checks(floor_filters.as_slice());
    let roof_checks = exact_checks(roof_filters.as_slice());
    if is_floor_primary {
        (floor_checks, roof_checks)
    } else {
        (roof_checks, floor_checks)
    }
}

/// Whether no check rejects `seed`.
pub fn passes_checks(checks: &[CheckObject], seed: u64) -> (r: bool)
    ensures
        r == passes_all(checks@, seed),
{
    let n = checks.len();
    for i in 0..n
        invariant
            n == checks@.len(),
            forall|j: int| 0 <= j < i ==> !#[trigger] checks@[j].rejects(seed),
    {
        if checks[i].check(seed) {
            return false;
        }
    }
    true
}

/// Every block belongs to exactly one surface: the floor's and the roof's
/// blocks together are all the blocks, each kept in order.
pub proof fn lemma_surfaces_partition(blocks: Seq<Block>)
    ensures
        surface_blocks(blocks, true).len() + surface_blocks(blocks, false).len() == blocks.len(),
        forall|i: int|
            0 <= i < surface_blocks(blocks, true).len() ==> #[trigger] surface_blocks(blocks, true)[i].y
                < 64,
        forall|i: int|
            0 <= i < surface_blocks(blocks, false).len() ==> #[trigger] surface_blocks(blocks, false)[i].y
                >= 64,
    decreases blocks.len(),
{
    if blocks.len() > 0 {
        lemma_surfaces_partition(blocks.drop_last());
    }
}

/// A seed passes the exact checks of a set of blocks exactly when the
/// generator, seeded with it, places every one of those blocks as observed.
pub proof fn lemma_exact_checks_match_blocks(blocks: Seq<Block>, seed: u64)
    ensures
        passes_all(exact_checks_of(filters_of(blocks)), seed) == (forall|i: int|
            0 <= i < blocks.len() ==> #[trigger] block_agrees(seed, blocks[i])),
{
    let checks = exact_checks_of(filters_of(blocks));
    assert forall|i: int| 0 <= i < blocks.len() implies (!#[trigger] checks[i].rejects(seed))
        == block_agrees(seed, blocks[i]) by {
        lemma_block_check_exact(blocks[i], seed);
    }
    if passes_all(checks, seed) {
        assert forall|i: int| 0 <= i < blocks.len() implies #[trigger] block_agrees(seed, blocks[i]) by {
            assert(!checks[i].rejects(seed));
        }
    }
    if forall|i: int| 0 <= i < blocks.len() ==> #[trigger] block_agrees(seed, blocks[i]) {
        assert forall|i: int| 0 <= i < checks.len() implies !#[trigger] checks[i].rejects(seed) by {
            assert(block_agrees(seed, blocks[i]));
        }
    }
}

/// The GPU prefilter loses no match: when a seed whose upper bits are
/// `upper` (low 12 bits zero) passes the exact checks of some filters, the
/// GPU checks of those filters pass `upper`.
pub proof fn lemma_gpu_prefilter_keeps_matches(filters: Seq<BlockFilter>, upper: u64, lower: u64)
    requires
        upper & 0xFFF == 0,
        lower < 4096,
        passes_all(exact_checks_of(filters), upper | lower),
    ensures
        gpu_passes_all(gpu_checks_of(filters), upper),
{
    let gpu = gpu_checks_of(filters);
    let exact = exact_checks_of(filters);
    assert(unknown_bits_mask(12) == 0xFFF) by {
        assert(((1u64 << 12u32) - 1) as u64 == 0xFFFu64) by (bit_vector);
    }
    assert forall|i: int| 0 <= i < gpu.len() implies !#[trigger] gpu[i].rejects(upper) by {
        if gpu[i].rejects(upper) {
            assert(filters[i].spec_check(12).rejects(upper));
            lemma_partial_check_sound(filters[i], 12, upper, lower);
            assert(exact[i].rejects(upper | lower));
        }
    }
}

// ---------------------------------------------------------------------------
// Finalization of GPU candidates
// ---------------------------------------------------------------------------

/// The world seeds that `nextLong()` yields from the given seeds.
pub open spec fn world_seeds(prevs: Seq<u64>) -> Seq<u64> {
    prevs.map_values(|p: u64| spec_next_long(p))
}

/// What is reported for one structure seed: the world seeds that can
/// produce it, or the structure seed itself.
pub open spec fn seeds_for_structure(structure: u64, output: OutputMode) -> Seq<u64> {
    match output {
        OutputMode::WorldSeed => world_seeds(spec_reverse_next_long(structure)),
        OutputMode::StructureSeed => seq![structure],
    }
}

/// What is reported for each of the structure seeds, in order.
pub open spec fn structure_outputs(structures: Seq<u64>, output: OutputMode) -> Seq<u64>
    decreases structures.len(),
{
    if structures.len() == 0 {
        Seq::empty()
    } else {
        structure_outputs(structures.drop_last(), output) + seeds_for_structure(
            structures.last(),
            output,
        )
    }
}

/// What is reported for one seed of the primary surface's random: its
/// bedrock seed (the seed XOR the primary hash) must give a secondary
/// surface seed that passes the secondary checks; then the structure seeds
/// of the bedrock seed are reported.
pub open spec fn seeds_for_internal(
    internal: u64,
    secondary: Seq<CheckObject>,
    primary_hash: u64,
    secondary_hash: u64,
    output: OutputMode,
) -> Seq<u64> {
    let bedrock_seed = internal ^ primary_hash;
    if passes_all(secondary, spec_next_long(bedrock_seed ^ secondary_hash)) {
        structure_outputs(spec_reverse_next_long(bedrock_seed), output)
    } else {
        Seq::empty()
    }
}

/// What is reported for each of the primary randoms' seeds, in order.
pub open spec fn internal_outputs(
    internals: Seq<u64>,
    secondary: Seq<CheckObject>,
    primary_hash: u64,
    secondary_hash: u64,
    output: OutputMode,
) -> Seq<u64>
    decreases internals.len(),
{
    if internals.len() == 0 {
        Seq::empty()
    } else {
        internal_outputs(internals.drop_last(), secondary, primary_hash, secondary_hash, output)
            + seeds_for_internal(internals.last(), secondary, primary_hash, secondary_hash, output)
    }
}

/// What CrossComparison reports for a primary surface seed.
pub open spec fn cross_outputs(
    seed: u64,
    secondary: Seq<CheckObject>,
    primary_hash: u64,
    secondary_hash: u64,
    output: OutputMode,
) -> Seq<u64> {
    internal_outputs(spec_reverse_next_long(seed), secondary, primary_hash, secondary_hash, output)
}

/// What is reported for the first `n` completions `upper | lower` of a GPU
/// candidate: each that passes the primary checks goes to CrossComparison.
pub open spec fn candidate_outputs(
    upper: u64,
    n: nat,
    primary: Seq<CheckObject>,
    secondary: Seq<CheckObject>,
    primary_hash: u64,
    secondary_hash: u64,
    output: OutputMode,
) -> Seq<u64>
    decreases n,
{
    if n == 0 {
        Seq::empty()
    } else {
        let full_seed = upper | ((n - 1) as u64);
        candidate_outputs(upper, (n - 1) as nat, primary, secondary, primary_hash, secondary_hash, output)
            + if passes_all(primary, full_seed) {
            cross_outputs(full_seed, secondary, primary_hash, secondary_hash, output)
        } else {
            Seq::empty()
        }
    }
}

/// Every value is below 2^48.
pub open spec fn all_48_bits(seeds: Seq<u64>) -> bool {
    forall|i: int| 0 <= i < seeds.len() ==> #[trigger] seeds[i] <= 0xFFFF_FFFF_FFFF
}

/// The world seeds that `nextLong()` yields from the given seeds, in order.
pub fn world_seeds_of(prevs: &[u64]) -> (seeds: Vec<u64>)
    ensures
        seeds@ == world_seeds(prevs@),
{
    let mut out: Vec<u64> = Vec::new();
    let n = prevs.len();
    for k in 0..n
        invariant
            n == prevs@.len(),
            out@ == world_seeds(prevs@.take(k as int)),
    {
        let world_seed = next_long(prevs[k]);
        out.push(world_seed);
        assert(world_seeds(prevs@.take(k + 1)) =~= world_seeds(prevs@.take(k as int)).push(world_seed));
    }
    assert(prevs@.take(n as int) =~= prevs@);
    out
}

/// What is reported for the given structure seeds, in order: each structure
/// seed itself, or the world seeds that can produce it.
pub fn report_structures(structures: &[u64], output: OutputMode) -> (seeds: Vec<u64>)
    ensures
        seeds@ == structure_outputs(structures@, output),
        output == OutputMode::StructureSeed && all_48_bits(structures@) ==> all_48_bits(seeds@),
{
    let mut out: Vec<u64> = Vec::new();
    let m = structures.len();
    for j in 0..m
        invariant
            m == structures@.len(),
            out@ == structure_outputs(structures@.take(j as int), output),
            output == OutputMode::StructureSeed && all_48_bits(structures@) ==> all_48_bits(out@),
    {
        let structure = structures[j];
        let ghost before = out@;
        match output {
            OutputMode::WorldSeed => {
                let prevs = reverse_next_long(structure);
                let mut found = world_seeds_of(prevs.as_slice());
                out.append(&mut found);
            },
            OutputMode::StructureSeed => {
                out.push(structure);
                assert(out@ =~= before + seq![structure]);
            },
        }
        assert(structures@.take(j + 1).drop_last() =~= structures@.take(j as int));
        assert(out@ =~= structure_outputs(structures@.take(j + 1), output));
    }
    assert(structures@.take(m as int) =~= structures@);
    out
}

/// CrossComparison on the seeds from which the primary surface's random can
/// come: for each, derive the shared bedrock seed (the seed XOR the primary
/// hash), test the secondary surface, and report the structure seeds (or
/// world seeds) of the bedrock seeds that pass, in order.
pub fn cross_comparison_of(
    internals: &[u64],
    secondary_checks: &[CheckObject],
    primary_hash: u64,
    secondary_hash: u64,
    output: OutputMode,
) -> (seeds: Vec<u64>)
    ensures
        seeds@ == internal_outputs(internals@, secondary_checks@, primary_hash, secondary_hash, output),
        output == OutputMode::StructureSeed ==> all_48_bits(seeds@),
{
    let mut out: Vec<u64> = Vec::new();
    let n = internals.len();
    for i in 0..n
        invariant
            n == internals@.len(),
            out@ == internal_outputs(
                internals@.take(i as int),
                secondary_checks@,
                primary_hash,
                secondary_hash,
                output,
            ),
            output == OutputMode::StructureSeed ==> all_48_bits(out@),
    {
        let bedrock_seed = internals[i] ^ primary_hash;
        let secondary_seed = next_long(bedrock_seed ^ secondary_hash);
        let ghost before = out@;
        if passes_checks(secondary_checks, secondary_seed) {
            let structures = reverse_next_long(bedrock_seed);
            let mut found = report_structures(structures.as_slice(), output);
            out.append(&mut found);
        }
        assert(internals@.take(i + 1).drop_last() =~= internals@.take(i as int));
        assert(out@ =~= internal_outputs(
            internals@.take(i + 1),
            secondary_checks@,
            primary_hash,
            secondary_hash,
            output,
        ));
    }
    assert(internals@.take(n as int) =~= internals@);
    out
}

/// CrossComparison for a primary surface seed: over every seed from which
/// its random can come.
pub fn cross_comparison(
    seed: u64,
    secondary_checks: &[CheckObject],
    primary_hash: u64,
    secondary_hash: u64,
    output: OutputMode,
) -> (seeds: Vec<u64>)
    ensures
        seeds@ == cross_outputs(seed, secondary_checks@, primary_hash, secondary_hash, output),
        seeds@ == internal_outputs(
            spec_reverse_next_long(seed),
            secondary_checks@,
            primary_hash,
            secondary_hash,
            output,
        ),
        output == OutputMode::StructureSeed ==> all_48_bits(seeds@),
{
    let internals = reverse_next_long(seed);
    cross_comparison_of(internals.as_slice(), secondary_checks, primary_hash, secondary_hash, output)
}

/// CPU finalization for a candidate found by the GPU: each of the 4096
/// completions `upper_bits | lower` that passes every primary check goes to
/// CrossComparison; the reported seeds are returned in order.
pub fn finalize_candidate(
    upper_bits: u64,
    primary_checks: &[CheckObject],
    secondary_checks: &[CheckObject],
    primary_hash: u64,
    secondary_hash: u64,
    output: OutputMode,
) -> (seeds: Vec<u64>)
    ensures
        seeds@ == candidate_outputs(
            upper_bits,
            4096,
            primary_checks@,
            secondary_checks@,
            primary_hash,
            secondary_hash,
            output,
        ),
        seeds@ == Seq::new(
            4096,
            |lower: int|
                completion_reports(
                    upper_bits,
                    lower,
                    primary_checks@,
                    secondary_checks@,
                    primary_hash,
                    secondary_hash,
                    output,
                ),
        ).flatten(),
        output == OutputMode::StructureSeed ==> all_48_bits(seeds@),
{
    proof {
        lemma_finalize_exact(
            upper_bits,
            4096,
            primary_checks@,
            secondary_checks@,
            primary_hash,
            secondary_hash,
            output,
        );
    }
    let mut out: Vec<u64> = Vec::new();
    for lower in 0u64..4096
        invariant
            out@ == candidate_outputs(
                upper_bits,
                lower as nat,
                primary_checks@,
                secondary_checks@,
                primary_hash,
                secondary_hash,
                output,
            ),
            output == OutputMode::StructureSeed ==> all_48_bits(out@),
    {
        let full_seed = upper_bits | lower;
        if passes_checks(primary_checks, full_seed) {
            let mut found = cross_comparison(
                full_seed,
                secondary_checks,
                primary_hash,
                secondary_hash,
                output,
            );
            out.append(&mut found);
        }
        assert(out@ =~= candidate_outputs(
            upper_bits,
            (lower + 1) as nat,
            primary_checks@,
            secondary_checks@,
            primary_hash,
            secondary_hash,
            output,
        ));
    }
    out
}

// ---------------------------------------------------------------------------
// Searches
// ---------------------------------------------------------------------------

/// What is reported for each GPU candidate, in order.
pub open spec fn batch_outputs(
    candidates: Seq<u64>,
    primary: Seq<CheckObject>,
    secondary: Seq<CheckObject>,
    primary_hash: u64,
    secondary_hash: u64,
    output: OutputMode,
) -> Seq<u64>
    decreases candidates.len(),
{
    if candidates.len() == 0 {
        Seq::empty()
    } else {
        batch_outputs(candidates.drop_last(), primary, secondary, primary_hash, secondary_hash, output)
            + candidate_outputs(
            candidates.last(),
            4096,
            primary,
            secondary,
            primary_hash,
            secondary_hash,
            output,
        )
    }
}

/// A search prepared from observed blocks: the checks uploaded to the GPU,
/// the exact checks of both surfaces for the CPU, the surfaces' hashes, and
/// the upper-bit range (`None` for a full search).
pub struct GpuSearch {
    pub config: GpuSearchConfig,
    pub output: OutputMode,
    pub gpu_checks: Vec<GpuCheckObject>,
    pub primary_checks: Vec<CheckObject>,
    pub secondary_checks: Vec<CheckObject>,
    pub is_floor_primary: bool,
    pub primary_hash: u64,
    pub secondary_hash: u64,
    pub range: Option<(u64, u64)>,
}

/// The checks and hashes of a search prepared from `blocks`: the primary
/// surface is the one whose blocks filter more; the GPU gets its checks with
/// the low 12 bits left out, the CPU the exact checks of both surfaces.
pub open spec fn prepared_from(search: GpuSearch, blocks: Seq<Block>) -> bool {
    let floor_primary = spec_is_floor_primary(blocks);
    &&& search.is_floor_primary == floor_primary
    &&& search.gpu_checks@ == gpu_checks_of(filters_of(role_blocks(blocks, floor_primary, true)))
    &&& search.primary_checks@ == exact_checks_of(
        filters_of(role_blocks(blocks, floor_primary, true)),
    )
    &&& search.secondary_checks@ == exact_checks_of(
        filters_of(role_blocks(blocks, floor_primary, false)),
    )
    &&& search.primary_hash == (if floor_primary { FLOOR_HASH } else { ROOF_HASH })
    &&& search.secondary_hash == (if floor_primary { ROOF_HASH } else { FLOOR_HASH })
}

/// A search can only run when the primary surface has a block.
pub open spec fn has_primary_blocks(blocks: Seq<Block>) -> bool {
    role_blocks(blocks, spec_is_floor_primary(blocks), true).len() > 0
}

/// The message of the error for blocks that give the GPU nothing to check.
pub open spec fn no_blocks_message() -> Seq<char> {
    "No valid blocks for GPU filtering"@
}

fn prepare_search(
    blocks: &[Block],
    config: GpuSearchConfig,
    mode: BedrockGeneration,
    output: OutputMode,
    range: Option<(u64, u64)>,
) -> (r: Result<GpuSearch, GpuError>)
    ensures
        !has_primary_blocks(blocks@) ==> (r matches Err(GpuError::InvalidInput(msg)) && msg@
            == no_blocks_message()),
        has_primary_blocks(blocks@) ==> (r matches Ok(search) && prepared_from(search, blocks@)
            && search.config == config && search.output == output && search.range == range),
{
    let (gpu_checks, _secondary_filters, is_floor_primary) = prepare_gpu_checks(blocks, mode);
    if gpu_checks.len() == 0 {
        return Err(GpuError::InvalidInput(String::from_str("No valid blocks for GPU filtering")));
    }
    let (primary_checks, secondary_checks) = create_final_checks(blocks, mode, is_floor_primary);
    let (primary_hash, secondary_hash) = if is_floor_primary {
        (FLOOR_HASH, ROOF_HASH)
    } else {
        (ROOF_HASH, FLOOR_HASH)
    };
    Ok(
        GpuSearch {
            config,
            output,
            gpu_checks,
            primary_checks,
            secondary_checks,
            is_floor_primary,
            primary_hash,
            secondary_hash,
            range,
        },
    )
}

/// Prepares a search over all surface seeds: the GPU filters the upper 36
/// bits with the primary surface's checks, the CPU finalizes its candidates.
/// Fails with `InvalidInput` when the primary surface has no block.
pub fn search_bedrock_pattern_gpu(
    blocks: &[Block],
    config: GpuSearchConfig,
    mode: BedrockGeneration,
    output: OutputMode,
) -> (r: Result<GpuSearch, GpuError>)
    ensures
        !has_primary_blocks(blocks@) ==> (r matches Err(GpuError::InvalidInput(msg)) && msg@
            == no_blocks_message()),
        has_primary_blocks(blocks@) ==> (r matches Ok(search) && prepared_from(search, blocks@)
            && search.config == config && search.output == output && search.range is None),
{
    prepare_search(blocks, config, mode, output, None)
}

/// Prepares a search over the upper-bit values from `start_upper_bits` to
/// `end_upper_bits` (for multi-GPU or distributed processing).
pub fn search_bedrock_pattern_gpu_range(
    blocks: &[Block],
    config: GpuSearchConfig,
    mode: BedrockGeneration,
    output: OutputMode,
    start_upper_bits: u64,
    end_upper_bits: u64,
) -> (r: Result<GpuSearch, GpuError>)
    ensures
        !has_primary_blocks(blocks@) ==> (r matches Err(GpuError::InvalidInput(msg)) && msg@
            == no_blocks_message()),
        has_primary_blocks(blocks@) ==> (r matches Ok(search) && prepared_from(search, blocks@)
            && search.config == config && search.output == output && search.range == Some(
            (start_upper_bits, end_upper_bits),
        )),
{
    prepare_search(blocks, config, mode, output, Some((start_upper_bits, end_upper_bits)))
}

impl GpuSearch {
    /// Whether the batch plan can be made: the batch size divides, and the
    /// end of a range plus a batch fits in 64 bits.
    pub open spec fn can_plan(self) -> bool {
        &&& self.config.batch_size > 0
        &&& match self.range {
            Some((_, end)) => end + self.config.batch_size <= u64::MAX,
            None => true,
        }
    }

    /// The number of checks passed to the kernel.
    pub fn num_checks(&self) -> (n: u32)
        ensures
            n == self.gpu_checks@.len() as u32,
    {
        self.gpu_checks.len() as u32
    }

    /// The batches of the search.
    pub fn batch_plan(&self) -> (plan: BatchPlan)
        requires
            self.can_plan(),
        ensures
            plan == (match self.range {
                Some((start, end)) => BatchPlan::spec_range_search(
                    start,
                    end,
                    self.config.batch_size,
                ),
                None => BatchPlan::spec_full_search(self.config.batch_size),
            }),
            plan.wf(),
    {
        match self.range {
            Some((start, end)) => BatchPlan::range_search(start, end, self.config.batch_size),
            None => BatchPlan::full_search(self.config.batch_size),
        }
    }

    /// The seeds reported for the candidates that the GPU returned for a
    /// batch, in order: each candidate is finalized on the CPU.
    pub fn finalize_batch(&self, candidates: &[u64]) -> (seeds: Vec<u64>)
        ensures
            seeds@ == batch_outputs(
                candidates@,
                self.primary_checks@,
                self.secondary_checks@,
                self.primary_hash,
                self.secondary_hash,
                self.output,
            ),
            self.output == OutputMode::StructureSeed ==> all_48_bits(seeds@),
    {
        let mut out: Vec<u64> = Vec::new();
        let n = candidates.len();
        for i in 0..n
            invariant
                n == candidates@.len(),
                out@ == batch_outputs(
                    candidates@.take(i as int),
                    self.primary_checks@,
                    self.secondary_checks@,
                    self.primary_hash,
                    self.secondary_hash,
                    self.output,
                ),
                self.output == OutputMode::StructureSeed ==> all_48_bits(out@),
        {
            let mut found = finalize_candidate(
                candidates[i],
                self.primary_checks.as_slice(),
                self.secondary_checks.as_slice(),
                self.primary_hash,
                self.secondary_hash,
                self.output,
            );
            out.append(&mut found);
            assert(candidates@.take(i + 1).drop_last() =~= candidates@.take(i as int));
        }
        assert(candidates@.take(n as int) =~= candidates@);
        out
    }
}

/// A prepared search keeps every surface seed that agrees with all blocks
/// of the primary surface: its upper bits (low 12 bits cleared) pass every
/// GPU check, and the seed itself passes every exact primary check, so the
/// CPU hands it to CrossComparison when the GPU returns its upper bits.
pub proof fn lemma_search_keeps_matching_seeds(search: GpuSearch, blocks: Seq<Block>, seed: u64)
    requires
        prepared_from(search, blocks),
        forall|i: int|
            0 <= i < role_blocks(blocks, search.is_floor_primary, true).len() ==> #[trigger] block_agrees(
                seed,
                role_blocks(blocks, search.is_floor_primary, true)[i],
            ),
    ensures
        gpu_passes_all(search.gpu_checks@, seed & !0xFFFu64),
        passes_all(search.primary_checks@, seed),
{
    let primary = role_blocks(blocks, search.is_floor_primary, true);
    lemma_exact_checks_match_blocks(primary, seed);
    let upper: u64 = seed & !0xFFFu64;
    let lower: u64 = seed & 0xFFFu64;
    assert(upper & 0xFFF == 0 && lower < 4096 && upper | lower == seed) by (bit_vector)
        requires
            upper == seed & !0xFFFu64,
            lower == seed & 0xFFFu64,
    ;
    lemma_gpu_prefilter_keeps_matches(filters_of(primary), upper, lower);
}

// ---------------------------------------------------------------------------
// Soundness of the reported seeds
// ---------------------------------------------------------------------------

/// The seed of a surface's positional random for a world (or structure)
/// seed: `nextLong()` of the bedrock seed mixed with the surface's hash,
/// where the bedrock seed is `nextLong()` of the world seed.
pub open spec fn surface_of(world: u64, hash: u64) -> u64 {
    spec_next_long(spec_next_long(world) ^ hash)
}

/// Whether the world (or structure) seed generates every observed block:
/// the floor's with the floor's random, the roof's with the roof's.
pub open spec fn matches_pattern(world: u64, blocks: Seq<Block>) -> bool {
    &&& forall|i: int|
        0 <= i < surface_blocks(blocks, true).len() ==> #[trigger] block_agrees(
            surface_of(world, FLOOR_HASH),
            surface_blocks(blocks, true)[i],
        )
    &&& forall|i: int|
        0 <= i < surface_blocks(blocks, false).len() ==> #[trigger] block_agrees(
            surface_of(world, ROOF_HASH),
            surface_blocks(blocks, false)[i],
        )
}

/// Whether a seed passes the checks of both surfaces through its surface
/// seeds.
pub open spec fn passes_both(
    x: u64,
    primary: Seq<CheckObject>,
    secondary: Seq<CheckObject>,
    primary_hash: u64,
    secondary_hash: u64,
) -> bool {
    passes_all(primary, surface_of(x, primary_hash)) && passes_all(
        secondary,
        surface_of(x, secondary_hash),
    )
}

proof fn lemma_passes_all_low_bits(checks: Seq<CheckObject>, a: u64, b: u64)
    requires
        a as int % modulus() == b as int % modulus(),
        passes_all(checks, a),
    ensures
        passes_all(checks, b),
{
    assert forall|i: int| 0 <= i < checks.len() implies !#[trigger] checks[i].rejects(b) by {
        lemma_check_low_bits(checks[i], a, b);
    }
}

/// Every seed reported for structure seeds that lead to `bedrock` leads to
/// `bedrock` too.
proof fn lemma_structure_outputs_lead_to(structures: Seq<u64>, output: OutputMode, bedrock: u64)
    requires
        reverser_sound(),
        forall|k: int|
            0 <= k < structures.len() ==> #[trigger] spec_next_long(structures[k]) as int % modulus()
                == bedrock as int % modulus(),
    ensures
        forall|j: int|
            0 <= j < structure_outputs(structures, output).len() ==> #[trigger] spec_next_long(
                structure_outputs(structures, output)[j],
            ) as int % modulus() == bedrock as int % modulus(),
    decreases structures.len(),
{
    if structures.len() > 0 {
        let init = structures.drop_last();
        let last = structures.last();
        assert forall|k: int| 0 <= k < init.len() implies #[trigger] spec_next_long(init[k]) as int
            % modulus() == bedrock as int % modulus() by {
            assert(init[k] == structures[k]);
        }
        lemma_structure_outputs_lead_to(init, output, bedrock);
        assert(spec_next_long(structures[structures.len() - 1]) as int % modulus() == bedrock as int
            % modulus());
        let a = structure_outputs(init, output);
        let t = seeds_for_structure(last, output);
        let all = structure_outputs(structures, output);
        assert(all == a + t);
        assert forall|j: int| 0 <= j < all.len() implies #[trigger] spec_next_long(all[j]) as int
            % modulus() == bedrock as int % modulus() by {
            if j < a.len() {
                assert(all[j] == a[j]);
            } else {
                let jj = j - a.len();
                assert(all[j] == t[jj]);
                match output {
                    OutputMode::StructureSeed => {},
                    OutputMode::WorldSeed => {
                        let p = spec_reverse_next_long(last)[jj];
                        assert(t[jj] == spec_next_long(p));
                        assert(spec_next_long(spec_reverse_next_long(last)[jj]) as int % modulus()
                            == last as int % modulus());
                        lemma_next_long_low_bits(t[jj], last);
                    },
                }
            }
        }
    }
}

/// Every seed that CrossComparison reports for seeds leading to a primary
/// surface seed `f` that passes the primary checks passes both surfaces.
proof fn lemma_internal_outputs_sound(
    internals: Seq<u64>,
    f: u64,
    primary: Seq<CheckObject>,
    secondary: Seq<CheckObject>,
    primary_hash: u64,
    secondary_hash: u64,
    output: OutputMode,
)
    requires
        reverser_sound(),
        passes_all(primary, f),
        forall|k: int|
            0 <= k < internals.len() ==> #[trigger] spec_next_long(internals[k]) as int % modulus()
                == f as int % modulus(),
    ensures
        forall|j: int|
            0 <= j < internal_outputs(internals, secondary, primary_hash, secondary_hash, output).len()
                ==> passes_both(
                #[trigger] internal_outputs(internals, secondary, primary_hash, secondary_hash, output)[j],
                primary,
                secondary,
                primary_hash,
                secondary_hash,
            ),
    decreases internals.len(),
{
    if internals.len() > 0 {
        let init = internals.drop_last();
        let internal = internals.last();
        assert forall|k: int| 0 <= k < init.len() implies #[trigger] spec_next_long(init[k]) as int
            % modulus() == f as int % modulus() by {
            assert(init[k] == internals[k]);
        }
        lemma_internal_outputs_sound(init, f, primary, secondary, primary_hash, secondary_hash, output);
        assert(spec_next_long(internals[internals.len() - 1]) as int % modulus() == f as int % modulus());
        let a = internal_outputs(init, secondary, primary_hash, secondary_hash, output);
        let t = seeds_for_internal(internal, secondary, primary_hash, secondary_hash, output);
        let all = internal_outputs(internals, secondary, primary_hash, secondary_hash, output);
        assert(all == a + t);
        let bedrock_seed = internal ^ primary_hash;
        if passes_all(secondary, spec_next_long(bedrock_seed ^ secondary_hash)) {
            let structures = spec_reverse_next_long(bedrock_seed);
            assert forall|k: int| 0 <= k < structures.len() implies #[trigger] spec_next_long(
                structures[k],
            ) as int % modulus() == bedrock_seed as int % modulus() by {
                assert(spec_next_long(spec_reverse_next_long(bedrock_seed)[k]) as int % modulus()
                    == bedrock_seed as int % modulus());
            }
            lemma_structure_outputs_lead_to(structures, output, bedrock_seed);
        }
        assert(bedrock_seed ^ primary_hash == internal) by (bit_vector)
            requires
                bedrock_seed == internal ^ primary_hash,
        ;
        assert forall|j: int| 0 <= j < all.len() implies passes_both(
            #[trigger] all[j],
            primary,
            secondary,
            primary_hash,
            secondary_hash,
        ) by {
            if j < a.len() {
                assert(all[j] == a[j]);
            } else {
                let x = all[j];
                assert(x == t[j - a.len()]);
                assert(spec_next_long(x) as int % modulus() == bedrock_seed as int % modulus());
                lemma_xor_low_bits(spec_next_long(x), bedrock_seed, secondary_hash);
                lemma_next_long_low_bits(spec_next_long(x) ^ secondary_hash, bedrock_seed ^ secondary_hash);
                lemma_xor_low_bits(spec_next_long(x), bedrock_seed, primary_hash);
                lemma_next_long_low_bits(spec_next_long(x) ^ primary_hash, bedrock_seed ^ primary_hash);
                lemma_passes_all_low_bits(primary, f, spec_next_long(internal));
            }
        }
    }
}

proof fn lemma_candidate_outputs_sound(
    upper: u64,
    n: nat,
    primary: Seq<CheckObject>,
    secondary: Seq<CheckObject>,
    primary_hash: u64,
    secondary_hash: u64,
    output: OutputMode,
)
    requires
        reverser_sound(),
    ensures
        forall|j: int|
            0 <= j < candidate_outputs(upper, n, primary, secondary, primary_hash, secondary_hash, output).len()
                ==> passes_both(
                #[trigger] candidate_outputs(upper, n, primary, secondary, primary_hash, secondary_hash, output)[j],
                primary,
                secondary,
                primary_hash,
                secondary_hash,
            ),
    decreases n,
{
    if n > 0 {
        lemma_candidate_outputs_sound(upper, (n - 1) as nat, primary, secondary, primary_hash, secondary_hash, output);
        let full_seed = upper | ((n - 1) as u64);
        let a = candidate_outputs(upper, (n - 1) as nat, primary, secondary, primary_hash, secondary_hash, output);
        let all = candidate_outputs(upper, n, primary, secondary, primary_hash, secondary_hash, output);
        if passes_all(primary, full_seed) {
            let internals = spec_reverse_next_long(full_seed);
            assert forall|k: int| 0 <= k < internals.len() implies #[trigger] spec_next_long(
                internals[k],
            ) as int % modulus() == full_seed as int % modulus() by {
                assert(spec_next_long(spec_reverse_next_long(full_seed)[k]) as int % modulus()
                    == full_seed as int % modulus());
            }
            lemma_internal_outputs_sound(internals, full_seed, primary, secondary, primary_hash, secondary_hash, output);
            let t = cross_outputs(full_seed, secondary, primary_hash, secondary_hash, output);
            assert(all == a + t);
            assert forall|j: int| 0 <= j < all.len() implies passes_both(
                #[trigger] all[j],
                primary,
                secondary,
                primary_hash,
                secondary_hash,
            ) by {
                if j < a.len() {
                    assert(all[j] == a[j]);
                } else {
                    assert(all[j] == t[j - a.len()]);
                }
            }
        } else {
            assert(all =~= a);
        }
    }
}

proof fn lemma_batch_outputs_sound(
    candidates: Seq<u64>,
    primary: Seq<CheckObject>,
    secondary: Seq<CheckObject>,
    primary_hash: u64,
    secondary_hash: u64,
    output: OutputMode,
)
    requires
        reverser_sound(),
    ensures
        forall|j: int|
            0 <= j < batch_outputs(candidates, primary, secondary, primary_hash, secondary_hash, output).len()
                ==> passes_both(
                #[trigger] batch_outputs(candidates, primary, secondary, primary_hash, secondary_hash, output)[j],
                primary,
                secondary,
                primary_hash,
                secondary_hash,
            ),
    decreases candidates.len(),
{
    if candidates.len() > 0 {
        lemma_batch_outputs_sound(candidates.drop_last(), primary, secondary, primary_hash, secondary_hash, output);
        lemma_candidate_outputs_sound(candidates.last(), 4096, primary, secondary, primary_hash, secondary_hash, output);
        let a = batch_outputs(candidates.drop_last(), primary, secondary, primary_hash, secondary_hash, output);
        let t = candidate_outputs(candidates.last(), 4096, primary, secondary, primary_hash, secondary_hash, output);
        let all = batch_outputs(candidates, primary, secondary, primary_hash, secondary_hash, output);
        assert(all == a + t);
        assert forall|j: int| 0 <= j < all.len() implies passes_both(
            #[trigger] all[j],
            primary,
            secondary,
            primary_hash,
            secondary_hash,
        ) by {
            if j < a.len() {
                assert(all[j] == a[j]);
            } else {
                assert(all[j] == t[j - a.len()]);
            }
        }
    }
}

/// Soundness of a search: provided the reverser gives true preimages, every
/// seed that a prepared search reports for a batch (world seeds, or
/// structure seeds) generates every observed block, on both surfaces.
pub proof fn lemma_reported_seeds_match(search: GpuSearch, blocks: Seq<Block>, candidates: Seq<u64>)
    requires
        prepared_from(search, blocks),
    ensures
        reverser_sound() ==> forall|j: int|
            0 <= j < batch_outputs(
                candidates,
                search.primary_checks@,
                search.secondary_checks@,
                search.primary_hash,
                search.secondary_hash,
                search.output,
            ).len() ==> matches_pattern(
                #[trigger] batch_outputs(
                    candidates,
                    search.primary_checks@,
                    search.secondary_checks@,
                    search.primary_hash,
                    search.secondary_hash,
                    search.output,
                )[j],
                blocks,
            ),
{
    if reverser_sound() {
        let outs = batch_outputs(
            candidates,
            search.primary_checks@,
            search.secondary_checks@,
            search.primary_hash,
            search.secondary_hash,
            search.output,
        );
        lemma_batch_outputs_sound(
            candidates,
            search.primary_checks@,
            search.secondary_checks@,
            search.primary_hash,
            search.secondary_hash,
            search.output,
        );
        let ifp = search.is_floor_primary;
        assert forall|j: int| 0 <= j < outs.len() implies matches_pattern(#[trigger] outs[j], blocks) by {
            let x = outs[j];
            assert(passes_both(
                x,
                search.primary_checks@,
                search.secondary_checks@,
                search.primary_hash,
                search.secondary_hash,
            ));
            let floor = surface_blocks(blocks, true);
            let roof = surface_blocks(blocks, false);
            lemma_exact_checks_match_blocks(floor, surface_of(x, FLOOR_HASH));
            lemma_exact_checks_match_blocks(roof, surface_of(x, ROOF_HASH));
            if ifp {
                assert(role_blocks(blocks, ifp, true) == floor);
                assert(role_blocks(blocks, ifp, false) == roof);
            } else {
                assert(role_blocks(blocks, ifp, true) == roof);
                assert(role_blocks(blocks, ifp, false) == floor);
            }
        }
    }
}

// ---------------------------------------------------------------------------
// Laws of finalization
// ---------------------------------------------------------------------------

/// `world_seeds_of` turns each seed into one world seed, in order: the
/// `j`-th result is `nextLong()` of the `j`-th seed.
pub proof fn lemma_world_seeds_each(prevs: Seq<u64>)
    ensures
        world_seeds(prevs).len() == prevs.len(),
        forall|j: int| 0 <= j < prevs.len() ==> #[trigger] world_seeds(prevs)[j] == spec_next_long(prevs[j]),
{
}

/// Reporting structure seeds distributes over concatenation: the seeds
/// reported for `a + b` are those reported for `a` followed by those
/// reported for `b`.
pub proof fn lemma_report_structures_append(a: Seq<u64>, b: Seq<u64>, output: OutputMode)
    ensures
        structure_outputs(a + b, output) == structure_outputs(a, output) + structure_outputs(b, output),
    decreases b.len(),
{
    if b.len() == 0 {
        assert(a + b =~= a);
        assert(structure_outputs(a, output) + structure_outputs(b, output) =~= structure_outputs(a, output));
    } else {
        let init = b.drop_last();
        lemma_report_structures_append(a, init, output);
        assert((a + b).drop_last() =~= a + init);
        assert((a + b).last() == b.last());
        let x = structure_outputs(a, output);
        let y = structure_outputs(init, output);
        let t = seeds_for_structure(b.last(), output);
        assert(x + y + t =~= x + (y + t));
    }
}

/// What one structure seed `s` contributes to a report: in structure-seed
/// mode, `s` itself; in world-seed mode, one world seed per seed `p` that
/// the reverser lists for `s` (every one of them, in the reverser's order),
/// namely `nextLong(p)`.
pub proof fn lemma_report_structures_single(s: u64)
    ensures
        structure_outputs(seq![s], OutputMode::StructureSeed) == seq![s],
        structure_outputs(seq![s], OutputMode::WorldSeed).len() == spec_reverse_next_long(s).len(),
        forall|j: int|
            0 <= j < spec_reverse_next_long(s).len() ==> #[trigger] structure_outputs(
                seq![s],
                OutputMode::WorldSeed,
            )[j] == spec_next_long(spec_reverse_next_long(s)[j]),
{
    let one = seq![s];
    assert(one.drop_last() =~= Seq::<u64>::empty());
    assert(one.last() == s);
    assert(structure_outputs(one.drop_last(), OutputMode::StructureSeed).len() == 0);
    assert(structure_outputs(one.drop_last(), OutputMode::WorldSeed).len() == 0);
    assert(structure_outputs(one, OutputMode::StructureSeed) =~= seq![s]);
    assert(structure_outputs(one, OutputMode::WorldSeed) =~= world_seeds(spec_reverse_next_long(s)));
}

/// CrossComparison distributes over the seeds it is given: what it reports
/// for `a + b` is what it reports for `a` followed by what it reports for
/// `b`. With `lemma_cross_comparison_single`, it reports for a list the
/// concatenation, over every seed of the list in order, of that seed's
/// reports.
pub proof fn lemma_cross_comparison_append(
    a: Seq<u64>,
    b: Seq<u64>,
    secondary: Seq<CheckObject>,
    primary_hash: u64,
    secondary_hash: u64,
    output: OutputMode,
)
    ensures
        internal_outputs(a + b, secondary, primary_hash, secondary_hash, output) == internal_outputs(
            a,
            secondary,
            primary_hash,
            secondary_hash,
            output,
        ) + internal_outputs(b, secondary, primary_hash, secondary_hash, output),
    decreases b.len(),
{
    if b.len() == 0 {
        assert(a + b =~= a);
        let x = internal_outputs(a, secondary, primary_hash, secondary_hash, output);
        assert(x + internal_outputs(b, secondary, primary_hash, secondary_hash, output) =~= x);
    } else {
        let init = b.drop_last();
        lemma_cross_comparison_append(a, init, secondary, primary_hash, secondary_hash, output);
        assert((a + b).drop_last() =~= a + init);
        assert((a + b).last() == b.last());
        let x = internal_outputs(a, secondary, primary_hash, secondary_hash, output);
        let y = internal_outputs(init, secondary, primary_hash, secondary_hash, output);
        let t = seeds_for_internal(b.last(), secondary, primary_hash, secondary_hash, output);
        assert(x + y + t =~= x + (y + t));
    }
}

/// What CrossComparison reports for one seed `x` of the primary surface's
/// random: the bedrock seed is `x ^ primary_hash`; when `nextLong()` of the
/// bedrock seed mixed with the secondary hash passes every secondary check,
/// the reports of every structure seed that the reverser lists for the
/// bedrock seed; otherwise nothing.
pub proof fn lemma_cross_comparison_single(
    x: u64,
    secondary: Seq<CheckObject>,
    primary_hash: u64,
    secondary_hash: u64,
    output: OutputMode,
)
    ensures
        internal_outputs(seq![x], secondary, primary_hash, secondary_hash, output) == (if passes_all(
            secondary,
            spec_next_long(x ^ primary_hash ^ secondary_hash),
        ) {
            structure_outputs(spec_reverse_next_long(x ^ primary_hash), output)
        } else {
            Seq::empty()
        }),
{
    let one = seq![x];
    assert(one.drop_last() =~= Seq::<u64>::empty());
    assert(one.last() == x);
    assert(internal_outputs(one.drop_last(), secondary, primary_hash, secondary_hash, output).len() == 0);
    let t = seeds_for_internal(x, secondary, primary_hash, secondary_hash, output);
    assert(internal_outputs(one, secondary, primary_hash, secondary_hash, output) =~= t);
}

/// What finalization reports for the completion `upper | lower` alone:
/// when it passes every primary check, all that CrossComparison reports for
/// it, over every seed the reverser lists for it; otherwise nothing.
pub open spec fn completion_reports(
    upper: u64,
    lower: int,
    primary: Seq<CheckObject>,
    secondary: Seq<CheckObject>,
    primary_hash: u64,
    secondary_hash: u64,
    output: OutputMode,
) -> Seq<u64> {
    let full_seed = upper | (lower as u64);
    if passes_all(primary, full_seed) {
        internal_outputs(spec_reverse_next_long(full_seed), secondary, primary_hash, secondary_hash, output)
    } else {
        Seq::empty()
    }
}

/// Finalization reports, for the first `n` completions of a candidate
/// (`n` is 4096 for `finalize_candidate`), exactly the reports of each
/// completion, one after another in the order of `lower`: nothing is left
/// out, repeated or reordered.
pub proof fn lemma_finalize_exact(
    upper: u64,
    n: nat,
    primary: Seq<CheckObject>,
    secondary: Seq<CheckObject>,
    primary_hash: u64,
    secondary_hash: u64,
    output: OutputMode,
)
    ensures
        candidate_outputs(upper, n, primary, secondary, primary_hash, secondary_hash, output) == Seq::new(
            n,
            |lower: int|
                completion_reports(upper, lower, primary, secondary, primary_hash, secondary_hash, output),
        ).flatten(),
    decreases n,
{
    let parts = Seq::new(
        n,
        |lower: int| completion_reports(upper, lower, primary, secondary, primary_hash, secondary_hash, output),
    );
    if n == 0 {
        assert(parts =~= Seq::<Seq<u64>>::empty());
    } else {
        lemma_finalize_exact(upper, (n - 1) as nat, primary, secondary, primary_hash, secondary_hash, output);
        let init = Seq::new(
            (n - 1) as nat,
            |lower: int| completion_reports(upper, lower, primary, secondary, primary_hash, secondary_hash, output),
        );
        let last = completion_reports(upper, n - 1, primary, secondary, primary_hash, secondary_hash, output);
        assert(parts =~= init + seq![last]);
        vstd::seq_lib::lemma_flatten_concat(init, seq![last]);
        seq![last].lemma_flatten_one_element();
        assert(seq![last].flatten() == last);
    }
}

/// The reports for the first `m` completions of a candidate are a prefix of
/// those for the first `n`, for `m <= n`.
proof fn lemma_candidate_outputs_prefix(
    upper: u64,
    m: nat,
    n: nat,
    primary: Seq<CheckObject>,
    secondary: Seq<CheckObject>,
    primary_hash: u64,
    secondary_hash: u64,
    output: OutputMode,
)
    requires
        m <= n,
    ensures
        candidate_outputs(upper, m, primary, secondary, primary_hash, secondary_hash, output).len()
            <= candidate_outputs(upper, n, primary, secondary, primary_hash, secondary_hash, output).len(),
        candidate_outputs(upper, n, primary, secondary, primary_hash, secondary_hash, output).subrange(
            0,
            candidate_outputs(upper, m, primary, secondary, primary_hash, secondary_hash, output).len() as int,
        ) == candidate_outputs(upper, m, primary, secondary, primary_hash, secondary_hash, output),
    decreases n,
{
    let cm = candidate_outputs(upper, m, primary, secondary, primary_hash, secondary_hash, output);
    let cn = candidate_outputs(upper, n, primary, secondary, primary_hash, secondary_hash, output);
    if m == n {
        assert(cn.subrange(0, cn.len() as int) =~= cn);
    } else {
        lemma_candidate_outputs_prefix(upper, m, (n - 1) as nat, primary, secondary, primary_hash, secondary_hash, output);
        let prev = candidate_outputs(upper, (n - 1) as nat, primary, secondary, primary_hash, secondary_hash, output);
        let full_seed = upper | ((n - 1) as u64);
        let t = if passes_all(primary, full_seed) {
            cross_outputs(full_seed, secondary, primary_hash, secondary_hash, output)
        } else {
            Seq::<u64>::empty()
        };
        assert(cn == prev + t);
        assert(cn.subrange(0, cm.len() as int) =~= prev.subrange(0, cm.len() as int));
    }
}

/// Completeness of finalization: for every completion `upper | lower` of a
/// candidate (`lower` below 2^12) that passes every primary check, all that
/// CrossComparison reports for it (over every seed the reverser lists for
/// `upper | lower`) stands in the finalization's result as one contiguous
/// run, after the reports of the smaller completions.
pub proof fn lemma_finalize_complete(
    upper: u64,
    lower: u64,
    primary: Seq<CheckObject>,
    secondary: Seq<CheckObject>,
    primary_hash: u64,
    secondary_hash: u64,
    output: OutputMode,
)
    requires
        lower < 4096,
        passes_all(primary, upper | lower),
    ensures
        ({
            let all = candidate_outputs(upper, 4096, primary, secondary, primary_hash, secondary_hash, output);
            let found = internal_outputs(
                spec_reverse_next_long(upper | lower),
                secondary,
                primary_hash,
                secondary_hash,
                output,
            );
            exists|p: int|
                0 <= p && p + found.len() <= all.len() && #[trigger] all.subrange(p, p + found.len())
                    == found
        }),
{
    let all = candidate_outputs(upper, 4096, primary, secondary, primary_hash, secondary_hash, output);
    let found = internal_outputs(spec_reverse_next_long(upper | lower), secondary, primary_hash, secondary_hash, output);
    let before = candidate_outputs(upper, lower as nat, primary, secondary, primary_hash, secondary_hash, output);
    let through = candidate_outputs(upper, (lower + 1) as nat, primary, secondary, primary_hash, secondary_hash, output);
    assert(((lower + 1 - 1) as u64) == lower);
    assert(through == before + found);
    lemma_candidate_outputs_prefix(upper, (lower + 1) as nat, 4096, primary, secondary, primary_hash, secondary_hash, output);
    let p = before.len() as int;
    assert(all.subrange(0, through.len() as int) == through);
    assert(all.subrange(p, p + found.len()) =~= through.subrange(p, p + found.len()));
    assert(through.subrange(p, p + found.len()) =~= found);
}

/// In structure-seed mode the structure seeds themselves are reported, in
/// order.
pub proof fn lemma_report_structures_identity(structures: Seq<u64>)
    ensures
        structure_outputs(structures, OutputMode::StructureSeed) == structures,
    decreases structures.len(),
{
    if structures.len() > 0 {
        lemma_report_structures_identity(structures.drop_last());
        assert(structures.drop_last() + seq![structures.last()] =~= structures);
    }
}

/// Every seed reported for one structure seed of a list is reported for the
/// list.
proof fn lemma_structure_outputs_include(xs: Seq<u64>, j: int, output: OutputMode)
    requires
        0 <= j < xs.len(),
    ensures
        forall|k: int|
            0 <= k < structure_outputs(seq![xs[j]], output).len() ==> structure_outputs(xs, output).contains(
                #[trigger] structure_outputs(seq![xs[j]], output)[k],
            ),
{
    let a = xs.take(j);
    let m = seq![xs[j]];
    let b = xs.skip(j + 1);
    assert(xs =~= a + m + b);
    lemma_report_structures_append(a + m, b, output);
    lemma_report_structures_append(a, m, output);
    let whole = structure_outputs(xs, output);
    let sa = structure_outputs(a, output);
    let sm = structure_outputs(m, output);
    assert(whole == sa + sm + structure_outputs(b, output));
    assert forall|k: int| 0 <= k < sm.len() implies whole.contains(#[trigger] sm[k]) by {
        assert(whole[sa.len() + k] == sm[k]);
    }
}

/// Every seed that CrossComparison reports for one seed of a list is
/// reported for the list.
proof fn lemma_internal_outputs_include(
    xs: Seq<u64>,
    j: int,
    secondary: Seq<CheckObject>,
    primary_hash: u64,
    secondary_hash: u64,
    output: OutputMode,
)
    requires
        0 <= j < xs.len(),
    ensures
        forall|k: int|
            0 <= k < internal_outputs(seq![xs[j]], secondary, primary_hash, secondary_hash, output).len()
                ==> internal_outputs(xs, secondary, primary_hash, secondary_hash, output).contains(
                #[trigger] internal_outputs(seq![xs[j]], secondary, primary_hash, secondary_hash, output)[k],
            ),
{
    let a = xs.take(j);
    let m = seq![xs[j]];
    let b = xs.skip(j + 1);
    assert(xs =~= a + m + b);
    lemma_cross_comparison_append(a + m, b, secondary, primary_hash, secondary_hash, output);
    lemma_cross_comparison_append(a, m, secondary, primary_hash, secondary_hash, output);
    let whole = internal_outputs(xs, secondary, primary_hash, secondary_hash, output);
    let sa = internal_outputs(a, secondary, primary_hash, secondary_hash, output);
    let sm = internal_outputs(m, secondary, primary_hash, secondary_hash, output);
    assert(whole == sa + sm + internal_outputs(b, secondary, primary_hash, secondary_hash, output));
    assert forall|k: int| 0 <= k < sm.len() implies whole.contains(#[trigger] sm[k]) by {
        assert(whole[sa.len() + k] == sm[k]);
    }
}

/// Finalizing a batch finalizes each of its candidates: every seed reported
/// for one candidate is reported for the batch.
proof fn lemma_batch_outputs_include(
    candidates: Seq<u64>,
    j: int,
    primary: Seq<CheckObject>,
    secondary: Seq<CheckObject>,
    primary_hash: u64,
    secondary_hash: u64,
    output: OutputMode,
)
    requires
        0 <= j < candidates.len(),
    ensures
        forall|k: int|
            0 <= k < candidate_outputs(candidates[j], 4096, primary, secondary, primary_hash, secondary_hash, output).len()
                ==> batch_outputs(candidates, primary, secondary, primary_hash, secondary_hash, output).contains(
                #[trigger] candidate_outputs(candidates[j], 4096, primary, secondary, primary_hash, secondary_hash, output)[k],
            ),
{
    let a = candidates.take(j);
    let m = seq![candidates[j]];
    let b = candidates.skip(j + 1);
    assert(candidates =~= a + m + b);
    lemma_batch_outputs_append(a + m, b, primary, secondary, primary_hash, secondary_hash, output);
    lemma_batch_outputs_append(a, m, primary, secondary, primary_hash, secondary_hash, output);
    assert(m.drop_last() =~= Seq::<u64>::empty());
    assert(batch_outputs(m.drop_last(), primary, secondary, primary_hash, secondary_hash, output).len() == 0);
    let whole = batch_outputs(candidates, primary, secondary, primary_hash, secondary_hash, output);
    let sa = batch_outputs(a, primary, secondary, primary_hash, secondary_hash, output);
    let co = candidate_outputs(candidates[j], 4096, primary, secondary, primary_hash, secondary_hash, output);
    assert(batch_outputs(m, primary, secondary, primary_hash, secondary_hash, output) =~= co);
    assert(whole == sa + co + batch_outputs(b, primary, secondary, primary_hash, secondary_hash, output));
    assert forall|k: int| 0 <= k < co.len() implies whole.contains(#[trigger] co[k]) by {
        assert(whole[sa.len() + k] == co[k]);
    }
}

/// The upper bits that the GPU returns for a world (or structure) seed: the
/// low 48 bits of its primary surface seed, with the low 12 bits cleared.
pub open spec fn primary_upper_bits(world: u64, primary_hash: u64) -> u64 {
    surface_of(world, primary_hash) & 0xFFFF_FFFF_F000
}

/// Whether `outs` holds what is reported for the structure seed
/// `structure`: the seed itself in structure-seed mode; in world-seed mode,
/// every world seed `nextLong(p)` (for `p` below 2^48) whose low 48 bits
/// are the structure seed.
pub open spec fn reports_structure(outs: Seq<u64>, structure: u64, output: OutputMode) -> bool {
    &&& output == OutputMode::StructureSeed ==> outs.contains(structure)
    &&& output == OutputMode::WorldSeed ==> forall|p: u64|
        p <= MASK48 && spec_next_long(p) as int % modulus() == structure as int ==> outs.contains(
            #[trigger] spec_next_long(p),
        )
}

/// What one sequence reports of a structure seed, a sequence holding all
/// its values reports too.
proof fn lemma_reports_transfer(part: Seq<u64>, whole: Seq<u64>, structure: u64, output: OutputMode)
    requires
        reports_structure(part, structure, output),
        forall|k: int| 0 <= k < part.len() ==> whole.contains(#[trigger] part[k]),
    ensures
        reports_structure(whole, structure, output),
{
    if output == OutputMode::StructureSeed {
        let k = choose|k: int| 0 <= k < part.len() && part[k] == structure;
        assert(whole.contains(part[k]));
    } else {
        assert forall|p: u64|
            p <= MASK48 && spec_next_long(p) as int % modulus() == structure as int implies whole.contains(
            #[trigger] spec_next_long(p),
        ) by {
            assert(part.contains(spec_next_long(p)));
            let k = choose|k: int| 0 <= k < part.len() && part[k] == spec_next_long(p);
            assert(whole.contains(part[k]));
        }
    }
}

/// Provided the reverser misses no seed, the structure seeds listed for a
/// bedrock seed that a structure seed leads to report that structure seed.
#[verifier::spinoff_prover]
proof fn lemma_structure_reported_for_bedrock(structure: u64, bedrock: u64, output: OutputMode)
    requires
        reverser_complete(),
        structure <= MASK48,
        bedrock as int % modulus() == spec_next_long(structure) as int % modulus(),
    ensures
        reports_structure(structure_outputs(spec_reverse_next_long(bedrock), output), structure, output),
{
    let structures = spec_reverse_next_long(bedrock);
    assert(structures.contains(structure));
    let js = choose|j: int| 0 <= j < structures.len() && structures[j] == structure;
    lemma_structure_outputs_include(structures, js, output);
    let from_structure = structure_outputs(seq![structure], output);
    lemma_report_structures_single(structure);
    if output == OutputMode::WorldSeed {
        assert forall|p: u64|
            p <= MASK48 && spec_next_long(p) as int % modulus() == structure as int implies from_structure.contains(
            #[trigger] spec_next_long(p),
        ) by {
            lemma_small_mod_48(structure);
            assert(spec_reverse_next_long(structure).contains(p));
            let jp = choose|j: int|
                0 <= j < spec_reverse_next_long(structure).len() && spec_reverse_next_long(structure)[j] == p;
            assert(from_structure[jp] == spec_next_long(p));
        }
    } else {
        assert(from_structure[0] == structure);
    }
    lemma_reports_transfer(from_structure, structure_outputs(structures, output), structure, output);
}

/// The primary random's seed (in 48 bits) that a bedrock seed `b` leads
/// to: `nextLong()` of it is the primary surface seed, and XOR the primary
/// hash gives back `b` in its low 48 bits, so the secondary surface seed
/// is the same too.
proof fn lemma_internal_of_bedrock(b: u64, primary_hash: u64, secondary_hash: u64)
    ensures
        ((b ^ primary_hash) & MASK48) <= MASK48,
        spec_next_long((b ^ primary_hash) & MASK48) == spec_next_long(b ^ primary_hash),
        (((b ^ primary_hash) & MASK48) ^ primary_hash) as int % modulus() == b as int % modulus(),
        spec_next_long(((b ^ primary_hash) & MASK48) ^ primary_hash ^ secondary_hash) == spec_next_long(
            b ^ secondary_hash,
        ),
{
    let ph = primary_hash;
    let sh = secondary_hash;
    let internal: u64 = (b ^ ph) & MASK48;
    lemma_mask48_is_mod(b ^ ph);
    assert(internal <= 0xFFFF_FFFF_FFFF) by (bit_vector)
        requires
            internal == (b ^ ph) & 0xFFFF_FFFF_FFFF,
    ;
    lemma_next_long_low_bits(internal, b ^ ph);
    assert((b ^ ph) ^ ph == b) by (bit_vector);
    lemma_xor_low_bits(internal, b ^ ph, ph);
    lemma_xor_low_bits(internal ^ ph, b, sh);
    lemma_next_long_low_bits(internal ^ ph ^ sh, b ^ sh);
}

/// Provided the reverser misses no seed, CrossComparison of a primary
/// surface seed (48 bits) that a structure seed leads to reports that
/// structure seed, when its secondary surface seed passes the secondary
/// checks.
#[verifier::spinoff_prover]
proof fn lemma_structure_reported_for_surface(
    structure: u64,
    surface: u64,
    secondary: Seq<CheckObject>,
    primary_hash: u64,
    secondary_hash: u64,
    output: OutputMode,
)
    requires
        reverser_complete(),
        structure <= MASK48,
        surface <= MASK48,
        surface as int == spec_next_long(spec_next_long(structure) ^ primary_hash) as int % modulus(),
        passes_all(secondary, surface_of(structure, secondary_hash)),
    ensures
        reports_structure(
            internal_outputs(spec_reverse_next_long(surface), secondary, primary_hash, secondary_hash, output),
            structure,
            output,
        ),
{
    let ph = primary_hash;
    let sh = secondary_hash;
    let rev = spec_reverse_next_long(surface);
    let b = spec_next_long(structure);
    let internal: u64 = (b ^ ph) & MASK48;
    lemma_internal_of_bedrock(b, ph, sh);
    lemma_small_mod_48(surface);
    assert(rev.contains(internal));
    let ji = choose|j: int| 0 <= j < rev.len() && rev[j] == internal;
    lemma_internal_outputs_include(rev, ji, secondary, ph, sh, output);
    lemma_cross_comparison_single(internal, secondary, ph, sh, output);
    lemma_structure_reported_for_bedrock(structure, internal ^ ph, output);
    lemma_reports_transfer(
        internal_outputs(seq![internal], secondary, ph, sh, output),
        internal_outputs(rev, secondary, ph, sh, output),
        structure,
        output,
    );
}

/// A structure seed that generates every observed block passes the exact
/// checks of both surfaces of a prepared search, through its surface seeds.
proof fn lemma_matching_passes_both(search: GpuSearch, blocks: Seq<Block>, structure: u64)
    requires
        prepared_from(search, blocks),
        matches_pattern(structure, blocks),
    ensures
        passes_all(search.primary_checks@, surface_of(structure, search.primary_hash)),
        passes_all(search.secondary_checks@, surface_of(structure, search.secondary_hash)),
{
    let ifp = search.is_floor_primary;
    let primary_blocks = role_blocks(blocks, ifp, true);
    let secondary_blocks = role_blocks(blocks, ifp, false);
    let f = surface_of(structure, search.primary_hash);
    let g = surface_of(structure, search.secondary_hash);
    if ifp {
        assert(primary_blocks == surface_blocks(blocks, true));
        assert(secondary_blocks == surface_blocks(blocks, false));
    } else {
        assert(primary_blocks == surface_blocks(blocks, false));
        assert(secondary_blocks == surface_blocks(blocks, true));
    }
    assert forall|i: int| 0 <= i < primary_blocks.len() implies #[trigger] block_agrees(f, primary_blocks[i]) by {}
    assert forall|i: int| 0 <= i < secondary_blocks.len() implies #[trigger] block_agrees(g, secondary_blocks[i]) by {}
    lemma_exact_checks_match_blocks(primary_blocks, f);
    lemma_exact_checks_match_blocks(secondary_blocks, g);
}

/// Completeness of a search: provided the reverser misses no seed, a
/// structure seed (below 2^48) that generates every observed block is
/// found. The GPU keeps the upper bits of its primary surface seed; and
/// when the GPU returns them in a batch, finalizing the batch reports the
/// structure seed itself (structure-seed mode), or every world seed
/// `nextLong(p)` (for `p` below 2^48) whose low 48 bits are the structure
/// seed (world-seed mode).
#[verifier::spinoff_prover]
pub proof fn lemma_matching_seed_reported(
    search: GpuSearch,
    blocks: Seq<Block>,
    structure: u64,
    candidates: Seq<u64>,
)
    requires
        prepared_from(search, blocks),
        structure <= MASK48,
        matches_pattern(structure, blocks),
    ensures
        gpu_passes_all(search.gpu_checks@, primary_upper_bits(structure, search.primary_hash)),
        reverser_complete() && candidates.contains(primary_upper_bits(structure, search.primary_hash))
            ==> reports_structure(
            batch_outputs(
                candidates,
                search.primary_checks@,
                search.secondary_checks@,
                search.primary_hash,
                search.secondary_hash,
                search.output,
            ),
            structure,
            search.output,
        ),
{
    let ph = search.primary_hash;
    let sh = search.secondary_hash;
    let primary = search.primary_checks@;
    let secondary = search.secondary_checks@;
    let output = search.output;
    let upper = primary_upper_bits(structure, ph);
    lemma_matching_passes_both(search, blocks, structure);
    let lower = lemma_matching_candidate(search, blocks, surface_of(structure, ph));
    if reverser_complete() && candidates.contains(upper) {
        let ci = choose|i: int| 0 <= i < candidates.len() && candidates[i] == upper;
        lemma_batch_outputs_include(candidates, ci, primary, secondary, ph, sh, output);
        let all = candidate_outputs(upper, 4096, primary, secondary, ph, sh, output);
        let batch = batch_outputs(candidates, primary, secondary, ph, sh, output);
        lemma_finalize_complete(upper, lower, primary, secondary, ph, sh, output);
        let found = internal_outputs(spec_reverse_next_long(upper | lower), secondary, ph, sh, output);
        let p0 = choose|p: int|
            0 <= p && p + found.len() <= all.len() && #[trigger] all.subrange(p, p + found.len()) == found;
        assert forall|k: int| 0 <= k < found.len() implies batch.contains(#[trigger] found[k]) by {
            assert(all.subrange(p0, p0 + found.len())[k] == all[p0 + k]);
        }
        lemma_structure_reported_for_surface(structure, upper | lower, secondary, ph, sh, output);
        lemma_reports_transfer(found, batch, structure, output);
    }
}

/// The 48 bits of a surface seed are its upper bits (low 12 bits cleared)
/// completed by its low 12 bits.
proof fn lemma_split_surface(f: u64)
    ensures
        (f & 0xFFFF_FFFF_F000) & 0xFFF == 0,
        (f & 0xFFFF_FFFF_F000) | ((f & MASK48) & 0xFFFu64) == f & MASK48,
        (f & MASK48) & 0xFFFu64 < 4096,
        f & MASK48 <= MASK48,
{
    assert((f & 0xFFFF_FFFF_F000) & 0xFFF == 0) by (bit_vector);
    assert((f & 0xFFFF_FFFF_F000) | ((f & 0xFFFF_FFFF_FFFF) & 0xFFFu64) == f & 0xFFFF_FFFF_FFFF)
        by (bit_vector);
    assert((f & 0xFFFF_FFFF_FFFF) & 0xFFFu64 < 4096) by (bit_vector);
    assert(f & 0xFFFF_FFFF_FFFF <= 0xFFFF_FFFF_FFFF) by (bit_vector);
}

/// For a primary surface seed that passes every primary check, the GPU keeps
/// its upper bits, and the completion of those bits by its low 12 bits is
/// the surface seed in 48 bits, which passes every primary check.
proof fn lemma_matching_candidate(search: GpuSearch, blocks: Seq<Block>, f: u64) -> (lower: u64)
    requires
        prepared_from(search, blocks),
        passes_all(search.primary_checks@, f),
    ensures
        lower < 4096,
        gpu_passes_all(search.gpu_checks@, f & 0xFFFF_FFFF_F000),
        passes_all(search.primary_checks@, (f & 0xFFFF_FFFF_F000) | lower),
        (f & 0xFFFF_FFFF_F000) | lower <= MASK48,
        ((f & 0xFFFF_FFFF_F000) | lower) as int == f as int % modulus(),
{
    let f48: u64 = f & MASK48;
    lemma_mask48_is_mod(f);
    lemma_passes_all_low_bits(search.primary_checks@, f, f48);
    lemma_split_surface(f);
    let upper: u64 = f & 0xFFFF_FFFF_F000;
    let lower: u64 = f48 & 0xFFFu64;
    let filters = filters_of(role_blocks(blocks, search.is_floor_primary, true));
    assert(search.primary_checks@ == exact_checks_of(filters));
    assert(search.gpu_checks@ == gpu_checks_of(filters));
    lemma_gpu_prefilter_keeps_matches(filters, upper, lower);
    lower
}

/// A 48-bit value is its own remainder modulo 2^48.
proof fn lemma_small_mod_48(x: u64)
    requires
        x <= MASK48,
    ensures
        x as int % modulus() == x as int,
{
}

// ---------------------------------------------------------------------------
// Batch schedule
// ---------------------------------------------------------------------------

/// One GPU dispatch: `size` upper-bit values from `start_seed` on, which
/// holds the first of them shifted by the 12 bits the GPU leaves out.
#[derive(Clone, Copy, Debug, PartialEq, Eq, Structural)]
pub struct Batch {
    pub start_seed: u64,
    pub size: u32,
}

/// Where the batch that starts at upper-bit value `next` stops: at the next
/// multiple of the batch size `b`, or at `end`, whichever comes first.
pub open spec fn batch_stop(next: int, end: int, b: int) -> int {
    if (next / b + 1) * b < end {
        (next / b + 1) * b
    } else {
        end
    }
}

/// A batch that starts before `end` is non-empty, ends by `end`, and holds at
/// most `b` values.
pub proof fn lemma_batch_stop(next: int, end: int, b: int)
    requires
        0 <= next < end,
        b > 0,
    ensures
        next < batch_stop(next, end, b) <= end,
        batch_stop(next, end, b) - next <= b,
        (next / b + 1) * b == next - next % b + b,
{
    vstd::arithmetic::div_mod::lemma_fundamental_div_mod(next, b);
    vstd::arithmetic::div_mod::lemma_mod_bound(next, b);
    assert((next / b + 1) * b == b * (next / b) + b) by (nonlinear_arith);
}

/// The upper-bit ranges `(first value, length)` that the batches of a plan
/// cover, from `next` up to `end`, in batches of size `b` aligned to
/// multiples of `b`: the first and the last may be partial.
pub open spec fn plan_ranges(next: int, end: int, b: int) -> Seq<(int, int)>
    decreases end - next,
{
    if b <= 0 || next < 0 || next >= end {
        Seq::empty()
    } else {
        let stop = batch_stop(next, end, b);
        proof {
            lemma_batch_stop(next, end, b);
        }
        seq![(next, stop - next)].add(plan_ranges(stop, end, b))
    }
}

/// The total length of the ranges.
pub open spec fn ranges_len(ranges: Seq<(int, int)>) -> int
    decreases ranges.len(),
{
    if ranges.len() == 0 {
        0
    } else {
        ranges[0].1 + ranges_len(ranges.drop_first())
    }
}

/// The remaining batches of a search: they cover the upper-bit values from
/// `next_start` up to `end_upper_bits`, in batches that end at multiples of
/// `batch_size` or at `end_upper_bits`.
#[derive(Clone, Copy, Debug, PartialEq, Eq, Structural)]
pub struct BatchPlan {
    pub batch_size: u32,
    pub next_start: u64,
    pub end_upper_bits: u64,
}

impl BatchPlan {
    /// The batch size divides, and the arithmetic of the batches fits in 64
    /// bits.
    pub open spec fn wf(self) -> bool {
        &&& self.batch_size > 0
        &&& self.end_upper_bits + self.batch_size <= u64::MAX
    }

    /// The upper-bit ranges that the remaining batches cover, in order.
    pub open spec fn ranges(self) -> Seq<(int, int)> {
        plan_ranges(self.next_start as int, self.end_upper_bits as int, self.batch_size as int)
    }

    /// The plan of a full search over all 2^36 upper-bit values.
    pub open spec fn spec_full_search(batch_size: u32) -> BatchPlan {
        BatchPlan { batch_size, next_start: 0, end_upper_bits: TOTAL_UPPER_BITS }
    }

    /// The plan of a search over exactly the upper-bit values from
    /// `start_upper_bits` up to `end_upper_bits`.
    pub open spec fn spec_range_search(start_upper_bits: u64, end_upper_bits: u64, batch_size: u32) -> BatchPlan {
        BatchPlan { batch_size, next_start: start_upper_bits, end_upper_bits }
    }

    /// The plan of a full search.
    pub fn full_search(batch_size: u32) -> (plan: BatchPlan)
        requires
            batch_size > 0,
        ensures
            plan == Self::spec_full_search(batch_size),
            plan.wf(),
    {
        BatchPlan { batch_size, next_start: 0, end_upper_bits: TOTAL_UPPER_BITS }
    }

    /// The plan of a search over a range of upper-bit values.
    pub fn range_search(start_upper_bits: u64, end_upper_bits: u64, batch_size: u32) -> (plan: BatchPlan)
        requires
            batch_size > 0,
            end_upper_bits + batch_size <= u64::MAX,
        ensures
            plan == Self::spec_range_search(start_upper_bits, end_upper_bits, batch_size),
            plan.wf(),
    {
        BatchPlan { batch_size, next_start: start_upper_bits, end_upper_bits }
    }

    /// Takes the next batch, if any remains: the first range of the plan.
    pub fn next_batch(&mut self) -> (batch: Option<Batch>)
        requires
            old(self).wf(),
        ensures
            final(self).wf(),
            final(self).batch_size == old(self).batch_size,
            final(self).end_upper_bits == old(self).end_upper_bits,
            old(self).next_start < old(self).end_upper_bits ==> batch == Some(
                Batch {
                    start_seed: ((old(self).next_start * 4096) % 0x1_0000_0000_0000_0000) as u64,
                    size: old(self).ranges()[0].1 as u32,
                },
            ) && final(self).ranges() == old(self).ranges().drop_first() && final(self).next_start
                == old(self).next_start + old(self).ranges()[0].1,
            old(self).next_start >= old(self).end_upper_bits ==> batch is None && *final(self)
                == *old(self),
    {
        if self.next_start >= self.end_upper_bits {
            return None;
        }
        let b = self.batch_size as u64;
        let next = self.next_start;
        let end = self.end_upper_bits;
        let q = next / b;
        proof {
            lemma_batch_stop(next as int, end as int, b as int);
            vstd::arithmetic::div_mod::lemma_fundamental_div_mod(next as int, b as int);
            vstd::arithmetic::div_mod::lemma_mod_bound(next as int, b as int);
            assert(q * b == next - next % b && q * b + b == (next / b + 1) * b) by (nonlinear_arith)
                requires
                    q == next / b,
                    next == b * (next / b) + next % b,
            ;
        }
        let base = q * b;
        let aligned = base + b;
        let stop = if aligned < end {
            aligned
        } else {
            end
        };
        let size = (stop - next) as u32;
        proof {
            lemma_shl12(next);
            let r = plan_ranges(next as int, end as int, b as int);
            assert(r[0] == (next as int, stop - next));
            assert(r.drop_first() =~= plan_ranges(stop as int, end as int, b as int));
        }
        let start_seed = next << 12;
        self.next_start = stop;
        Some(Batch { start_seed, size })
    }

    /// After the progress of a batch was reported: when nobody received it,
    /// no batch remains.
    pub fn record_delivery(&mut self, delivered: bool)
        ensures
            delivered ==> *final(self) == *old(self),
            !delivered ==> *final(self) == (BatchPlan {
                next_start: old(self).end_upper_bits,
                ..*old(self)
            }),
    {
        if !delivered {
            self.next_start = self.end_upper_bits;
        }
    }

    /// The number of seeds that a batch covers: each upper-bit value stands
    /// for 4096 seeds.
    pub fn progress(batch: &Batch) -> (seeds: u64)
        ensures
            seeds == batch.size * 4096,
    {
        let size = batch.size as u64;
        assert(size << 12u64 == size * 4096) by (bit_vector)
            requires
                size <= 0xFFFF_FFFF,
        ;
        size << 12
    }
}

proof fn lemma_shl12(x: u64)
    ensures
        (x << 12u64) as int == (x as int * 4096) % 0x1_0000_0000_0000_0000,
{
    assert((x << 12u64) as int == (x as int * 4096) % 0x1_0000_0000_0000_0000) by (bit_vector);
}

/// The ranges of a plan tile the upper-bit values from `next` up to `end`
/// exactly: the first starts at `next`, each ends where the next one starts,
/// the last ends at `end`, each holds 1 to `b` values, and together they
/// hold `end - next` values (none when `next >= end`).
pub proof fn lemma_plan_ranges_tile(next: int, end: int, b: int)
    requires
        0 <= next,
        b > 0,
    ensures
        ({
            let r = plan_ranges(next, end, b);
            &&& next >= end ==> r.len() == 0
            &&& next < end ==> r.len() > 0 && r[0].0 == next && r.last().0 + r.last().1 == end
            &&& forall|k: int| 0 <= k < r.len() ==> 0 < #[trigger] r[k].1 <= b
            &&& forall|k: int| 0 <= k < r.len() - 1 ==> #[trigger] r[k].0 + r[k].1 == r[k + 1].0
            &&& ranges_len(r) == (if next < end { end - next } else { 0 })
        }),
    decreases end - next,
{
    if next < end {
        let stop = batch_stop(next, end, b);
        lemma_batch_stop(next, end, b);
        lemma_plan_ranges_tile(stop, end, b);
        let r = plan_ranges(next, end, b);
        let rest = plan_ranges(stop, end, b);
        assert(r.drop_first() =~= rest);
        assert forall|k: int| 0 <= k < r.len() implies 0 < #[trigger] r[k].1 <= b by {
            if k > 0 {
                assert(r[k] == rest[k - 1]);
            }
        }
        assert forall|k: int| 0 <= k < r.len() - 1 implies #[trigger] r[k].0 + r[k].1 == r[k + 1].0 by {
            if k > 0 {
                assert(r[k] == rest[k - 1]);
                assert(r[k + 1] == rest[k]);
            }
        }
        if rest.len() > 0 {
            assert(r.last() == rest.last());
        }
    }
}

/// A full search covers every one of the 2^36 upper-bit values exactly once:
/// its batches tile them from 0 up to 2^36, the last cut at 2^36, and their
/// progress reports add up to 2^48 seeds.
pub proof fn lemma_full_search_covers(batch_size: u32)
    requires
        batch_size > 0,
    ensures
        ({
            let r = BatchPlan::spec_full_search(batch_size).ranges();
            &&& r.len() > 0 && r[0].0 == 0 && r.last().0 + r.last().1 == TOTAL_UPPER_BITS
            &&& forall|k: int| 0 <= k < r.len() - 1 ==> #[trigger] r[k].0 + r[k].1 == r[k + 1].0
            &&& forall|k: int| 0 <= k < r.len() ==> 0 < #[trigger] r[k].1 <= batch_size
            &&& ranges_len(r) * 4096 == 0x1_0000_0000_0000
        }),
{
    lemma_plan_ranges_tile(0, TOTAL_UPPER_BITS as int, batch_size as int);
}

/// A range search covers exactly the upper-bit values from
/// `start_upper_bits` up to `end_upper_bits`, each once; none when the
/// range is empty.
pub proof fn lemma_range_search_covers(start_upper_bits: u64, end_upper_bits: u64, batch_size: u32)
    requires
        batch_size > 0,
    ensures
        ({
            let r = BatchPlan::spec_range_search(start_upper_bits, end_upper_bits, batch_size).ranges();
            &&& start_upper_bits >= end_upper_bits ==> r.len() == 0
            &&& start_upper_bits < end_upper_bits ==> r.len() > 0 && r[0].0 == start_upper_bits
                && r.last().0 + r.last().1 == end_upper_bits
            &&& forall|k: int| 0 <= k < r.len() - 1 ==> #[trigger] r[k].0 + r[k].1 == r[k + 1].0
            &&& forall|k: int| 0 <= k < r.len() ==> 0 < #[trigger] r[k].1 <= batch_size
            &&& ranges_len(r) == (if start_upper_bits < end_upper_bits {
                end_upper_bits - start_upper_bits
            } else {
                0
            })
        }),
{
    lemma_plan_ranges_tile(start_upper_bits as int, end_upper_bits as int, batch_size as int);
}

/// A plan splits at an aligned point: the batches from `a` up to `c` are
/// those from `a` up to `m` followed by those from `m` up to `c`, when `m`
/// is a multiple of the batch size between them. So a range can be divided
/// among devices or machines at batch boundaries without changing a batch.
pub proof fn lemma_plan_ranges_split(a: int, m: int, c: int, b: int)
    requires
        b > 0,
        0 <= a <= m <= c,
        m % b == 0,
    ensures
        plan_ranges(a, c, b) == plan_ranges(a, m, b) + plan_ranges(m, c, b),
    decreases m - a,
{
    if a == m {
        assert(plan_ranges(a, m, b) =~= Seq::<(int, int)>::empty());
        assert(plan_ranges(a, c, b) =~= plan_ranges(a, m, b) + plan_ranges(m, c, b));
    } else {
        lemma_batch_stop(a, m, b);
        lemma_batch_stop(a, c, b);
        // the next multiple of b after a is at most m
        vstd::arithmetic::div_mod::lemma_fundamental_div_mod(a, b);
        vstd::arithmetic::div_mod::lemma_fundamental_div_mod(m, b);
        vstd::arithmetic::div_mod::lemma_mod_bound(a, b);
        assert((a / b + 1) * b <= m) by (nonlinear_arith)
            requires
                a < m,
                b > 0,
                a == b * (a / b) + a % b,
                0 <= a % b < b,
                m == b * (m / b),
        {
            if a / b >= m / b {
                assert(b * (a / b) >= b * (m / b));
            }
            assert(a / b + 1 <= m / b);
            assert((a / b + 1) * b <= (m / b) * b);
        }
        let s = batch_stop(a, c, b);
        assert(s == batch_stop(a, m, b));
        lemma_plan_ranges_split(s, m, c, b);
        let head = seq![(a, s - a)];
        assert(plan_ranges(a, c, b) == head + plan_ranges(s, c, b));
        assert(plan_ranges(a, m, b) == head + plan_ranges(s, m, b));
        assert(plan_ranges(a, c, b) =~= plan_ranges(a, m, b) + plan_ranges(m, c, b));
    }
}

/// The range plans of a split range: for `a <= m <= c` with `m` a multiple
/// of the batch size, the range search from `a` to `c` runs exactly the
/// batches of the range search from `a` to `m` and then those of the one
/// from `m` to `c`.
pub proof fn lemma_range_search_split(a: u64, m: u64, c: u64, batch_size: u32)
    requires
        batch_size > 0,
        a <= m <= c,
        m % (batch_size as u64) == 0,
    ensures
        BatchPlan::spec_range_search(a, c, batch_size).ranges() == BatchPlan::spec_range_search(
            a,
            m,
            batch_size,
        ).ranges() + BatchPlan::spec_range_search(m, c, batch_size).ranges(),
{
    lemma_plan_ranges_split(a as int, m as int, c as int, batch_size as int);
}

/// Finalization distributes over batches: the seeds reported for the
/// candidates of two runs together are those of the first run followed by
/// those of the second.
pub proof fn lemma_batch_outputs_append(
    first: Seq<u64>,
    second: Seq<u64>,
    primary: Seq<CheckObject>,
    secondary: Seq<CheckObject>,
    primary_hash: u64,
    secondary_hash: u64,
    output: OutputMode,
)
    ensures
        batch_outputs(first + second, primary, secondary, primary_hash, secondary_hash, output)
            == batch_outputs(first, primary, secondary, primary_hash, secondary_hash, output)
            + batch_outputs(second, primary, secondary, primary_hash, secondary_hash, output),
    decreases second.len(),
{
    if second.len() == 0 {
        assert(first + second =~= first);
        assert(batch_outputs(second, primary, secondary, primary_hash, secondary_hash, output)
            =~= Seq::<u64>::empty());
        assert(batch_outputs(first, primary, secondary, primary_hash, secondary_hash, output)
            + Seq::<u64>::empty() =~= batch_outputs(first, primary, secondary, primary_hash, secondary_hash, output));
    } else {
        let init = second.drop_last();
        lemma_batch_outputs_append(first, init, primary, secondary, primary_hash, secondary_hash, output);
        assert((first + second).drop_last() =~= first + init);
        assert((first + second).last() == second.last());
        let t = candidate_outputs(second.last(), 4096, primary, secondary, primary_hash, secondary_hash, output);
        let x = batch_outputs(first, primary, secondary, primary_hash, secondary_hash, output);
        let y = batch_outputs(init, primary, secondary, primary_hash, secondary_hash, output);
        assert(x + y + t =~= x + (y + t));
    }
}

/// The seeds that a run of the batches `ranges` reports, in order, when the
/// device returns `candidates_of(range)` for the batch of each range.
pub open spec fn plan_outputs(
    ranges: Seq<(int, int)>,
    candidates_of: spec_fn((int, int)) -> Seq<u64>,
    primary: Seq<CheckObject>,
    secondary: Seq<CheckObject>,
    primary_hash: u64,
    secondary_hash: u64,
    output: OutputMode,
) -> Seq<u64>
    decreases ranges.len(),
{
    if ranges.len() == 0 {
        Seq::empty()
    } else {
        batch_outputs(candidates_of(ranges[0]), primary, secondary, primary_hash, secondary_hash, output)
            + plan_outputs(
            ranges.drop_first(),
            candidates_of,
            primary,
            secondary,
            primary_hash,
            secondary_hash,
            output,
        )
    }
}

proof fn lemma_plan_outputs_append(
    first: Seq<(int, int)>,
    second: Seq<(int, int)>,
    candidates_of: spec_fn((int, int)) -> Seq<u64>,
    primary: Seq<CheckObject>,
    secondary: Seq<CheckObject>,
    primary_hash: u64,
    secondary_hash: u64,
    output: OutputMode,
)
    ensures
        plan_outputs(first + second, candidates_of, primary, secondary, primary_hash, secondary_hash, output)
            == plan_outputs(first, candidates_of, primary, secondary, primary_hash, secondary_hash, output)
            + plan_outputs(second, candidates_of, primary, secondary, primary_hash, secondary_hash, output),
    decreases first.len(),
{
    if first.len() == 0 {
        assert(first + second =~= second);
        assert(plan_outputs(first, candidates_of, primary, secondary, primary_hash, secondary_hash, output)
            + plan_outputs(second, candidates_of, primary, secondary, primary_hash, secondary_hash, output)
            =~= plan_outputs(second, candidates_of, primary, secondary, primary_hash, secondary_hash, output));
    } else {
        lemma_plan_outputs_append(first.drop_first(), second, candidates_of, primary, secondary, primary_hash, secondary_hash, output);
        assert((first + second).drop_first() =~= first.drop_first() + second);
        assert((first + second)[0] == first[0]);
        let h = batch_outputs(candidates_of(first[0]), primary, secondary, primary_hash, secondary_hash, output);
        let x = plan_outputs(first.drop_first(), candidates_of, primary, secondary, primary_hash, secondary_hash, output);
        let y = plan_outputs(second, candidates_of, primary, secondary, primary_hash, secondary_hash, output);
        assert(h + (x + y) =~= (h + x) + y);
    }
}

/// A range search can be split among devices or machines: for
/// `a <= m <= c` with `m` a multiple of the batch size, and a device that
/// returns the same candidates for the same batch, the seeds that the range
/// search from `a` to `c` reports are those of the search from `a` to `m`
/// followed by those of the search from `m` to `c`.
pub proof fn lemma_range_search_split_outputs(
    search: GpuSearch,
    a: u64,
    m: u64,
    c: u64,
    candidates_of: spec_fn((int, int)) -> Seq<u64>,
)
    requires
        search.config.batch_size > 0,
        a <= m <= c,
        m % (search.config.batch_size as u64) == 0,
    ensures
        ({
            let b = search.config.batch_size;
            let outputs = |r: Seq<(int, int)>|
                plan_outputs(
                    r,
                    candidates_of,
                    search.primary_checks@,
                    search.secondary_checks@,
                    search.primary_hash,
                    search.secondary_hash,
                    search.output,
                );
            outputs(BatchPlan::spec_range_search(a, c, b).ranges()) == outputs(
                BatchPlan::spec_range_search(a, m, b).ranges(),
            ) + outputs(BatchPlan::spec_range_search(m, c, b).ranges())
        }),
{
    let b = search.config.batch_size;
    lemma_range_search_split(a, m, c, b);
    lemma_plan_outputs_append(
        BatchPlan::spec_range_search(a, m, b).ranges(),
        BatchPlan::spec_range_search(m, c, b).ranges(),
        candidates_of,
        search.primary_checks@,
        search.secondary_checks@,
        search.primary_hash,
        search.secondary_hash,
        search.output,
    );
}

} // verus!
