//! Observed blocks, the bedrock the Nether generator places, and the checks
//! that reject surface seeds disagreeing with an observation.

use vstd::prelude::*;
use vstd::arithmetic::div_mod::{lemma_add_mod_noop, lemma_mod_bound, lemma_mul_mod_noop_left, lemma_small_mod};
use vstd::arithmetic::mul::lemma_mul_inequality;
use crate::lcg::{MASK48, modulus, java_multiplier, lcg_step, lcg_multiplier};

verus! {

/// `"minecraft:bedrock_floor".hashCode()`: mixed into the shared bedrock
/// seed to give the floor's random.
pub const FLOOR_HASH: u64 = 2042456806;

/// `"minecraft:bedrock_roof".hashCode()`: mixed into the shared bedrock seed
/// to give the roof's random.
pub const ROOF_HASH: u64 = 343340730;

/// What was seen at a position.
#[allow(non_camel_case_types)]
#[derive(Clone, Copy, Debug, PartialEq, Eq, Structural)]
pub enum BlockType {
    BEDROCK,
    OTHER,
}

/// One observed block.
#[derive(Clone, Copy, Debug, PartialEq, Eq, Structural)]
pub struct Block {
    pub x: i32,
    pub y: i32,
    pub z: i32,
    pub block_type: BlockType,
}

impl Block {
    pub fn new(x: i32, y: i32, z: i32, block_type: BlockType) -> (b: Block)
        ensures
            b == (Block { x, y, z, block_type }),
    {
        Block { x, y, z, block_type }
    }
}

/// The bedrock generation that the observed world used. Only vanilla
/// generation is modelled; the separate generation of PaperMC before
/// 1.19.2-213 is not, and worlds made by it are not found.
#[derive(Clone, Copy, Debug, PartialEq, Eq, Structural)]
pub enum BedrockGeneration {
    /// Vanilla generation, as of Minecraft 1.18.
    Normal,
}

/// What a search reports for each match.
#[derive(Clone, Copy, Debug, PartialEq, Eq, Structural)]
pub enum OutputMode {
    /// Full 64-bit world seeds that `nextLong()` can produce.
    WorldSeed,
    /// The 48-bit structure seeds.
    StructureSeed,
}

/// Minecraft's `Mth.getSeed(x, y, z)`, the positional part of a block's
/// random: Java `int` and `long` arithmetic, wrapping.
pub open spec fn spec_pos_seed(x: i32, y: i32, z: i32) -> i64 {
    let l: i64 = (x.wrapping_mul(3129871) as i64) ^ (((z as i64) * 116129781) as i64) ^ (y as i64);
    l.wrapping_mul(l).wrapping_mul(42317861).wrapping_add(l.wrapping_mul(11)) >> 16
}

/// `Mth.getSeed(x, y, z)`.
pub fn pos_seed(x: i32, y: i32, z: i32) -> (r: i64)
    ensures
        r == spec_pos_seed(x, y, z),
        r == mth_get_seed(x, y, z),
{
    proof {
        lemma_pos_seed_is_get_seed(x, y, z);
    }
    let a: i64 = x.wrapping_mul(3129871) as i64;
    let b: i64 = (z as i64) * 116129781;
    let l: i64 = a ^ b ^ (y as i64);
    l.wrapping_mul(l).wrapping_mul(42317861).wrapping_add(l.wrapping_mul(11)) >> 16
}

/// The value in `[-2^31, 2^31)` that equals `v` modulo 2^32: what Java's
/// `int` arithmetic keeps of an exact result.
pub open spec fn java_int(v: int) -> int {
    (v + 0x8000_0000) % 0x1_0000_0000 - 0x8000_0000
}

/// The value in `[-2^63, 2^63)` that equals `v` modulo 2^64: what Java's
/// `long` arithmetic keeps of an exact result.
pub open spec fn java_long(v: int) -> int {
    (v + 0x8000_0000_0000_0000) % 0x1_0000_0000_0000_0000 - 0x8000_0000_0000_0000
}

/// `Mth.getSeed(x, y, z)` as Minecraft's source writes it:
/// `long l = (long)(x * 3129871) ^ (long)z * 116129781L ^ (long)y;`
/// `l = l * l * 42317861L + l * 11L;` `return l >> 16;`
/// The product `x * 3129871` is an `int` product, so it wraps to 32 bits
/// before it is widened; the rest is `long` arithmetic.
pub open spec fn mth_get_seed(x: i32, y: i32, z: i32) -> i64 {
    let l: i64 = (java_int(x * 3129871) as i64) ^ ((z * 116129781) as i64) ^ (y as i64);
    (java_long(l * l * 42317861 + l * 11) as i64) >> 16
}

/// A value congruent to `w` modulo `2h`, with `w` in `[-h, h)`, wraps to `w`.
proof fn lemma_wraps_to(v: int, w: int, k: int, h: int)
    requires
        0 < h,
        v == w + 2 * h * k,
        -h <= w < h,
    ensures
        (v + h) % (2 * h) - h == w,
{
    vstd::arithmetic::div_mod::lemma_mod_multiples_vanish(k, w + h, 2 * h);
    assert(v + h == 2 * h * k + (w + h));
    lemma_small_mod((w + h) as nat, (2 * h) as nat);
}

/// `i32` wrapping keeps its argument modulo 2^32.
proof fn lemma_crop_i32(v: int) -> (k: int)
    ensures
        v == vstd::wrapping::i32_specs::signed_crop(v) as int + 0x1_0000_0000 * k,
{
    let r: int = 0x1_0000_0000;
    vstd::arithmetic::div_mod::lemma_fundamental_div_mod(v, r);
    lemma_mod_bound(v, r);
    if v % r > 0x7FFF_FFFF {
        v / r + 1
    } else {
        v / r
    }
}

/// `i64` wrapping keeps its argument modulo 2^64.
proof fn lemma_crop_i64(v: int) -> (k: int)
    ensures
        v == vstd::wrapping::i64_specs::signed_crop(v) as int + 0x1_0000_0000_0000_0000 * k,
{
    let r: int = 0x1_0000_0000_0000_0000;
    vstd::arithmetic::div_mod::lemma_fundamental_div_mod(v, r);
    lemma_mod_bound(v, r);
    if v % r > 0x7FFF_FFFF_FFFF_FFFF {
        v / r + 1
    } else {
        v / r
    }
}

/// The position seed is Java's `Mth.getSeed`: for every position, the
/// wrapping computation gives what Java's `int` product of `x` and the
/// `long` arithmetic after it give.
pub proof fn lemma_pos_seed_is_get_seed(x: i32, y: i32, z: i32)
    ensures
        spec_pos_seed(x, y, z) == mth_get_seed(x, y, z),
{
    let a: i32 = x.wrapping_mul(3129871);
    let k0 = lemma_crop_i32(x * 3129871);
    lemma_wraps_to(x * 3129871, a as int, k0, 0x8000_0000);
    assert(java_int(x * 3129871) == a as int);
    let l: i64 = (a as i64) ^ (((z as i64) * 116129781) as i64) ^ (y as i64);
    let r: int = 0x1_0000_0000_0000_0000;
    let p: i64 = l.wrapping_mul(l);
    let k1 = lemma_crop_i64(l * l);
    let q: i64 = p.wrapping_mul(42317861);
    let k2 = lemma_crop_i64(p * 42317861);
    let c: i64 = l.wrapping_mul(11);
    let k3 = lemma_crop_i64(l * 11);
    let d: i64 = q.wrapping_add(c);
    let k4: int = if q + c > i64::MAX { 1 } else if q + c < i64::MIN { -1 } else { 0 };
    assert(q + c == d + r * k4);
    let ll: int = l * l;
    assert(p == ll - r * k1);
    assert(p * 42317861 == ll * 42317861 - r * (k1 * 42317861)) by (nonlinear_arith)
        requires
            p == ll - r * k1,
    ;
    assert(ll * 42317861 + l * 11 == d + r * (k1 * 42317861 + k2 + k3 + k4)) by (nonlinear_arith)
        requires
            p * 42317861 == ll * 42317861 - r * (k1 * 42317861),
            p * 42317861 == q + r * k2,
            l * 11 == c + r * k3,
            q + c == d + r * k4,
    ;
    lemma_wraps_to(ll * 42317861 + l * 11, d as int, k1 * 42317861 + k2 + k3 + k4, 0x8000_0000_0000_0000);
    assert(java_long(l * l * 42317861 + l * 11) == d as int);
}

/// The bedrock chance of a gradient layer: at `step` blocks (1 to 4) into a
/// five-block gradient, a 24-bit output `n` is below the layer's threshold
/// exactly when `n / 2^24 < 1 - step / 5`.
pub proof fn lemma_gradient_threshold_chance(step: int, n: int)
    requires
        1 <= step <= 4,
        0 <= n < 0x100_0000,
    ensures
        (n < gradient_threshold(step)) == (5 * n < (5 - step) * 0x100_0000),
{
}

/// The bedrock chance of each layer, with `out24` the top 24 bits of the
/// block's first state (its `nextFloat()` is `out24 / 2^24`): a floor layer
/// y = 1 .. 4 is bedrock when `out24 / 2^24 < (5 - y) / 5` (chance 80, 60, 40,
/// 20%), a roof layer y = 123 .. 126 when `out24 / 2^24 >= (127 - y) / 5`
/// (chance 20, 40, 60, 80%).
pub proof fn lemma_bedrock_layer_chance(seed: u64, x: i32, y: i32, z: i32)
    ensures
        1 <= y <= 4 ==> (generates_bedrock(seed, x, y, z) == (5 * (first_state(seed, x, y, z)
            / 0x100_0000) < (5 - y) * 0x100_0000)),
        123 <= y <= 126 ==> (generates_bedrock(seed, x, y, z) == (5 * (first_state(seed, x, y, z)
            / 0x100_0000) >= (127 - y) * 0x100_0000)),
{
    let s = first_state(seed, x, y, z);
    lemma_mod_bound(
        ((seed ^ (spec_pos_seed(x, y, z) as u64) ^ java_multiplier()) as int) % modulus() * 0x5DEECE66D
            + 11,
        modulus(),
    );
    assert(0 <= s < modulus());
    let out24 = s / 0x100_0000;
    assert(0 <= out24 < 0x100_0000);
    if 1 <= y <= 4 {
        lemma_gradient_threshold_chance(y as int, out24);
    }
    if 123 <= y <= 126 {
        lemma_gradient_threshold_chance(y - 122, out24);
    }
}

/// For a gradient layer `step` (1 to 4) blocks into a five-block bedrock
/// gradient, the number of 24-bit outputs `n` with `n / 2^24 < 1 - step / 5`
/// when the bound is evaluated in double precision: `nextFloat() < bound`
/// holds exactly for the outputs below this number.
pub open spec fn gradient_threshold(step: int) -> int {
    if step == 1 {
        0xcccccd
    } else if step == 2 {
        0x99999a
    } else if step == 3 {
        0x666667
    } else {
        0x333334
    }
}

/// The state of a block's random after its first step, for the surface seed
/// `surface_seed` (the seed of the floor's or the roof's positional random).
pub open spec fn first_state(surface_seed: u64, x: i32, y: i32, z: i32) -> int {
    lcg_step(
        ((surface_seed ^ (spec_pos_seed(x, y, z) as u64) ^ java_multiplier()) as int) % modulus(),
    )
}

/// Whether the Nether generator places bedrock at `(x, y, z)` for the surface
/// seed `surface_seed`: below y 64 the floor gradient (always at y <= 0,
/// with chance 4/5 .. 1/5 at y 1 to 4, never above), from y 64 on the roof
/// gradient (always at y >= 127, with chance 1/5 .. 4/5 at y 123 to 126, never
/// below). The chance is drawn as `nextFloat()` of the block's random.
pub open spec fn generates_bedrock(surface_seed: u64, x: i32, y: i32, z: i32) -> bool {
    let out24 = first_state(surface_seed, x, y, z) / 0x100_0000;
    if y < 64 {
        y <= 0 || (y < 5 && out24 < gradient_threshold(y as int))
    } else {
        y >= 127 || (y > 122 && out24 >= gradient_threshold(y - 122))
    }
}

/// Whether the block generated for `surface_seed` is the one observed.
pub open spec fn block_agrees(surface_seed: u64, block: Block) -> bool {
    generates_bedrock(surface_seed, block.x, block.y, block.z) == (block.block_type
        == BlockType::BEDROCK)
}

/// The 48-bit value that a check compares: one LCG multiplication of the seed
/// mixed with the position, plus an offset.
pub open spec fn check_value(seed: u64, pos_hash: u64, offset: u64) -> int {
    (((seed ^ pos_hash) as int) * 0x5DEECE66D + offset as int) % modulus()
}

/// `x & MASK48` keeps the value modulo 2^48.
pub proof fn lemma_mask48_is_mod(x: u64)
    ensures
        x & MASK48 == x % 0x1_0000_0000_0000,
{
    assert(x & 0xFFFF_FFFF_FFFF == x % 0x1_0000_0000_0000) by (bit_vector);
}

/// The wrapping 64-bit computation of a check equals its 48-bit value.
pub proof fn lemma_wrapping_check_value(seed: u64, pos_hash: u64, offset: u64, m: u64)
    requires
        m == java_multiplier(),
    ensures
        ((seed ^ pos_hash).wrapping_mul(m).wrapping_add(offset) & MASK48) as int == check_value(
            seed,
            pos_hash,
            offset,
        ),
{
    let x: u64 = seed ^ pos_hash;
    let a: int = (x as int * m as int) % 0x1_0000_0000_0000_0000;
    let w: u64 = x.wrapping_mul(m).wrapping_add(offset);
    assert(w as int == (a + offset) % 0x1_0000_0000_0000_0000) by {
        if a + offset >= 0x1_0000_0000_0000_0000 {
            lemma_small_mod((a + offset - 0x1_0000_0000_0000_0000) as nat, 0x1_0000_0000_0000_0000);
            vstd::arithmetic::div_mod::lemma_mod_add_multiples_vanish(
                a + offset - 0x1_0000_0000_0000_0000,
                0x1_0000_0000_0000_0000,
            );
        } else {
            lemma_small_mod((a + offset) as nat, 0x1_0000_0000_0000_0000);
        }
    }
    lemma_mask48_is_mod(w);
    vstd::arithmetic::div_mod::lemma_mod_mod(a + offset, 0x1_0000_0000_0000, 0x1_0000);
    vstd::arithmetic::div_mod::lemma_mod_mod(x as int * m as int, 0x1_0000_0000_0000, 0x1_0000);
    lemma_add_mod_noop(a, offset as int, 0x1_0000_0000_0000);
    lemma_add_mod_noop(x as int * m as int, offset as int, 0x1_0000_0000_0000);
}

/// A test of one observed block against a candidate seed: `check` is true
/// when the seed contradicts the observation.
#[derive(Clone, Copy, Debug, PartialEq, Eq, Structural)]
pub struct CheckObject {
    pub pos_hash: u64,
    pub condition: u64,
    pub offset: u64,
}

impl CheckObject {
    /// Whether this check rejects `seed`.
    pub open spec fn rejects(self, seed: u64) -> bool {
        check_value(seed, self.pos_hash, self.offset) < self.condition
    }

    /// True when `seed` contradicts the observation this check stands for.
    pub fn check(&self, seed: u64) -> (r: bool)
        ensures
            r == self.rejects(seed),
    {
        let m = lcg_multiplier();
        proof {
            lemma_wrapping_check_value(seed, self.pos_hash, self.offset, m);
        }
        ((seed ^ self.pos_hash).wrapping_mul(m).wrapping_add(self.offset) & MASK48) < self.condition
    }

    pub fn pos_hash(&self) -> (r: u64)
        ensures
            r == self.pos_hash,
    {
        self.pos_hash
    }

    pub fn condition(&self) -> (r: u64)
        ensures
            r == self.condition,
    {
        self.condition
    }

    pub fn offset(&self) -> (r: u64)
        ensures
            r == self.offset,
    {
        self.offset
    }
}

/// `(offset, condition)` of a check that rejects exactly the first states
/// below `c`.
pub open spec fn reject_below(c: int) -> (u64, u64) {
    (11, c as u64)
}

/// `(offset, condition)` of a check that rejects exactly the first states at
/// or above `c`: the offset turns the state back by `c` modulo 2^48.
pub open spec fn reject_at_or_above(c: int) -> (u64, u64) {
    ((11 + modulus() - c) as u64, (modulus() - c) as u64)
}

/// `(offset, condition)` of a check that rejects no seed.
pub open spec fn reject_none() -> (u64, u64) {
    (11, 0)
}

/// `(offset, condition)` of a check that rejects every seed.
pub open spec fn reject_all() -> (u64, u64) {
    (11, modulus() as u64)
}

/// The check for a block observed at height `y`, as bedrock when `bedrock`.
pub open spec fn block_rejection(y: i32, bedrock: bool) -> (u64, u64) {
    if y < 64 {
        if y <= 0 {
            if bedrock { reject_none() } else { reject_all() }
        } else if y < 5 {
            let c = gradient_threshold(y as int) * 0x100_0000;
            if bedrock { reject_at_or_above(c) } else { reject_below(c) }
        } else {
            if bedrock { reject_all() } else { reject_none() }
        }
    } else {
        if y >= 127 {
            if bedrock { reject_none() } else { reject_all() }
        } else if y > 122 {
            let c = gradient_threshold(y - 122) * 0x100_0000;
            if bedrock { reject_below(c) } else { reject_at_or_above(c) }
        } else {
            if bedrock { reject_all() } else { reject_none() }
        }
    }
}

/// What one observed block says about surface seeds: the position's hash,
/// as the check mixes it into a seed, and the exact check's offset and
/// condition.
#[derive(Clone, Copy, Debug, PartialEq, Eq, Structural)]
pub struct BlockFilter {
    pub pos_hash: u64,
    pub offset: u64,
    pub condition: u64,
}

/// The position's hash as checks use it: `Mth.getSeed` with the scrambling
/// of `new Random(..)` applied, in 48 bits.
pub open spec fn spec_pos_hash(x: i32, y: i32, z: i32) -> u64 {
    ((spec_pos_seed(x, y, z) as u64) ^ java_multiplier()) & MASK48
}

/// The filter of one observed block.
pub open spec fn spec_block_filter(block: Block) -> BlockFilter {
    let r = block_rejection(block.y, block.block_type == BlockType::BEDROCK);
    BlockFilter { pos_hash: spec_pos_hash(block.x, block.y, block.z), offset: r.0, condition: r.1 }
}

/// The low `bits` bits of a seed.
pub open spec fn unknown_bits_mask(bits: u32) -> u64 {
    ((1u64 << bits) - 1) as u64
}

/// How far the value of a check can move when the low `bits` bits of the
/// seed are unknown.
pub open spec fn unknown_span(bits: u32) -> int {
    unknown_bits_mask(bits) as int * 0x5DEECE66D
}

/// The share of seeds that a filter lets pass, in 24-bit fixed point.
pub open spec fn pass_weight(f: BlockFilter) -> int {
    if f.condition as int >= modulus() {
        0
    } else {
        (modulus() - f.condition) / 0x100_0000
    }
}

/// The share of all seeds that pass every filter, in 32-bit fixed point,
/// rounded down after each filter: smaller means the filters reject more.
pub open spec fn filter_power(filters: Seq<BlockFilter>) -> int
    decreases filters.len(),
{
    if filters.len() == 0 {
        0x1_0000_0000
    } else {
        filter_power(filters.drop_last()) * pass_weight(filters.last()) / 0x100_0000
    }
}

impl BlockFilter {
    /// The check that this filter gives when the low `bits` bits of the seed
    /// are left out: the position's hash loses those bits, and the condition
    /// shrinks by the span those bits can add, so that a seed it rejects has
    /// every completion rejected by the exact check.
    pub open spec fn spec_check(self, bits: u32) -> CheckObject {
        CheckObject {
            pos_hash: self.pos_hash & !unknown_bits_mask(bits),
            condition: if self.condition as int > unknown_span(bits) {
                (self.condition - unknown_span(bits)) as u64
            } else {
                0
            },
            offset: self.offset,
        }
    }

    /// The filter of an observed block.
    pub fn from(block: &Block, mode: BedrockGeneration) -> (f: BlockFilter)
        ensures
            f == spec_block_filter(*block),
    {
        match mode {
            BedrockGeneration::Normal => {},
        }
        let ps = pos_seed(block.x, block.y, block.z);
        let m = lcg_multiplier();
        let pos_hash = ((ps as u64) ^ m) & MASK48;
        let bedrock = match block.block_type {
            BlockType::BEDROCK => true,
            BlockType::OTHER => false,
        };
        let (offset, condition) = rejection(block.y, bedrock);
        BlockFilter { pos_hash, offset, condition }
    }

    /// The check of this filter with the low `bits` bits of the seed left
    /// out; `create_check(0)` is the exact check.
    pub fn create_check(&self, bits: u32) -> (c: CheckObject)
        requires
            bits < 48,
        ensures
            c == self.spec_check(bits),
    {
        assert(1u64 << bits >= 1) by (bit_vector)
            requires
                bits < 48,
        ;
        let mask: u64 = (1u64 << bits) - 1;
        let span: u128 = mask as u128 * 0x5DEECE66D;
        let condition: u64 = if self.condition as u128 > span {
            (self.condition as u128 - span) as u64
        } else {
            0
        };
        CheckObject { pos_hash: self.pos_hash & !mask, condition, offset: self.offset }
    }
}

/// The exact check of a filter is the filter's own offset and condition.
pub proof fn lemma_exact_check(f: BlockFilter)
    ensures
        f.spec_check(0) == (CheckObject { pos_hash: f.pos_hash, condition: f.condition, offset: f.offset }),
{
    let ph = f.pos_hash;
    assert(((1u64 << 0u32) - 1) as u64 == 0u64) by (bit_vector);
    assert(ph & !0u64 == ph) by (bit_vector);
}

/// The value of a block's check, for an offset `11 + k`, is its first state
/// moved on by `k` modulo 2^48.
proof fn lemma_check_value_first_state(seed: u64, block: Block, k: int)
    requires
        0 <= k < modulus(),
    ensures
        check_value(seed, spec_pos_hash(block.x, block.y, block.z), (11 + k) as u64) == (first_state(
            seed,
            block.x,
            block.y,
            block.z,
        ) + k) % modulus(),
{
    let p: u64 = spec_pos_seed(block.x, block.y, block.z) as u64;
    let m: u64 = java_multiplier();
    let ph = spec_pos_hash(block.x, block.y, block.z);
    let xs: u64 = seed ^ ph;
    let xf: u64 = seed ^ p ^ m;
    assert((seed ^ ((p ^ m) & 0xFFFF_FFFF_FFFF)) & 0xFFFF_FFFF_FFFF == (seed ^ p ^ m)
        & 0xFFFF_FFFF_FFFF) by (bit_vector);
    lemma_mask48_is_mod(xs);
    lemma_mask48_is_mod(xf);
    let q = modulus();
    let s = first_state(seed, block.x, block.y, block.z);
    let r = xf as int % q;
    assert(xs as int % q == r);
    // the mixed seed is reduced modulo 2^48 before it is multiplied
    lemma_mul_mod_noop_left(xs as int, 0x5DEECE66D, q);
    lemma_mul_mod_noop_left(xf as int, 0x5DEECE66D, q);
    assert((xs as int * 0x5DEECE66D) % q == (r * 0x5DEECE66D) % q);
    lemma_add_mod_noop(xs as int * 0x5DEECE66D, 11 + k, q);
    lemma_add_mod_noop(r * 0x5DEECE66D, 11 + k, q);
    assert(check_value(seed, ph, (11 + k) as u64) == (r * 0x5DEECE66D + 11 + k) % q);
    assert(s == (r * 0x5DEECE66D + 11) % q);
    lemma_add_mod_noop(r * 0x5DEECE66D + 11, k, q);
    lemma_mod_bound(r * 0x5DEECE66D + 11, q);
    lemma_small_mod(s as nat, q as nat);
    lemma_small_mod(k as nat, q as nat);
    lemma_add_mod_noop(s, k, q);
}

/// For a 48-bit state, its top 24 bits are below `t` exactly when the state
/// is below `t * 2^24`.
proof fn lemma_top_bits_below(state: int, t: int)
    requires
        0 <= state,
        0 <= t,
    ensures
        (state / 0x100_0000 < t) == (state < t * 0x100_0000),
{
    vstd::arithmetic::div_mod::lemma_fundamental_div_mod(state, 0x100_0000);
    lemma_mod_bound(state, 0x100_0000);
    if state / 0x100_0000 < t {
        lemma_mul_inequality(state / 0x100_0000 + 1, t, 0x100_0000);
    } else {
        lemma_mul_inequality(t, state / 0x100_0000, 0x100_0000);
    }
}

/// The exact check of an observed block rejects a surface seed exactly when
/// the generator, seeded with it, places a block other than the one observed.
pub proof fn lemma_block_check_exact(block: Block, seed: u64)
    ensures
        spec_block_filter(block).spec_check(0).rejects(seed) == !block_agrees(seed, block),
{
    let f = spec_block_filter(block);
    lemma_exact_check(f);
    let q = modulus();
    let s = first_state(seed, block.x, block.y, block.z);
    lemma_mod_bound(s, q);
    let ph = spec_pos_hash(block.x, block.y, block.z);
    let y = block.y;
    lemma_check_value_first_state(seed, block, 0);
    lemma_small_mod(s as nat, q as nat);
    let step: int = if y < 64 { y as int } else { y - 122 };
    if (y < 64 && 0 < y < 5) || (y >= 64 && 122 < y < 127) {
        let c = gradient_threshold(step) * 0x100_0000;
        lemma_top_bits_below(s, gradient_threshold(step));
        lemma_check_value_first_state(seed, block, q - c);
        if s >= c {
            lemma_small_mod((s - c) as nat, q as nat);
            vstd::arithmetic::div_mod::lemma_mod_add_multiples_vanish(s - c, q);
        } else {
            lemma_small_mod((s + q - c) as nat, q as nat);
        }
    }
}

/// The value of a check depends on the mixed seed only modulo 2^48.
proof fn lemma_check_value_mod(x: u64, pos_hash: u64, offset: u64, r: int)
    requires
        r == (x ^ pos_hash) as int % modulus(),
    ensures
        check_value(x, pos_hash, offset) == (r * 0x5DEECE66D + offset) % modulus(),
{
    let q = modulus();
    let v = (x ^ pos_hash) as int;
    lemma_mul_mod_noop_left(v, 0x5DEECE66D, q);
    lemma_add_mod_noop(v * 0x5DEECE66D, offset as int, q);
    lemma_add_mod_noop(r * 0x5DEECE66D, offset as int, q);
}

/// A check treats two seeds alike when their low 48 bits agree.
pub proof fn lemma_check_low_bits(check: CheckObject, a: u64, b: u64)
    requires
        a as int % modulus() == b as int % modulus(),
    ensures
        check.rejects(a) == check.rejects(b),
{
    crate::lcg::lemma_xor_low_bits(a, b, check.pos_hash);
    lemma_check_value_mod(a, check.pos_hash, check.offset, (a ^ check.pos_hash) as int % modulus());
    lemma_check_value_mod(b, check.pos_hash, check.offset, (a ^ check.pos_hash) as int % modulus());
}

/// A check with the low `bits` bits of the seed left out is sound: when it
/// rejects a seed whose low `bits` bits are zero, the exact check rejects
/// that seed with any low bits filled in.
pub proof fn lemma_partial_check_sound(f: BlockFilter, bits: u32, upper: u64, lower: u64)
    requires
        bits < 48,
        upper & unknown_bits_mask(bits) == 0,
        lower <= unknown_bits_mask(bits),
        f.spec_check(bits).rejects(upper),
    ensures
        f.spec_check(0).rejects(upper | lower),
{
    lemma_exact_check(f);
    let q = modulus();
    let m = unknown_bits_mask(bits);
    let ph = f.pos_hash;
    let phh: u64 = ph & !m;
    let phl: u64 = ph & m;
    assert(((upper | lower) ^ ph) & 0xFFFF_FFFF_FFFF == ((upper ^ phh) & 0xFFFF_FFFF_FFFF) + (
    lower ^ phl) && (lower ^ phl) <= m && m < 0x1_0000_0000_0000) by (bit_vector)
        requires
            bits < 48,
            m == ((1u64 << bits) - 1) as u64,
            upper & m == 0,
            lower <= m,
            phh == ph & !m,
            phl == ph & m,
    ;
    let a = ((upper ^ phh) & MASK48) as int;
    let e = (lower ^ phl) as int;
    lemma_mask48_is_mod((upper | lower) ^ ph);
    lemma_mask48_is_mod(upper ^ phh);
    let off = f.offset;
    lemma_check_value_mod(upper | lower, ph, off, a + e);
    lemma_check_value_mod(upper, phh, off, a);
    let gv = check_value(upper, phh, off);
    let ev = check_value(upper | lower, ph, off);
    lemma_mod_bound(a * 0x5DEECE66D + off, q);
    lemma_mod_bound((a + e) * 0x5DEECE66D + off, q);
    if f.condition as int >= q {
    } else {
        let d = unknown_span(bits);
        lemma_mul_inequality(e, m as int, 0x5DEECE66D);
        assert(f.condition as int > d);
        assert((a + e) * 0x5DEECE66D + off == (a * 0x5DEECE66D + off) + e * 0x5DEECE66D) by (nonlinear_arith);
        lemma_add_mod_noop(a * 0x5DEECE66D + off, e * 0x5DEECE66D, q);
        lemma_small_mod((e * 0x5DEECE66D) as nat, q as nat);
        lemma_small_mod((gv + e * 0x5DEECE66D) as nat, q as nat);
    }
}

/// A filter power never exceeds 2^32.
pub proof fn lemma_filter_power_bounded(filters: Seq<BlockFilter>)
    ensures
        0 <= filter_power(filters) <= 0x1_0000_0000,
    decreases filters.len(),
{
    if filters.len() > 0 {
        lemma_filter_power_bounded(filters.drop_last());
        let p = filter_power(filters.drop_last());
        let w = pass_weight(filters.last());
        assert(0 <= w <= 0x100_0000) by {
            if filters.last().condition as int <= modulus() {
                vstd::arithmetic::div_mod::lemma_div_is_ordered(
                    modulus() - filters.last().condition,
                    modulus(),
                    0x100_0000,
                );
            }
        }
        assert(0 <= p * w / 0x100_0000 <= p) by (nonlinear_arith)
            requires
                0 <= p,
                0 <= w <= 0x100_0000,
        ;
    }
}

/// The share of all surface seeds that the filters let pass, in 32-bit
/// fixed point (see `filter_power`).
pub fn get_filter_power(filters: &[BlockFilter]) -> (power: u64)
    ensures
        power == filter_power(filters@),
{
    let mut power: u64 = 0x1_0000_0000;
    let n = filters.len();
    for i in 0..n
        invariant
            n == filters@.len(),
            power == filter_power(filters@.take(i as int)),
    {
        proof {
            lemma_filter_power_bounded(filters@.take(i as int));
            assert(filters@.take(i + 1).drop_last() =~= filters@.take(i as int));
        }
        let condition = filters[i].condition;
        let weight: u64 = if condition >= 0x1_0000_0000_0000 {
            0
        } else {
            (0x1_0000_0000_0000 - condition) / 0x100_0000
        };
        assert(weight <= 0x100_0000);
        assert(power as int * weight as int <= 0x1_0000_0000 * 0x100_0000) by (nonlinear_arith)
            requires
                power <= 0x1_0000_0000,
                weight <= 0x100_0000,
        ;
        power = power * weight / 0x100_0000;
    }
    assert(filters@.take(n as int) =~= filters@);
    power
}

/// `gradient_threshold(step) * 2^24`, the first-state bound of a gradient
/// layer, for `step` from 1 to 4.
fn gradient_bound(step: i32) -> (c: u64)
    requires
        1 <= step <= 4,
    ensures
        c == gradient_threshold(step as int) * 0x100_0000,
        c < modulus(),
{
    let t = gradient_threshold_of(step);
    assert(t < 0x100_0000 ==> t << 24 == t * 0x100_0000) by (bit_vector);
    t << 24
}

/// `block_rejection(y, bedrock)`.
fn rejection(y: i32, bedrock: bool) -> (r: (u64, u64))
    ensures
        r == block_rejection(y, bedrock),
{
    if y < 64 {
        if y <= 0 {
            if bedrock { (11, 0) } else { (11, 0x1_0000_0000_0000) }
        } else if y < 5 {
            let c = gradient_bound(y);
            if bedrock {
                (11 + 0x1_0000_0000_0000 - c, 0x1_0000_0000_0000 - c)
            } else {
                (11, c)
            }
        } else {
            if bedrock { (11, 0x1_0000_0000_0000) } else { (11, 0) }
        }
    } else {
        if y >= 127 {
            if bedrock { (11, 0) } else { (11, 0x1_0000_0000_0000) }
        } else if y > 122 {
            let c = gradient_bound(y - 122);
            if bedrock {
                (11, c)
            } else {
                (11 + 0x1_0000_0000_0000 - c, 0x1_0000_0000_0000 - c)
            }
        } else {
            if bedrock { (11, 0x1_0000_0000_0000) } else { (11, 0) }
        }
    }
}

/// `gradient_threshold(step)` for `step` from 1 to 4.
fn gradient_threshold_of(step: i32) -> (t: u64)
    requires
        1 <= step <= 4,
    ensures
        t == gradient_threshold(step as int),
        t < 0x100_0000,
{
    if step == 1 {
        0xcccccd
    } else if step == 2 {
        0x99999a
    } else if step == 3 {
        0x666667
    } else {
        0x333334
    }
}

} // verus!
