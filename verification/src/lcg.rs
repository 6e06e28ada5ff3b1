//! Java's linear congruential generator, as `java.util.Random` and the world
//! generator use it.

use vstd::prelude::*;

verus! {

/// The 48 bits that Java's LCG keeps as state.
pub const MASK48: u64 = 0xFFFF_FFFF_FFFF;

/// 2^48, the modulus of Java's LCG.
pub open spec fn modulus() -> int {
    0x1_0000_0000_0000
}

/// The multiplier of Java's LCG.
pub open spec fn java_multiplier() -> u64 {
    0x5DEECE66D
}

/// One step of Java's LCG on a 48-bit state.
pub open spec fn lcg_step(state: int) -> int {
    (state * 0x5DEECE66D + 11) % modulus()
}

/// The state that `new Random(seed)` starts from.
pub open spec fn scrambled_state(seed: u64) -> int {
    ((seed ^ java_multiplier()) as int) % modulus()
}

/// `new Random(seed).nextLong()`, taken as an unsigned 64-bit value: the
/// first `next(32)` makes the high half, the second, sign-extended, is added,
/// and the sum wraps as Java's `long` arithmetic does.
pub open spec fn spec_next_long(seed: u64) -> u64 {
    let s1 = lcg_step(scrambled_state(seed));
    let s2 = lcg_step(s1);
    let hi = s1 / 0x1_0000;
    let lo = s2 / 0x1_0000;
    let lo_signed = if lo >= 0x8000_0000 { lo - 0x1_0000_0000 } else { lo };
    ((hi * 0x1_0000_0000 + lo_signed) % 0x1_0000_0000_0000_0000) as u64
}

/// The multiplier of Java's LCG, as `java_random` defines it.
#[verifier::external_body]
pub(crate) fn lcg_multiplier() -> (m: u64)
    ensures
        m == java_multiplier(),
{
    java_random::JAVA_LCG.multiplier
}

/// `new Random(seed).nextLong()` as an unsigned value.
pub fn next_long(seed: u64) -> (r: u64)
    ensures
        r == spec_next_long(seed),
{
    let scrambled: u64 = seed ^ 0x5DEECE66D;
    let s0: u64 = scrambled & MASK48;
    assert(scrambled & 0xFFFF_FFFF_FFFF == scrambled % 0x1_0000_0000_0000) by (bit_vector);
    let s1: u128 = (s0 as u128 * 0x5DEECE66D + 11) % 0x1_0000_0000_0000;
    let s2: u128 = (s1 * 0x5DEECE66D + 11) % 0x1_0000_0000_0000;
    let hi: u128 = s1 / 0x1_0000;
    let lo: u128 = s2 / 0x1_0000;
    let sum: u128 = if lo >= 0x8000_0000 {
        hi * 0x1_0000_0000 + lo + 0xFFFF_FFFF_0000_0000
    } else {
        hi * 0x1_0000_0000 + lo
    };
    let r: u64 = (sum % 0x1_0000_0000_0000_0000) as u64;
    proof {
        let lo_signed: int = if lo >= 0x8000_0000 { lo - 0x1_0000_0000 } else { lo as int };
        if lo >= 0x8000_0000 {
            vstd::arithmetic::div_mod::lemma_mod_add_multiples_vanish(
                hi * 0x1_0000_0000 + lo_signed,
                0x1_0000_0000_0000_0000,
            );
        }
    }
    r
}

/// What `next_long_reverser::get_next_long(seed)` returns: as that crate
/// describes it, the internal 48-bit states that precede `seed` (as the low
/// 48 bits of a `nextLong()` output), in the order it lists them.
pub uninterp spec fn next_long_preimages(seed: u64) -> Seq<u64>;

/// `next_long_reverser::get_next_long(seed)`: the internal states that can
/// precede `seed` as a `nextLong()` output. Claimed: the result is the named
/// sequence of `seed`; it has at most four entries (the source tries two by
/// two candidates and keeps each at most once); and every entry is masked to
/// 48 bits. That each entry really yields `seed` is not claimed.
#[verifier::external_body]
fn next_long_states(seed: u64) -> (states: Vec<u64>)
    ensures
        states@ == next_long_preimages(seed),
        states@.len() <= 4,
        forall|i: int| 0 <= i < states@.len() ==> states@[i] <= MASK48,
{
    next_long_reverser::get_next_long(seed)
}

/// The seeds `s` (for `new Random(s)`) of which `nextLong()` can give `seed`:
/// the preimage states, unscrambled.
pub open spec fn spec_reverse_next_long(seed: u64) -> Seq<u64> {
    next_long_preimages(seed).map_values(|state: u64| state ^ java_multiplier())
}

/// Every seed of `spec_reverse_next_long` fits in 48 bits.
proof fn lemma_reverse_next_long_48_bits(seed: u64)
    requires
        forall|i: int|
            0 <= i < next_long_preimages(seed).len() ==> next_long_preimages(seed)[i] <= MASK48,
    ensures
        forall|i: int|
            0 <= i < spec_reverse_next_long(seed).len() ==> spec_reverse_next_long(seed)[i]
                <= MASK48,
{
    assert forall|i: int| 0 <= i < spec_reverse_next_long(seed).len() implies spec_reverse_next_long(
        seed,
    )[i] <= MASK48 by {
        let x = next_long_preimages(seed)[i];
        assert(x <= 0xFFFF_FFFF_FFFF ==> x ^ 0x5DEECE66D <= 0xFFFF_FFFF_FFFF) by (bit_vector);
    }
}

/// The reverser gives true preimages: every seed it lists for a value makes
/// `nextLong()` yield that value in the low 48 bits. `next_long_reverser`
/// does not promise this outright (it allows for a small numerical error),
/// so laws that rest on it take it as a hypothesis.
pub open spec fn reverser_sound() -> bool {
    forall|value: u64, i: int|
        0 <= i < spec_reverse_next_long(value).len() ==> #[trigger] spec_next_long(
            spec_reverse_next_long(value)[i],
        ) as int % modulus() == value as int % modulus()
}

/// The reverser misses no seed: every seed below 2^48 whose `nextLong()`
/// equals `value` in the low 48 bits is among those it lists for `value`.
/// `next_long_reverser` solves for all such seeds but, like soundness, does
/// not promise it outright (it allows for a small numerical error), so laws
/// that rest on it take it as a hypothesis.
pub open spec fn reverser_complete() -> bool {
    forall|value: u64, p: u64|
        p <= MASK48 && spec_next_long(p) as int % modulus() == value as int % modulus()
            ==> #[trigger] spec_reverse_next_long(value).contains(p)
}

/// `nextLong()` of a seed depends only on the seed's low 48 bits.
pub proof fn lemma_next_long_low_bits(a: u64, b: u64)
    requires
        a as int % modulus() == b as int % modulus(),
    ensures
        spec_next_long(a) == spec_next_long(b),
{
    assert(a % 0x1_0000_0000_0000 == b % 0x1_0000_0000_0000 ==> (a ^ 0x5DEECE66D)
        % 0x1_0000_0000_0000 == (b ^ 0x5DEECE66D) % 0x1_0000_0000_0000) by (bit_vector);
}

/// XOR with the same value keeps two seeds equal in their low 48 bits.
pub proof fn lemma_xor_low_bits(a: u64, b: u64, h: u64)
    requires
        a as int % modulus() == b as int % modulus(),
    ensures
        (a ^ h) as int % modulus() == (b ^ h) as int % modulus(),
{
    assert(a % 0x1_0000_0000_0000 == b % 0x1_0000_0000_0000 ==> (a ^ h) % 0x1_0000_0000_0000
        == (b ^ h) % 0x1_0000_0000_0000) by (bit_vector);
}

/// The seeds from which `nextLong()` can produce `seed`, in the order of the
/// reverser; at most four, each below 2^48.
pub fn reverse_next_long(seed: u64) -> (seeds: Vec<u64>)
    ensures
        seeds@ == spec_reverse_next_long(seed),
        seeds@.len() <= 4,
        forall|i: int| 0 <= i < seeds@.len() ==> seeds@[i] <= MASK48,
{
    let states = next_long_states(seed);
    let m = lcg_multiplier();
    let mut seeds: Vec<u64> = Vec::new();
    let n = states.len();
    for i in 0..n
        invariant
            n == states@.len(),
            states@ == next_long_preimages(seed),
            m == java_multiplier(),
            seeds@ == states@.take(i as int).map_values(|state: u64| state ^ java_multiplier()),
    {
        seeds.push(states[i] ^ m);
        assert(states@.take(i + 1) =~= states@.take(i as int).push(states@[i as int]));
    }
    assert(states@.take(n as int) =~= states@);
    proof {
        lemma_reverse_next_long_48_bits(seed);
    }
    seeds
}

} // verus!
