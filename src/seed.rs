//! Reproducible identifiers: a transaction's id and its operations' seeds are derived
//! from the transaction seed by a fixed mixing rule.
use vstd::prelude::*;
use vstd::wrapping::u64_specs::{wrapping_add, wrapping_mul};

verus! {

/// The increment of the mixing rule.
pub const GOLDEN_GAMMA: u64 = 0x9E37_79B9_7F4A_7C15;

/// The first multiplier of the mixing rule.
pub const MIX_MUL_1: u64 = 0xBF58_476D_1CE4_E5B9;

/// The second multiplier of the mixing rule.
pub const MIX_MUL_2: u64 = 0x94D0_49BB_1331_11EB;

/// The mixing rule: a bijection on 64-bit values that spreads every input bit.
pub open spec fn mix_spec(x: u64) -> u64 {
    let z1 = wrapping_add(x, GOLDEN_GAMMA);
    let z2 = wrapping_mul(z1 ^ (z1 >> 30u64), MIX_MUL_1);
    let z3 = wrapping_mul(z2 ^ (z2 >> 27u64), MIX_MUL_2);
    z3 ^ (z3 >> 31u64)
}

/// Mixes one 64-bit value.
pub fn mix(x: u64) -> (r: u64)
    ensures
        r == mix_spec(x),
{
    let z1 = x.wrapping_add(GOLDEN_GAMMA);
    let z2 = (z1 ^ (z1 >> 30u64)).wrapping_mul(MIX_MUL_1);
    let z3 = (z2 ^ (z2 >> 27u64)).wrapping_mul(MIX_MUL_2);
    z3 ^ (z3 >> 31u64)
}

/// The bits of a UUID that its version and variant leave to the caller.
pub const UUID_KEEP: u128 = 0xFFFF_FFFF_FFFF_0FFF_3FFF_FFFF_FFFF_FFFF;

/// The version (random, 4) and variant (RFC 4122) bits of a random UUID.
pub const UUID_V4_SET: u128 = 0x0000_0000_0000_4000_8000_0000_0000_0000;

/// The 128 bits mixed from seed `seed`: the mix of the seed above the mix of its successor.
pub open spec fn seed_bits(seed: u64) -> u128 {
    ((mix_spec(seed) as u128) * 0x1_0000_0000_0000_0000u128 + (mix_spec(
        wrapping_add(seed, 1),
    ) as u128)) as u128
}

/// The id of a transaction started with seed `seed`: a random UUID made of its seed bits.
pub open spec fn tx_id_spec(seed: u64) -> u128 {
    (seed_bits(seed) & UUID_KEEP) | UUID_V4_SET
}

/// Relies on `uuid::Builder::from_random_bytes`, read back with `Uuid::as_u128`: the bytes
/// are kept, big-endian, but for the version nibble, set to 4, and the two variant bits,
/// set to RFC 4122.
#[verifier::external_body]
fn random_uuid(bits: u128) -> (r: u128)
    ensures
        r == (bits & UUID_KEEP) | UUID_V4_SET,
{
    uuid::Builder::from_random_bytes(bits.to_be_bytes()).into_uuid().as_u128()
}

/// The id of a transaction started with seed `seed`.
pub fn tx_id(seed: u64) -> (r: u128)
    ensures
        r == tx_id_spec(seed),
{
    let hi = mix(seed) as u128;
    let lo = mix(seed.wrapping_add(1)) as u128;
    assert(hi * 0x1_0000_0000_0000_0000u128 + lo <= u128::MAX) by (nonlinear_arith)
        requires
            hi <= u64::MAX,
            lo <= u64::MAX,
    ;
    random_uuid(hi * 0x1_0000_0000_0000_0000u128 + lo)
}

/// The seed handed to the operation of node `node` in a transaction seeded with `seed`.
pub open spec fn child_seed_spec(seed: u64, node: u64) -> u64 {
    mix_spec(seed ^ mix_spec(node))
}

/// The seed handed to the operation of node `node` in a transaction seeded with `seed`.
pub fn child_seed(seed: u64, node: u64) -> (r: u64)
    ensures
        r == child_seed_spec(seed, node),
{
    mix(seed ^ mix(node))
}

} // verus!
