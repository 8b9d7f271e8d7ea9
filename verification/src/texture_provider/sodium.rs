//! The sodium variant: a 64-bit avalanche mix of the seed, offset by the
//! golden-ratio constant, finished with two Stafford mix13 passes whose
//! results are summed.

use vstd::prelude::*;
use crate::texture_provider::TextureProvider;

verus! {

/// The 64-bit golden-ratio constant.
pub const PHI: u64 = 0x9E37_79B9_7F4A_7C15;

/// Stafford "mix13" finalizer on a 64-bit bit pattern.
pub open spec fn stafford_mix13_of(z: u64) -> u64 {
    let a = (z ^ (z >> 30)).wrapping_mul(0xBF58_476D_1CE4_E5B9);
    let b = (a ^ (a >> 27)).wrapping_mul(0x94D0_49BB_1331_11EB);
    b ^ (b >> 31)
}

pub(crate) fn stafford_mix13_u64(z: u64) -> (r: u64)
    ensures
        r == stafford_mix13_of(z),
{
    let a: u64 = (z ^ (z >> 30)).wrapping_mul(0xBF58_476D_1CE4_E5B9);
    let b: u64 = (a ^ (a >> 27)).wrapping_mul(0x94D0_49BB_1331_11EB);
    b ^ (b >> 31)
}

/// Stafford mix13 on a signed 64-bit value; the mix is defined on the bit
/// pattern, so this is the unsigned mix carried across the sign boundary.
pub fn stafford_mix13(z: i64) -> (r: i64)
    ensures
        r == stafford_mix13_of(z as u64) as i64,
{
    #[verifier::truncate] (stafford_mix13_u64(#[verifier::truncate] (z as u64)) as i64)
}

/// Three xor-shift/multiply avalanche rounds.
pub open spec fn avalanche_of(seed: u64) -> u64 {
    let a = (seed ^ (seed >> 33)).wrapping_mul(0xFF51_AFD7_ED55_8CCD);
    let b = (a ^ (a >> 33)).wrapping_mul(0xC4CE_B9FE_1A85_EC53);
    b ^ (b >> 33)
}

/// The full sodium pseudo-random function.
pub open spec fn sodium_random_of(seed: i64) -> i32 {
    let s = avalanche_of(seed as u64).wrapping_add(PHI);
    stafford_mix13_of(s).wrapping_add(stafford_mix13_of(s.wrapping_add(PHI))) as i32
}

#[derive(Clone, Copy, Default)]
pub struct SodiumTextures {}

impl TextureProvider for SodiumTextures {
    open spec fn random_of(seed: i64) -> i32 {
        sodium_random_of(seed)
    }

    fn random(&self, seed: i64) -> (r: i32) {
        let su: u64 = #[verifier::truncate] (seed as u64);
        let a: u64 = (su ^ (su >> 33)).wrapping_mul(0xFF51_AFD7_ED55_8CCD);
        let b: u64 = (a ^ (a >> 33)).wrapping_mul(0xC4CE_B9FE_1A85_EC53);
        let mixed: u64 = b ^ (b >> 33);

        let s: u64 = mixed.wrapping_add(PHI);
        let rand1: u64 = stafford_mix13_u64(s);
        let rand2: u64 = stafford_mix13_u64(s.wrapping_add(PHI));
        #[verifier::truncate] (rand1.wrapping_add(rand2) as i32)
    }
}

} // verus!
