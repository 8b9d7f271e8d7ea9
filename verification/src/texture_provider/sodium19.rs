//! The sodium19 variant: two fixed xor-offsets of the seed, each passed
//! through Stafford mix13, combined by a 17-bit rotation.

use vstd::prelude::*;
use crate::texture_provider::sodium::{stafford_mix13_of, PHI};
use crate::texture_provider::TextureProvider;

verus! {

/// The 64-bit square-root-of-two constant the low word is offset by.
pub const SQRT2: u64 = 0x6A09_E667_F3BC_C909;

/// Rotate a 64-bit pattern left by 17 bits.
pub open spec fn rotl17(v: u64) -> u64 {
    (v << 17) | (v >> 47)
}

/// The full sodium19 pseudo-random function.
pub open spec fn sodium19_random_of(seed: i64) -> i32 {
    let lo = stafford_mix13_of((seed as u64) ^ SQRT2);
    let hi = stafford_mix13_of(((seed as u64) ^ SQRT2).wrapping_add(PHI));
    rotl17(lo.wrapping_add(hi)).wrapping_add(lo) as i32
}

#[derive(Clone, Copy, Default)]
pub struct Sodium19Textures {}

impl TextureProvider for Sodium19Textures {
    open spec fn random_of(seed: i64) -> i32 {
        sodium19_random_of(seed)
    }

    fn random(&self, seed: i64) -> (r: i32) {
        let l: u64 = #[verifier::truncate] (seed as u64) ^ SQRT2;
        let m: u64 = l.wrapping_add(PHI);

        let lo: u64 = crate::texture_provider::sodium::stafford_mix13_u64(l);
        let hi: u64 = crate::texture_provider::sodium::stafford_mix13_u64(m);

        let combined: u64 = lo.wrapping_add(hi);
        let rotated: u64 = (combined << 17) | (combined >> 47);
        #[verifier::truncate] (rotated.wrapping_add(lo) as i32)
    }
}

} // verus!
