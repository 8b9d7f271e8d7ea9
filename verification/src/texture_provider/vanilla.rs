//! The vanilla variant: one advance of a 48-bit linear-congruential
//! generator, truncated to 32 bits.

use vstd::prelude::*;
use crate::texture_provider::{asr16, TextureProvider};

verus! {

/// Multiplier the seed is XOR-scrambled with before the step.
pub const MULTIPLIER: u64 = 0x5DEECE66D;

/// Mask keeping the low 48 bits of the generator state.
pub const MASK: u64 = 0xFFFF_FFFF_FFFF;

/// One step of the vanilla generator: scramble, mask to 48 bits, advance,
/// drop the low 16 bits with an arithmetic shift, truncate to 32 bits.
pub open spec fn vanilla_random_of(seed: i64) -> i32 {
    let s = ((seed as u64) ^ MULTIPLIER) & MASK;
    let t = s.wrapping_mul(0xBB20_B460_0A69).wrapping_add(0x40_942D_E6BA);
    asr16(t) as i32
}

#[derive(Clone, Copy, Default)]
pub struct VanillaTextures {}

impl TextureProvider for VanillaTextures {
    open spec fn random_of(seed: i64) -> i32 {
        vanilla_random_of(seed)
    }

    fn random(&self, seed: i64) -> (r: i32) {
        let s: u64 = (#[verifier::truncate] (seed as u64) ^ MULTIPLIER) & MASK;
        let t: u64 = s.wrapping_mul(0xBB20_B460_0A69).wrapping_add(0x40_942D_E6BA);
        #[verifier::truncate] (crate::texture_provider::asr16_exec(t) as i32)
    }
}

} // verus!
