//! Deterministic texture-rotation oracles.
//!
//! Every variant maps a block coordinate to a small "rotation" value in two
//! steps: a coordinate hash shared by all variants, then a variant-specific
//! pseudo-random mix of the hash. All arithmetic is fixed-width with
//! intentional wraparound; the hashes are computed on the 64-bit two's
//! complement bit pattern, so the functions below work on `u64` and convert
//! at the boundaries.

use vstd::prelude::*;

pub mod sodium;
pub mod sodium19;
pub mod vanilla;

pub use sodium::SodiumTextures;
pub use sodium19::Sodium19Textures;
pub use vanilla::VanillaTextures;

verus! {

/// Arithmetic (sign-extending) right shift by 16 of a 64-bit bit pattern.
pub open spec fn asr16(v: u64) -> u64 {
    if v >= 0x8000_0000_0000_0000 {
        (v >> 16) | 0xFFFF_0000_0000_0000
    } else {
        v >> 16
    }
}

#[inline]
pub(crate) fn asr16_exec(v: u64) -> (r: u64)
    ensures
        r == asr16(v),
{
    if v >= 0x8000_0000_0000_0000 {
        (v >> 16) | 0xFFFF_0000_0000_0000
    } else {
        v >> 16
    }
}

/// The coordinate hash shared by every variant: combine the coordinates with
/// two large odd multipliers, square-mix, then shift the low bits out with an
/// arithmetic shift.
#[verifier::opaque]
pub open spec fn coordinate_random_of(x: i32, y: i32, z: i32) -> i64 {
    let l = (x as u64).wrapping_mul(3129871) ^ (z as u64).wrapping_mul(116129781) ^ (y as u64);
    let h = l.wrapping_mul(l).wrapping_mul(42317861).wrapping_add(l.wrapping_mul(11));
    asr16(h) as i64
}

/// Magnitude of a 32-bit value as a mathematical integer.
pub open spec fn abs_of(v: i32) -> int {
    if v < 0 {
        -(v as int)
    } else {
        v as int
    }
}

/// Reduce a variant's raw pseudo-random output to a rotation in `[0, modulo)`.
#[verifier::opaque]
pub open spec fn rotation_from(rand: i32, modulo: i32) -> i32 {
    (abs_of(rand) % (modulo as int)) as i32
}

/// The rotation value a variant displays at a coordinate.
pub open spec fn texture_of<T: TextureProvider>(x: i32, y: i32, z: i32, modulo: i32) -> i32 {
    rotation_from(T::random_of(coordinate_random_of(x, y, z)), modulo)
}

/// A deterministic texture-rotation algorithm. `random_of` is the variant's
/// pseudo-random mix; the provided methods derive the displayed rotation
/// value from it and are shared by all variants.
pub trait TextureProvider: Copy + Sized {
    /// The variant's pseudo-random function, as a mathematical map.
    spec fn random_of(seed: i64) -> i32;

    /// Mix a coordinate-hash seed into a 32-bit pseudo-random value.
    fn random(&self, seed: i64) -> (r: i32)
        ensures
            r == Self::random_of(seed),
    ;

    /// Hash a block coordinate into the seed fed to `random`.
    fn get_coordinate_random(&self, x: i32, y: i32, z: i32) -> (r: i64)
        ensures
            r == coordinate_random_of(x, y, z),
    {
        proof {
            reveal(coordinate_random_of);
        }
        let xu: u64 = #[verifier::truncate] (x as u64);
        let zu: u64 = #[verifier::truncate] (z as u64);
        let yu: u64 = #[verifier::truncate] (y as u64);
        let l: u64 = xu.wrapping_mul(3129871) ^ zu.wrapping_mul(116129781) ^ yu;
        let h: u64 = l.wrapping_mul(l).wrapping_mul(42317861).wrapping_add(l.wrapping_mul(11));
        #[verifier::truncate] (asr16_exec(h) as i64)
    }

    /// The rotation value displayed at `(x, y, z)`, in `[0, modulo)`.
    fn get_texture(&self, x: i32, y: i32, z: i32, modulo: i32) -> (r: i32)
        requires
            modulo == 2 || modulo == 4,
        ensures
            r == rotation_from(Self::random_of(coordinate_random_of(x, y, z)), modulo),
            0 <= r < modulo,
    {
        proof {
            reveal(rotation_from);
        }
        let rand: i32 = self.random(self.get_coordinate_random(x, y, z));
        let magnitude: u64 = if rand < 0 {
            (-(rand as i64)) as u64
        } else {
            rand as u64
        };
        (magnitude % (modulo as u64)) as i32
    }
}

/// The displayed rotation is a function of the coordinate, the modulo and the
/// variant alone: any two oracle evaluations at the same arguments agree.
pub proof fn lemma_texture_deterministic<T: TextureProvider>(
    x: i32,
    y: i32,
    z: i32,
    modulo: i32,
    r1: i32,
    r2: i32,
)
    requires
        r1 == texture_of::<T>(x, y, z, modulo),
        r2 == texture_of::<T>(x, y, z, modulo),
    ensures
        r1 == r2,
{
}

/// The rotation values all three variants display at one coordinate, for
/// the point-check command: side textures use modulo 2, the rest modulo 4.
pub fn rotation_values_at(x: i32, y: i32, z: i32, is_side: bool) -> (r: (i32, i32, i32))
    ensures
        r.0 == texture_of::<SodiumTextures>(x, y, z, if is_side { 2i32 } else { 4i32 }),
        r.1 == texture_of::<Sodium19Textures>(x, y, z, if is_side { 2i32 } else { 4i32 }),
        r.2 == texture_of::<VanillaTextures>(x, y, z, if is_side { 2i32 } else { 4i32 }),
{
    let modulo: i32 = if is_side {
        2
    } else {
        4
    };
    let sodium = (SodiumTextures {  }).get_texture(x, y, z, modulo);
    let sodium19 = (Sodium19Textures {  }).get_texture(x, y, z, modulo);
    let vanilla = (VanillaTextures {  }).get_texture(x, y, z, modulo);
    (sodium, sodium19, vanilla)
}

/// Range property: for the two modulo classes in use, the displayed rotation
/// always lies in `[0, modulo)`.
pub proof fn lemma_texture_in_range<T: TextureProvider>(x: i32, y: i32, z: i32, modulo: i32)
    requires
        modulo == 2 || modulo == 4,
    ensures
        0 <= texture_of::<T>(x, y, z, modulo) < modulo,
{
    reveal(rotation_from);
}

} // verus!
