//! One block of a formation: an offset relative to the anchor point and the
//! rotation value expected there.

use vstd::prelude::*;

verus! {

/// The rotation value stored for a block: side blocks are compared modulo 2,
/// so their expected value is reduced into `[0, 2)`; other blocks keep the
/// configured value unchanged.
pub open spec fn normalized_rotation(rotation: i32, is_side: bool) -> i32 {
    if is_side {
        ((rotation as int) % 2) as i32
    } else {
        rotation
    }
}

/// A relative block offset plus the rotation value expected at that offset.
///
/// A value read from configuration must be passed through `fix_rotation`
/// before matching; `new` normalizes on construction.
#[derive(Debug, PartialEq, Eq, Structural, Hash, Clone, Copy)]
pub struct RotationInfo {
    pub x: i32,
    pub y: i32,
    pub z: i32,
    pub rotation: i32,
    pub is_side: bool,
}

impl RotationInfo {
    /// The stored expected rotation is normalized: reduced into `[0, 2)` for
    /// side blocks.
    pub open spec fn wf(self) -> bool {
        self.rotation == normalized_rotation(self.rotation, self.is_side)
    }

    pub fn new(x: i32, y: i32, z: i32, rotation: i32, is_side: bool) -> (info: Self)
        ensures
            info.x == x,
            info.y == y,
            info.z == z,
            info.is_side == is_side,
            info.rotation == normalized_rotation(rotation, is_side),
            info.wf(),
    {
        let fixed: i32 = if is_side {
            let r: i32 = rotation % 2;
            if r < 0 {
                r + 2
            } else {
                r
            }
        } else {
            rotation
        };
        Self { x, y, z, rotation: fixed, is_side }
    }

    /// Reduce the expected rotation of a side block into `[0, 2)`; a block
    /// that is already normalized is left unchanged, so applying this twice
    /// is the same as applying it once.
    pub fn fix_rotation(&mut self)
        ensures
            final(self).x == old(self).x,
            final(self).y == old(self).y,
            final(self).z == old(self).z,
            final(self).is_side == old(self).is_side,
            final(self).rotation == normalized_rotation(old(self).rotation, old(self).is_side),
            final(self).wf(),
    {
        if self.is_side {
            let r: i32 = self.rotation % 2;
            self.rotation = if r < 0 {
                r + 2
            } else {
                r
            };
        }
    }
}

} // verus!
