//! The windowed biome cache: a dense row-major grid of biome identifiers
//! over a horizontal rectangle at one representative elevation, served from
//! memory, plus the sizing rule used when the scan runs past a window's edge
//! and a fresh rectangle must be generated.
//!
//! Generating the grid is the biome oracle's job and happens outside this
//! crate; the cache owns the generated buffer and answers point queries
//! from it.

use vstd::prelude::*;

verus! {

/// A generated window of biome identifiers. `buffer` is row-major: all
/// identifiers of the first Z row (ordered by X), then the next row.
pub struct BiomeWindow {
    pub origin_x: i32,
    pub origin_z: i32,
    pub width: i32,
    pub depth: i32,
    pub buffer: Vec<i32>,
}

impl BiomeWindow {
    /// The buffer holds exactly one identifier per cell of the rectangle.
    pub open spec fn wf(self) -> bool {
        &&& 1 <= self.width
        &&& 1 <= self.depth
        &&& self.buffer@.len() == self.width * self.depth
    }

    /// Whether a coordinate falls inside the window's rectangle.
    pub open spec fn in_window(self, x: int, z: int) -> bool {
        &&& self.origin_x <= x < self.origin_x + self.width
        &&& self.origin_z <= z < self.origin_z + self.depth
    }

    /// The identifier stored for an in-window coordinate.
    pub open spec fn cell(self, x: int, z: int) -> i32 {
        self.buffer@[(z - self.origin_z) * self.width + (x - self.origin_x)]
    }

    /// The window's whole rectangle lies inside the given bounds.
    pub open spec fn covers_rect(self, x_lo: int, x_hi: int, z_lo: int, z_hi: int) -> bool {
        &&& self.origin_x <= x_lo && x_hi < self.origin_x + self.width
        &&& self.origin_z <= z_lo && z_hi < self.origin_z + self.depth
    }

    /// The window agrees with a point-query oracle on every cell it holds.
    pub open spec fn models(self, oracle: spec_fn(int, int) -> i32) -> bool {
        forall|x: int, z: int| self.in_window(x, z) ==> #[trigger] self.cell(x, z) == oracle(x, z)
    }

    /// Wrap a generated buffer. The caller hands over one identifier per
    /// cell, first Z row first.
    pub fn new(origin_x: i32, origin_z: i32, width: i32, depth: i32, buffer: Vec<i32>) -> (w: Self)
        requires
            1 <= width,
            1 <= depth,
            buffer@.len() == width * depth,
        ensures
            w.origin_x == origin_x,
            w.origin_z == origin_z,
            w.width == width,
            w.depth == depth,
            w.buffer@ == buffer@,
            w.wf(),
    {
        Self { origin_x, origin_z, width, depth, buffer }
    }

    /// Whether a query for `(x, z)` can be served from this window.
    pub fn is_in_bounds(&self, x: i32, z: i32) -> (r: bool)
        ensures
            r == self.in_window(x as int, z as int),
    {
        x as i64 >= self.origin_x as i64 && (x as i64) < self.origin_x as i64 + self.width as i64
            && z as i64 >= self.origin_z as i64 && (z as i64) < self.origin_z as i64
            + self.depth as i64
    }

    /// Serve a point query from the window.
    pub fn get_biome_at(&self, x: i32, z: i32) -> (r: i32)
        requires
            self.wf(),
            self.in_window(x as int, z as int),
        ensures
            r == self.cell(x as int, z as int),
    {
        let ix: i64 = x as i64 - self.origin_x as i64;
        let iz: i64 = z as i64 - self.origin_z as i64;
        proof {
            assert(0 <= iz * self.width + ix < self.width * self.depth && self.width * self.depth
                < 0x4000_0000_0000_0000) by (nonlinear_arith)
                requires
                    0 <= ix < self.width,
                    0 <= iz < self.depth,
                    self.width < 0x8000_0000,
                    self.depth < 0x8000_0000,
            ;
        }
        let offset: i64 = iz * self.width as i64 + ix;
        let len: usize = self.buffer.len();
        proof {
            assert(offset < len as int);
        }
        self.buffer[offset as usize]
    }
}

/// Cache correctness: a query served from a window that reflects the biome
/// oracle returns exactly what a direct point query to the oracle at the
/// representative elevation would.
pub proof fn lemma_query_matches_oracle(
    w: BiomeWindow,
    oracle: spec_fn(int, int) -> i32,
    x: int,
    z: int,
)
    requires
        w.models(oracle),
        w.in_window(x, z),
    ensures
        w.cell(x, z) == oracle(x, z),
{
}

/// A worker's cache of the current biome window. The window is created
/// lazily on first need and replaced wholesale whenever the scan cursor
/// leaves its rectangle; the probe counter only diagnoses how long a window
/// lived and has no effect on the answers.
pub struct BiomeCacheManager {
    pub window: Option<BiomeWindow>,
    pub probe_count: u64,
}

impl BiomeCacheManager {
    /// The held window, if any, is internally consistent.
    pub open spec fn wf(self) -> bool {
        match self.window {
            Some(w) => w.wf(),
            None => true,
        }
    }

    /// An empty cache: the first query must miss.
    pub fn new() -> (c: Self)
        ensures
            c.window is None,
            c.probe_count == 0,
            c.wf(),
    {
        Self { window: None, probe_count: 0 }
    }

    /// Serve `(x, z)` from the held window. A hit answers with the cached
    /// identifier and counts the probe; a miss (no window yet, or the
    /// coordinate outside its rectangle) answers nothing, and the caller
    /// must generate the planned rectangle and `install` it.
    pub fn lookup(&mut self, x: i32, z: i32) -> (r: Option<i32>)
        requires
            old(self).wf(),
        ensures
            final(self).wf(),
            final(self).window == old(self).window,
            match old(self).window {
                Some(w) => {
                    &&& (w.in_window(x as int, z as int) ==> r == Some(
                        w.cell(x as int, z as int),
                    ) && final(self).probe_count == (if old(self).probe_count < u64::MAX {
                        old(self).probe_count + 1
                    } else {
                        old(self).probe_count as int
                    }))
                    &&& (!w.in_window(x as int, z as int) ==> r is None && final(self).probe_count
                        == old(self).probe_count)
                },
                None => r is None && final(self).probe_count == old(self).probe_count,
            },
    {
        match &self.window {
            Some(w) => {
                if w.is_in_bounds(x, z) {
                    let id = w.get_biome_at(x, z);
                    if self.probe_count < u64::MAX {
                        self.probe_count = self.probe_count + 1;
                    }
                    Some(id)
                } else {
                    None
                }
            },
            None => None,
        }
    }

    /// Replace the cache with a freshly generated window and start a new
    /// probe count.
    pub fn install(&mut self, window: BiomeWindow)
        requires
            window.wf(),
        ensures
            final(self).window == Some(window),
            final(self).probe_count == 0,
            final(self).wf(),
    {
        self.window = Some(window);
        self.probe_count = 0;
    }
}

/// The rectangle to generate next, anchored at the scan cursor.
#[derive(Debug, PartialEq, Eq, Structural, Clone, Copy)]
pub struct WindowRequest {
    pub x: i32,
    pub z: i32,
    pub width: i32,
    pub depth: i32,
}

/// The width the cache manager picks for a fresh window: wide enough that
/// `width * depth` approaches the cell budget, at least one column, and
/// never past the unscanned X extent.
pub open spec fn planned_width(budget: int, depth: int, remaining: int) -> int {
    let ideal = if budget / depth < 1 {
        1int
    } else {
        budget / depth
    };
    if ideal > remaining {
        remaining
    } else {
        ideal
    }
}

/// Plan the rectangle for a regenerated window: anchored at the current
/// scan column `x` and at the domain's `z_min`, spanning the full Z extent,
/// sized toward `cell_budget` cells but clamped to the X extent that is
/// still unscanned.
pub fn plan_window(x: i32, end_x: i32, z_min: i32, z_max: i32, cell_budget: i32) -> (req:
    WindowRequest)
    requires
        x <= end_x,
        z_min <= z_max,
        1 <= cell_budget,
        z_max as int - z_min as int + 1 <= i32::MAX,
    ensures
        req.x == x,
        req.z == z_min,
        req.depth == z_max as int - z_min as int + 1,
        req.width == planned_width(
            cell_budget as int,
            req.depth as int,
            end_x as int - x as int + 1,
        ),
        1 <= req.width <= end_x as int - x as int + 1,
{
    let depth: i64 = z_max as i64 - z_min as i64 + 1;
    let remaining: i64 = end_x as i64 - x as i64 + 1;
    let ideal: i64 = cell_budget as i64 / depth;
    let ideal: i64 = if ideal < 1 {
        1
    } else {
        ideal
    };
    let width: i64 = if ideal > remaining {
        remaining
    } else {
        ideal
    };
    WindowRequest { x, z: z_min, width: width as i32, depth: depth as i32 }
}

} // verus!
