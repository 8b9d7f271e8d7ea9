//! The scan configuration: the coordinate domain, the worker count, the
//! formation and the options, with the validation the engine performs
//! before any scanning begins, and the construction of the per-worker
//! matcher instances.

use vstd::prelude::*;
use crate::partition::{partition_ranges, ScanRange};
use crate::placement::{sides_of, tops_and_bottoms_of, Placement};
use crate::rotation_info::{normalized_rotation, RotationInfo};
use crate::texture_finder::{
    distinct_records, mismatch_count, offsets_fit_span, record_before, scan_ordered, MatchRecord,
    TextureFinder,
};
use crate::texture_provider::TextureProvider;

verus! {

/// How many blocks of a formation disagree with their expected rotation at
/// a candidate anchor, stated over the raw formation list.
pub open spec fn formation_mismatches<T: TextureProvider>(
    formation: Seq<RotationInfo>,
    x: i32,
    y: i32,
    z: i32,
    rot: int,
    mirrored: bool,
) -> nat {
    mismatch_count::<T>(tops_and_bottoms_of(formation), x, y, z, rot, mirrored)
        + mismatch_count::<T>(sides_of(formation), x, y, z, rot, mirrored)
}

/// The record the engine reports for a matching candidate of a run without
/// a biome filter.
pub open spec fn formation_match_record<T: TextureProvider>(
    formation: Seq<RotationInfo>,
    x: i32,
    y: i32,
    z: i32,
    rot: i32,
    mirrored: bool,
) -> MatchRecord {
    MatchRecord {
        x,
        y,
        z,
        rotation_offset: rot,
        mirrored,
        failures: formation_mismatches::<T>(formation, x, y, z, rot as int, mirrored) as usize,
        biome_id: None,
    }
}

/// Why a configuration was rejected before scanning.
#[derive(Debug, PartialEq, Eq, Structural, Clone, Copy)]
pub enum ConfigError {
    /// `x_min` does not lie strictly below `x_max`.
    InvalidXRange,
    /// `y_min` does not lie strictly below `y_max`.
    InvalidYRange,
    /// `z_min` does not lie strictly below `z_max`.
    InvalidZRange,
    /// The worker count is not positive or exceeds the X extent.
    InvalidThreadCount,
    /// More mismatches would be tolerated than the formation has blocks.
    ExcessiveTolerance,
    /// Some block offset would leave the 32-bit coordinate space.
    OffsetOutOfRange,
}

/// Everything a scan run needs: the domain, the worker count, the
/// formation, the tolerance and the symmetry and biome-filter options.
pub struct ScanConfig {
    pub x_min: i32,
    pub x_max: i32,
    pub y_min: i32,
    pub y_max: i32,
    pub z_min: i32,
    pub z_max: i32,
    pub threads: i32,
    pub formation: Vec<RotationInfo>,
    pub max_failures: Option<usize>,
    pub enumerate_rotations: bool,
    pub enumerate_mirror: bool,
    pub filter_for_biome_ids: Vec<i32>,
}

impl ScanConfig {
    /// Whether one block's offsets stay representable over the whole domain.
    pub open spec fn block_fits(self, b: RotationInfo) -> bool {
        offsets_fit_span(
            self.x_min as int,
            self.x_max as int,
            self.y_min as int,
            self.y_max as int,
            self.z_min as int,
            self.z_max as int,
            b,
        )
    }

    /// The verdict validation reaches, condition by condition in the order
    /// they are checked.
    pub open spec fn spec_validate(self) -> Result<(), ConfigError> {
        if !(self.x_min < self.x_max) {
            Err(ConfigError::InvalidXRange)
        } else if !(self.y_min < self.y_max) {
            Err(ConfigError::InvalidYRange)
        } else if !(self.z_min < self.z_max) {
            Err(ConfigError::InvalidZRange)
        } else if !(1 <= self.threads && self.threads <= self.x_max - self.x_min + 1) {
            Err(ConfigError::InvalidThreadCount)
        } else if (match self.max_failures {
            Some(f) => f >= self.formation@.len(),
            None => false,
        }) {
            Err(ConfigError::ExcessiveTolerance)
        } else if exists|i: int| 0 <= i < self.formation@.len() && !self.block_fits(#[trigger] self.formation@[i]) {
            Err(ConfigError::OffsetOutOfRange)
        } else {
            Ok(())
        }
    }

    /// Check the configuration once at startup; scanning may begin only on
    /// `Ok`. Rejects in order: an unordered axis range, a worker count that
    /// is not positive or exceeds the X extent, a tolerance at least as
    /// large as the formation, and a block offset that could leave the
    /// 32-bit coordinate space.
    pub fn validate(&self) -> (r: Result<(), ConfigError>)
        ensures
            r == self.spec_validate(),
    {
        if !(self.x_min < self.x_max) {
            return Err(ConfigError::InvalidXRange);
        }
        if !(self.y_min < self.y_max) {
            return Err(ConfigError::InvalidYRange);
        }
        if !(self.z_min < self.z_max) {
            return Err(ConfigError::InvalidZRange);
        }
        if !(1 <= self.threads && self.threads as i64 <= self.x_max as i64 - self.x_min as i64
            + 1) {
            return Err(ConfigError::InvalidThreadCount);
        }
        match self.max_failures {
            Some(f) => {
                if f >= self.formation.len() {
                    return Err(ConfigError::ExcessiveTolerance);
                }
            },
            None => {},
        }
        let mut i: usize = 0;
        while i < self.formation.len()
            invariant
                i <= self.formation@.len(),
                self.x_min < self.x_max,
                self.y_min < self.y_max,
                self.z_min < self.z_max,
                1 <= self.threads && self.threads <= self.x_max - self.x_min + 1,
                !(match self.max_failures {
                    Some(f) => f >= self.formation@.len(),
                    None => false,
                }),
                forall|j: int| 0 <= j < i as int ==> self.block_fits(#[trigger] self.formation@[j]),
            decreases self.formation@.len() - i,
        {
            let b = self.formation[i];
            let fits: bool = self.x_min as i64 + b.x as i64 >= i32::MIN as i64 && self.x_max as i64
                + b.x as i64 <= i32::MAX as i64 && self.x_min as i64 - b.x as i64
                >= i32::MIN as i64 && self.x_max as i64 - b.x as i64 <= i32::MAX as i64
                && self.z_min as i64 + b.z as i64 >= i32::MIN as i64 && self.z_max as i64
                + b.z as i64 <= i32::MAX as i64 && self.z_min as i64 - b.z as i64
                >= i32::MIN as i64 && self.z_max as i64 - b.z as i64 <= i32::MAX as i64
                && self.y_min as i64 + b.y as i64 >= i32::MIN as i64 && self.y_max as i64
                + b.y as i64 <= i32::MAX as i64;
            if !fits {
                proof {
                    assert(!self.block_fits(self.formation@[i as int]));
                    assert(exists|j: int|
                        0 <= j < self.formation@.len() && !self.block_fits(
                            #[trigger] self.formation@[j],
                        ));
                }
                return Err(ConfigError::OffsetOutOfRange);
            }
            i = i + 1;
        }
        Ok(())
    }

    /// Split the configured X domain into one contiguous sub-range per
    /// worker; together they cover it exactly once.
    pub fn worker_ranges(&self) -> (ranges: Vec<ScanRange>)
        requires
            self.spec_validate() is Ok,
        ensures
            ranges@.len() == self.threads as int,
            forall|i: int|
                0 <= i < ranges@.len() ==> {
                    &&& self.x_min <= (#[trigger] ranges@[i]).start_x
                    &&& ranges@[i].start_x <= ranges@[i].end_x
                    &&& ranges@[i].end_x <= self.x_max
                    &&& ranges@[i].y_min == self.y_min
                    &&& ranges@[i].y_max == self.y_max
                    &&& ranges@[i].z_min == self.z_min
                    &&& ranges@[i].z_max == self.z_max
                },
            ranges@[0].start_x == self.x_min,
            ranges@[ranges@.len() - 1].end_x == self.x_max,
            forall|i: int|
                0 <= i < ranges@.len() - 1 ==> ranges@[i + 1].start_x == (#[trigger] ranges@[i]).end_x
                    + 1,
    {
        partition_ranges(
            self.x_min,
            self.x_max,
            self.y_min,
            self.y_max,
            self.z_min,
            self.z_max,
            self.threads,
        )
    }

    /// Whether an anchor point lies in the configured domain.
    pub open spec fn in_domain(self, x: i32, y: i32, z: i32) -> bool {
        &&& self.x_min <= x <= self.x_max
        &&& self.y_min <= y <= self.y_max
        &&& self.z_min <= z <= self.z_max
    }

    /// The symmetry transforms the configuration enables.
    pub open spec fn transform_enabled(self, rot: int, mirrored: bool) -> bool {
        &&& 0 <= rot < (if self.enumerate_rotations {
            4int
        } else {
            1int
        })
        &&& (mirrored ==> self.enumerate_mirror)
    }

    /// How many mismatched blocks a candidate may have and still match.
    pub open spec fn tolerance(self) -> nat {
        match self.max_failures {
            Some(t) => t as nat,
            None => 0,
        }
    }

    /// Everything the engine promises of one record of a whole-domain run:
    /// the anchor lies in the configured domain, its transform is enabled,
    /// and the failure count is the candidate's true mismatch count, within
    /// the configured tolerance.
    pub open spec fn is_scan_record<T: TextureProvider>(self, r: MatchRecord) -> bool {
        &&& self.in_domain(r.x, r.y, r.z)
        &&& self.transform_enabled(r.rotation_offset as int, r.mirrored)
        &&& r.failures == formation_mismatches::<T>(
            self.formation@,
            r.x,
            r.y,
            r.z,
            r.rotation_offset as int,
            r.mirrored,
        )
        &&& r.failures <= self.tolerance()
        &&& r.biome_id is None
    }

    /// The engine's entry point for a run without a biome filter: scan the
    /// whole configured domain, worker range after worker range. The result
    /// holds exactly one record for every candidate anchor and enabled
    /// transform whose mismatch count is within the configured tolerance,
    /// and nothing else; the partitioner's exact cover makes the union of
    /// the per-worker scans cover the domain without overlap.
    pub fn run_scan<T: TextureProvider>(&self, textures: T) -> (res: Vec<MatchRecord>)
        requires
            self.spec_validate() is Ok,
        ensures
            forall|i: int| 0 <= i < res@.len() ==> self.is_scan_record::<T>(#[trigger] res@[i]),
            scan_ordered(res@),
            distinct_records(res@),
            forall|x: i32, y: i32, z: i32, rot: i32, mirrored: bool|
                self.in_domain(x, y, z) && self.transform_enabled(rot as int, mirrored)
                    && formation_mismatches::<T>(self.formation@, x, y, z, rot as int, mirrored)
                    <= self.tolerance() ==> res@.contains(#[trigger] formation_match_record::<T>(
                    self.formation@,
                    x,
                    y,
                    z,
                    rot,
                    mirrored,
                )),
    {
        let tolerance: usize = match self.max_failures {
            Some(t) => t,
            None => 0,
        };
        let ranges = self.worker_ranges();
        let mut res: Vec<MatchRecord> = Vec::new();
        let ghost rs = ranges@;
        let mut k: usize = 0;
        while k < ranges.len()
            invariant
                self.spec_validate() is Ok,
                tolerance as nat == self.tolerance(),
                rs == ranges@,
                k <= rs.len(),
                rs.len() == self.threads as int,
                forall|i: int|
                    0 <= i < rs.len() ==> {
                        &&& self.x_min <= (#[trigger] rs[i]).start_x
                        &&& rs[i].start_x <= rs[i].end_x
                        &&& rs[i].end_x <= self.x_max
                        &&& rs[i].y_min == self.y_min
                        &&& rs[i].y_max == self.y_max
                        &&& rs[i].z_min == self.z_min
                        &&& rs[i].z_max == self.z_max
                    },
                rs[0].start_x == self.x_min,
                rs[rs.len() - 1].end_x == self.x_max,
                forall|i: int|
                    0 <= i < rs.len() - 1 ==> rs[i + 1].start_x == (#[trigger] rs[i]).end_x + 1,
                forall|i: int| 0 <= i < res@.len() ==> self.is_scan_record::<T>(#[trigger] res@[i]),
                scan_ordered(res@),
                forall|i: int|
                    0 <= i < res@.len() ==> (k > 0 && (#[trigger] res@[i]).x <= rs[k as int
                        - 1].end_x),
                forall|x: i32, y: i32, z: i32, rot: i32, mirrored: bool|
                    k > 0 && self.in_domain(x, y, z) && x <= rs[k as int - 1].end_x
                        && self.transform_enabled(rot as int, mirrored)
                        && formation_mismatches::<T>(self.formation@, x, y, z, rot as int,
                    mirrored) <= self.tolerance() ==> res@.contains(
                        #[trigger] formation_match_record::<T>(self.formation@, x, y, z, rot,
                        mirrored),
                    ),
            decreases rs.len() - k,
        {
            let range = ranges[k];
            proof {
                assert forall|i: int|
                    0 <= i < self.formation@.len() implies offsets_fit_span(
                    range.start_x as int,
                    range.end_x as int,
                    range.y_min as int,
                    range.y_max as int,
                    range.z_min as int,
                    range.z_max as int,
                    #[trigger] self.formation@[i],
                ) by {
                    assert(self.block_fits(self.formation@[i]));
                }
            }
            let finder = build_finder(
                textures,
                range,
                &self.formation,
                self.enumerate_rotations,
                self.enumerate_mirror,
            );
            let ghost before = res@;
            let mut part = finder.run_with_tolerance(tolerance);
            let ghost part_plain = part@;
            res.append(&mut part);
            proof {
                self.lemma_worker_part_is_ours::<T>(finder, part_plain, tolerance, range);
                assert forall|a: int, b: int|
                    0 <= a < before.len() && 0 <= b < part_plain.len() implies record_before(
                    #[trigger] before[a],
                    #[trigger] part_plain[b],
                ) by {
                    assert(finder.is_reported(part_plain[b], tolerance as nat, None));
                    assert(k > 0 && before[a].x <= rs[k as int - 1].end_x);
                    assert(part_plain[b].x >= range.start_x);
                }
                crate::texture_finder::lemma_ordered_concat(before, part_plain);
                assert forall|x: i32, y: i32, z: i32, rot: i32, mirrored: bool|
                    self.in_domain(x, y, z) && x <= rs[k as int].end_x && self.transform_enabled(
                        rot as int,
                        mirrored,
                    ) && formation_mismatches::<T>(self.formation@, x, y, z, rot as int, mirrored)
                        <= self.tolerance() implies res@.contains(
                    #[trigger] formation_match_record::<T>(self.formation@, x, y, z, rot,
                    mirrored),
                ) by {
                    let rec = formation_match_record::<T>(self.formation@, x, y, z, rot, mirrored);
                    if k > 0 && x <= rs[k as int - 1].end_x {
                        assert(before.contains(rec));
                    } else {
                        assert(range.start_x <= x <= range.end_x);
                        assert(finder.reports_candidate(
                            part_plain,
                            x,
                            y,
                            z,
                            rot,
                            mirrored,
                            tolerance as nat,
                            None,
                        ));
                        assert(part_plain.contains(rec));
                    }
                    crate::texture_finder::lemma_contains_concat(before, part_plain, rec);
                }
            }
            k = k + 1;
        }
        proof {
            crate::texture_finder::lemma_ordered_implies_distinct(res@);
        }
        res
    }

    /// A worker's records and candidate semantics, stated over the worker's
    /// own placement, agree with the whole configuration's: the worker
    /// scans the same formation over a sub-range of the same domain.
    proof fn lemma_worker_part_is_ours<T: TextureProvider>(
        self,
        finder: TextureFinder<T>,
        part: Seq<MatchRecord>,
        tolerance: usize,
        range: ScanRange,
    )
        requires
            tolerance as nat == self.tolerance(),
            finder.placement.tops_and_bottoms@ == tops_and_bottoms_of(self.formation@),
            finder.placement.sides@ == sides_of(self.formation@),
            finder.start_x == range.start_x,
            finder.end_x == range.end_x,
            finder.y_min == self.y_min,
            finder.y_max == self.y_max,
            finder.z_min == self.z_min,
            finder.z_max == self.z_max,
            finder.enumerate_rotations == self.enumerate_rotations,
            finder.enumerate_mirror == self.enumerate_mirror,
            self.x_min <= range.start_x,
            range.end_x <= self.x_max,
            finder.sound(part, tolerance as nat, None),
        ensures
            forall|i: int| 0 <= i < part.len() ==> self.is_scan_record::<T>(#[trigger] part[i]),
            forall|i: int|
                0 <= i < part.len() ==> range.start_x <= (#[trigger] part[i]).x <= range.end_x,
            forall|x: i32, y: i32, z: i32, rot: i32, mirrored: bool|
                #![trigger formation_match_record::<T>(self.formation@, x, y, z, rot, mirrored)]
                finder.reports_candidate(part, x, y, z, rot, mirrored, tolerance as nat, None)
                    && formation_mismatches::<T>(self.formation@, x, y, z, rot as int, mirrored)
                    <= self.tolerance() ==> part.contains(formation_match_record::<T>(
                    self.formation@,
                    x,
                    y,
                    z,
                    rot,
                    mirrored,
                )),
    {
        assert forall|i: int|
            0 <= i < part.len() implies self.is_scan_record::<T>(#[trigger] part[i]) && range.start_x
            <= part[i].x <= range.end_x by {
            assert(finder.is_reported(part[i], tolerance as nat, None));
        }
    }
}

/// Reduce every side block's expected rotation into `[0, 2)`, as a
/// configuration loader must before the formation is matched.
pub fn normalize_formation(formation: &mut Vec<RotationInfo>)
    ensures
        final(formation)@.len() == old(formation)@.len(),
        forall|i: int|
            0 <= i < old(formation)@.len() ==> {
                let b = old(formation)@[i];
                (#[trigger] final(formation)@[i]) == (RotationInfo {
                    rotation: normalized_rotation(b.rotation, b.is_side),
                    ..b
                })
            },
{
    let mut i: usize = 0;
    while i < formation.len()
        invariant
            i <= formation@.len(),
            formation@.len() == old(formation)@.len(),
            forall|j: int|
                i as int <= j < formation@.len() ==> formation@[j] == old(formation)@[j],
            forall|j: int|
                0 <= j < i as int ==> {
                    let b = old(formation)@[j];
                    (#[trigger] formation@[j]) == (RotationInfo {
                        rotation: normalized_rotation(b.rotation, b.is_side),
                        ..b
                    })
                },
        decreases formation@.len() - i,
    {
        let mut b = formation[i];
        b.fix_rotation();
        formation.set(i, b);
        i = i + 1;
    }
}

proof fn lemma_filter_element_of<A>(s: Seq<A>, pred: spec_fn(A) -> bool, i: int)
    requires
        0 <= i < s.filter(pred).len(),
    ensures
        s.contains(s.filter(pred)[i]),
    decreases s.len(),
{
    reveal(Seq::filter);
    if s.len() > 0 {
        let sub = s.drop_last().filter(pred);
        if i < sub.len() {
            lemma_filter_element_of(s.drop_last(), pred, i);
            let j = choose|j: int| 0 <= j < s.drop_last().len() && s.drop_last()[j] == sub[i];
            assert(s[j] == sub[i]);
        } else {
            assert(s[s.len() - 1] == s.filter(pred)[i]);
        }
    }
}

/// Build the matcher for one worker's sub-range. The formation must already
/// be normalized where it configures side blocks, and its offsets must fit
/// the configured domain, which contains every worker range.
pub fn build_finder<T: TextureProvider>(
    textures: T,
    range: ScanRange,
    formation: &Vec<RotationInfo>,
    enumerate_rotations: bool,
    enumerate_mirror: bool,
) -> (finder: TextureFinder<T>)
    requires
        range.start_x <= range.end_x,
        range.y_min <= range.y_max,
        range.z_min <= range.z_max,
        forall|i: int|
            0 <= i < formation@.len() ==> offsets_fit_span(
                range.start_x as int,
                range.end_x as int,
                range.y_min as int,
                range.y_max as int,
                range.z_min as int,
                range.z_max as int,
                #[trigger] formation@[i],
            ),
    ensures
        finder.wf(),
        finder.start_x == range.start_x,
        finder.end_x == range.end_x,
        finder.y_min == range.y_min,
        finder.y_max == range.y_max,
        finder.z_min == range.z_min,
        finder.z_max == range.z_max,
        finder.enumerate_rotations == enumerate_rotations,
        finder.enumerate_mirror == enumerate_mirror,
        finder.placement.tops_and_bottoms@ == crate::placement::tops_and_bottoms_of(formation@),
        finder.placement.sides@ == crate::placement::sides_of(formation@),
{
    let placement = Placement::new(formation.as_slice());
    let finder = TextureFinder {
        start_x: range.start_x,
        end_x: range.end_x,
        y_min: range.y_min,
        y_max: range.y_max,
        z_min: range.z_min,
        z_max: range.z_max,
        textures,
        placement,
        enumerate_rotations,
        enumerate_mirror,
    };
    proof {
        assert forall|i: int|
            0 <= i < finder.placement.tops_and_bottoms@.len() implies finder.block_offsets_fit(
            #[trigger] finder.placement.tops_and_bottoms@[i],
        ) by {
            lemma_filter_element_of(formation@, |b: RotationInfo| !b.is_side, i);
            let b = finder.placement.tops_and_bottoms@[i];
            let j = choose|j: int| 0 <= j < formation@.len() && formation@[j] == b;
            assert(offsets_fit_span(
                range.start_x as int,
                range.end_x as int,
                range.y_min as int,
                range.y_max as int,
                range.z_min as int,
                range.z_max as int,
                formation@[j],
            ));
        }
        assert forall|i: int|
            0 <= i < finder.placement.sides@.len() implies finder.block_offsets_fit(
            #[trigger] finder.placement.sides@[i],
        ) by {
            lemma_filter_element_of(formation@, |b: RotationInfo| b.is_side, i);
            let b = finder.placement.sides@[i];
            let j = choose|j: int| 0 <= j < formation@.len() && formation@[j] == b;
            assert(offsets_fit_span(
                range.start_x as int,
                range.end_x as int,
                range.y_min as int,
                range.y_max as int,
                range.z_min as int,
                range.z_max as int,
                formation@[j],
            ));
        }
    }
    finder
}

} // verus!
