//! The formation matcher: scans a worker's sub-volume for anchor points
//! where every block of the formation (up to a tolerated number of
//! mismatches) shows its expected texture rotation, under each enabled
//! symmetry transform.

use vstd::prelude::*;
use crate::biome_cache::BiomeWindow;
use crate::placement::Placement;
use crate::rotation_info::RotationInfo;
use crate::texture_provider::{texture_of, TextureProvider};

verus! {

/// A reported match: the anchor point, the symmetry transform it matched
/// under, the number of mismatched blocks tolerated on the way, and the
/// biome at the anchor column when a biome filter was active.
#[derive(Debug, PartialEq, Eq, Clone, Copy)]
pub struct MatchRecord {
    pub x: i32,
    pub y: i32,
    pub z: i32,
    pub rotation_offset: i32,
    pub mirrored: bool,
    pub failures: usize,
    pub biome_id: Option<i32>,
}

/// Whether one block of the formation, placed relative to the anchor
/// `(ox, oy, oz)` and adjusted for the transform, shows its expected
/// rotation. Mirroring negates the horizontal offsets and turns non-side
/// textures half way round; the rotation offset is added to every observed
/// value before comparing.
pub open spec fn block_matches<T: TextureProvider>(
    ox: i32,
    oy: i32,
    oz: i32,
    b: RotationInfo,
    rot: int,
    mirrored: bool,
) -> bool {
    let dx = if mirrored {
        -(b.x as int)
    } else {
        b.x as int
    };
    let dz = if mirrored {
        -(b.z as int)
    } else {
        b.z as int
    };
    let tx = (ox + dx) as i32;
    let ty = (oy + b.y) as i32;
    let tz = (oz + dz) as i32;
    if b.is_side {
        b.rotation == (texture_of::<T>(tx, ty, tz, 2) + rot) % 2
    } else {
        b.rotation == (texture_of::<T>(tx, ty, tz, 4) + rot + (if mirrored {
            2int
        } else {
            0int
        })) % 4
    }
}

/// How many blocks of the group disagree with their expected rotation.
pub open spec fn mismatch_count<T: TextureProvider>(
    blocks: Seq<RotationInfo>,
    ox: i32,
    oy: i32,
    oz: i32,
    rot: int,
    mirrored: bool,
) -> nat
    decreases blocks.len(),
{
    if blocks.len() == 0 {
        0
    } else {
        mismatch_count::<T>(blocks.drop_last(), ox, oy, oz, rot, mirrored) + (if block_matches::<
            T,
        >(ox, oy, oz, blocks.last(), rot, mirrored) {
            0nat
        } else {
            1nat
        })
    }
}

/// How many blocks of the whole formation disagree at a candidate anchor.
pub open spec fn candidate_mismatches<T: TextureProvider>(
    p: Placement,
    ox: i32,
    oy: i32,
    oz: i32,
    rot: int,
    mirrored: bool,
) -> nat {
    mismatch_count::<T>(p.tops_and_bottoms@, ox, oy, oz, rot, mirrored) + mismatch_count::<T>(
        p.sides@,
        ox,
        oy,
        oz,
        rot,
        mirrored,
    )
}

/// The record reported for a matching candidate.
pub open spec fn match_record_for<T: TextureProvider>(
    p: Placement,
    x: i32,
    y: i32,
    z: i32,
    rot: i32,
    mirrored: bool,
    biome_id: Option<i32>,
) -> MatchRecord {
    MatchRecord {
        x,
        y,
        z,
        rotation_offset: rot,
        mirrored,
        failures: candidate_mismatches::<T>(p, x, y, z, rot as int, mirrored) as usize,
        biome_id,
    }
}

/// No record occurs twice: every matching candidate is reported once per
/// matching transform.
pub open spec fn distinct_records(s: Seq<MatchRecord>) -> bool {
    forall|i: int, j: int| 0 <= i < j < s.len() ==> (#[trigger] s[i]) != (#[trigger] s[j])
}

/// The position of a record's transform in the enumeration order: rotation
/// offset major, mirror minor.
pub open spec fn transform_index(r: MatchRecord) -> int {
    2 * r.rotation_offset + (if r.mirrored {
        1int
    } else {
        0int
    })
}

/// Whether the scan reaches `a` strictly before `b`: anchors are visited X
/// first, then Z, then the enabled transforms, then Y.
pub open spec fn record_before(a: MatchRecord, b: MatchRecord) -> bool {
    ||| a.x < b.x
    ||| (a.x == b.x && a.z < b.z)
    ||| (a.x == b.x && a.z == b.z && transform_index(a) < transform_index(b))
    ||| (a.x == b.x && a.z == b.z && transform_index(a) == transform_index(b) && a.y < b.y)
}

/// The records appear in scan order. Together with the membership contract
/// this pins the result down to one sequence.
pub open spec fn scan_ordered(s: Seq<MatchRecord>) -> bool {
    forall|i: int, j: int| 0 <= i < j < s.len() ==> record_before(#[trigger] s[i], #[trigger] s[j])
}

/// A record never stands before itself, so an ordered sequence repeats
/// nothing.
pub(crate) proof fn lemma_ordered_implies_distinct(s: Seq<MatchRecord>)
    requires
        scan_ordered(s),
    ensures
        distinct_records(s),
{
    assert forall|i: int, j: int|
        0 <= i < j < s.len() implies (#[trigger] s[i]) != (#[trigger] s[j]) by {
        assert(record_before(s[i], s[j]));
    }
}

pub(crate) proof fn lemma_ordered_concat(s1: Seq<MatchRecord>, s2: Seq<MatchRecord>)
    requires
        scan_ordered(s1),
        scan_ordered(s2),
        forall|i: int, j: int|
            0 <= i < s1.len() && 0 <= j < s2.len() ==> record_before(
                #[trigger] s1[i],
                #[trigger] s2[j],
            ),
    ensures
        scan_ordered(s1 + s2),
{
    assert forall|i: int, j: int|
        0 <= i < j < (s1 + s2).len() implies record_before(
        #[trigger] (s1 + s2)[i],
        #[trigger] (s1 + s2)[j],
    ) by {
        if j < s1.len() {
            assert((s1 + s2)[i] == s1[i]);
            assert((s1 + s2)[j] == s1[j]);
        } else if i >= s1.len() {
            assert((s1 + s2)[i] == s2[i - s1.len()]);
            assert((s1 + s2)[j] == s2[j - s1.len()]);
        } else {
            assert((s1 + s2)[i] == s1[i]);
            assert((s1 + s2)[j] == s2[j - s1.len()]);
        }
    }
}

pub(crate) proof fn lemma_distinct_concat(s1: Seq<MatchRecord>, s2: Seq<MatchRecord>)
    requires
        distinct_records(s1),
        distinct_records(s2),
        forall|i: int, j: int|
            0 <= i < s1.len() && 0 <= j < s2.len() ==> (#[trigger] s1[i]) != (#[trigger] s2[j]),
    ensures
        distinct_records(s1 + s2),
{
    assert forall|i: int, j: int|
        0 <= i < j < (s1 + s2).len() implies (#[trigger] (s1 + s2)[i]) != (#[trigger] (s1
        + s2)[j]) by {
        if j < s1.len() {
            assert((s1 + s2)[i] == s1[i]);
            assert((s1 + s2)[j] == s1[j]);
        } else if i >= s1.len() {
            assert((s1 + s2)[i] == s2[i - s1.len()]);
            assert((s1 + s2)[j] == s2[j - s1.len()]);
        } else {
            assert((s1 + s2)[i] == s1[i]);
            assert((s1 + s2)[j] == s2[j - s1.len()]);
        }
    }
}

pub(crate) proof fn lemma_contains_concat<A>(s1: Seq<A>, s2: Seq<A>, e: A)
    ensures
        (s1 + s2).contains(e) <==> (s1.contains(e) || s2.contains(e)),
{
    if s1.contains(e) {
        let i = choose|i: int| 0 <= i < s1.len() && s1[i] == e;
        assert((s1 + s2)[i] == e);
    }
    if s2.contains(e) {
        let i = choose|i: int| 0 <= i < s2.len() && s2[i] == e;
        assert((s1 + s2)[s1.len() + i] == e);
    }
    if (s1 + s2).contains(e) {
        let i = choose|i: int| 0 <= i < (s1 + s2).len() && (s1 + s2)[i] == e;
        if i < s1.len() {
            assert(s1[i] == e);
        } else {
            assert(s2[i - s1.len()] == e);
        }
    }
}

proof fn lemma_contains_push<A>(s: Seq<A>, a: A, e: A)
    ensures
        s.push(a).contains(e) <==> (s.contains(e) || e == a),
{
    if s.contains(e) {
        let i = choose|i: int| 0 <= i < s.len() && s[i] == e;
        assert(s.push(a)[i] == e);
    }
    assert(s.push(a)[s.len() as int] == a);
    if s.push(a).contains(e) {
        let i = choose|i: int| 0 <= i < s.push(a).len() && s.push(a)[i] == e;
        if i < s.len() {
            assert(s[i] == e);
        }
    }
}

proof fn lemma_mismatch_prefix_le<T: TextureProvider>(
    blocks: Seq<RotationInfo>,
    ox: i32,
    oy: i32,
    oz: i32,
    rot: int,
    mirrored: bool,
    i: int,
)
    requires
        0 <= i <= blocks.len(),
    ensures
        mismatch_count::<T>(blocks.subrange(0, i), ox, oy, oz, rot, mirrored) <= mismatch_count::<
            T,
        >(blocks, ox, oy, oz, rot, mirrored),
    decreases blocks.len() - i,
{
    if i < blocks.len() {
        lemma_mismatch_prefix_le::<T>(blocks, ox, oy, oz, rot, mirrored, i + 1);
        assert(blocks.subrange(0, i + 1).drop_last() =~= blocks.subrange(0, i));
    } else {
        assert(blocks.subrange(0, i) =~= blocks);
    }
}

/// A worker's sub-volume, the oracle variant and formation to match, and
/// which symmetry transforms to enumerate at every candidate anchor.
pub struct TextureFinder<T> {
    pub start_x: i32,
    pub end_x: i32,
    pub y_min: i32,
    pub y_max: i32,
    pub z_min: i32,
    pub z_max: i32,
    pub textures: T,
    pub placement: Placement,
    pub enumerate_rotations: bool,
    pub enumerate_mirror: bool,
}

/// Whether a block's offsets keep every anchor of the given sub-volume
/// inside the 32-bit coordinate space, for the plain and the mirrored
/// placement alike.
pub open spec fn offsets_fit_span(
    start_x: int,
    end_x: int,
    y_min: int,
    y_max: int,
    z_min: int,
    z_max: int,
    b: RotationInfo,
) -> bool {
    &&& i32::MIN <= start_x + b.x && end_x + b.x <= i32::MAX
    &&& i32::MIN <= start_x - b.x && end_x - b.x <= i32::MAX
    &&& i32::MIN <= z_min + b.z && z_max + b.z <= i32::MAX
    &&& i32::MIN <= z_min - b.z && z_max - b.z <= i32::MAX
    &&& i32::MIN <= y_min + b.y && y_max + b.y <= i32::MAX
}

impl<T: TextureProvider> TextureFinder<T> {
    /// Every anchor in the sub-volume keeps this block's (possibly
    /// mirrored) offsets within the 32-bit coordinate space.
    pub open spec fn block_offsets_fit(self, b: RotationInfo) -> bool {
        offsets_fit_span(
            self.start_x as int,
            self.end_x as int,
            self.y_min as int,
            self.y_max as int,
            self.z_min as int,
            self.z_max as int,
            b,
        )
    }

    /// The sub-volume is ordered on every axis and no block offset can
    /// leave the 32-bit coordinate space while it is scanned.
    pub open spec fn wf(self) -> bool {
        &&& self.start_x <= self.end_x
        &&& self.y_min <= self.y_max
        &&& self.z_min <= self.z_max
        &&& self.placement.partitioned()
        &&& forall|i: int|
            0 <= i < self.placement.tops_and_bottoms@.len() ==> self.block_offsets_fit(
                #[trigger] self.placement.tops_and_bottoms@[i],
            )
        &&& forall|i: int|
            0 <= i < self.placement.sides@.len() ==> self.block_offsets_fit(
                #[trigger] self.placement.sides@[i],
            )
    }

    /// Whether an anchor point lies in this worker's sub-volume.
    pub open spec fn in_domain(self, x: i32, y: i32, z: i32) -> bool {
        &&& self.start_x <= x <= self.end_x
        &&& self.y_min <= y <= self.y_max
        &&& self.z_min <= z <= self.z_max
    }

    /// The symmetry transforms the scan tries at every anchor: the identity
    /// always, the other rotation offsets and the mirrored variants only
    /// when enumeration of them is enabled.
    pub open spec fn transform_enabled(self, rot: int, mirrored: bool) -> bool {
        &&& 0 <= rot < (if self.enumerate_rotations {
            4int
        } else {
            1int
        })
        &&& (mirrored ==> self.enumerate_mirror)
    }

    /// Everything the scan promises of one reported record: the anchor lies
    /// in the sub-volume, the transform was enabled, the failure count is
    /// the candidate's true mismatch count, and it is within tolerance.
    pub open spec fn is_reported(self, r: MatchRecord, tolerance: nat, biome: Option<i32>) -> bool {
        &&& self.in_domain(r.x, r.y, r.z)
        &&& self.transform_enabled(r.rotation_offset as int, r.mirrored)
        &&& r.failures == candidate_mismatches::<T>(
            self.placement,
            r.x,
            r.y,
            r.z,
            r.rotation_offset as int,
            r.mirrored,
        )
        &&& r.failures <= tolerance
        &&& r.biome_id == biome
    }

    /// Every record of `s` is a true match within the tolerance.
    pub open spec fn sound(self, s: Seq<MatchRecord>, tolerance: nat, biome: Option<i32>) -> bool {
        forall|i: int| 0 <= i < s.len() ==> self.is_reported(#[trigger] s[i], tolerance, biome)
    }

    /// If the candidate at `(x, y, z)` matches under the transform within
    /// the tolerance, `s` holds its record.
    pub open spec fn reports_candidate(
        self,
        s: Seq<MatchRecord>,
        x: i32,
        y: i32,
        z: i32,
        rot: i32,
        mirrored: bool,
        tolerance: nat,
        biome: Option<i32>,
    ) -> bool {
        candidate_mismatches::<T>(self.placement, x, y, z, rot as int, mirrored) <= tolerance
            ==> s.contains(match_record_for::<T>(self.placement, x, y, z, rot, mirrored, biome))
    }

    proof fn lemma_reports_candidate_extend(
        self,
        s1: Seq<MatchRecord>,
        s2: Seq<MatchRecord>,
        x: i32,
        y: i32,
        z: i32,
        rot: i32,
        mirrored: bool,
        tolerance: nat,
        biome: Option<i32>,
    )
        requires
            self.reports_candidate(s1, x, y, z, rot, mirrored, tolerance, biome)
                || self.reports_candidate(s2, x, y, z, rot, mirrored, tolerance, biome),
        ensures
            self.reports_candidate(s1 + s2, x, y, z, rot, mirrored, tolerance, biome),
    {
        lemma_contains_concat(
            s1,
            s2,
            match_record_for::<T>(self.placement, x, y, z, rot, mirrored, biome),
        );
    }

    /// Count the formation's mismatches at one candidate anchor under one
    /// transform, giving up as soon as the count exceeds the tolerance.
    fn check_candidate(
        &self,
        x: i32,
        y: i32,
        z: i32,
        rot: i32,
        mirrored: bool,
        max_failures: usize,
    ) -> (res: Option<usize>)
        requires
            self.wf(),
            self.in_domain(x, y, z),
            0 <= rot < 4,
        ensures
            match res {
                Some(c) => c == candidate_mismatches::<T>(
                    self.placement,
                    x,
                    y,
                    z,
                    rot as int,
                    mirrored,
                ) && c <= max_failures,
                None => candidate_mismatches::<T>(self.placement, x, y, z, rot as int, mirrored)
                    > max_failures,
            },
    {
        let tops = &self.placement.tops_and_bottoms;
        let sides = &self.placement.sides;
        let mut fails: usize = 0;
        let mut i: usize = 0;
        while i < tops.len()
            invariant
                self.wf(),
                self.in_domain(x, y, z),
                0 <= rot < 4,
                i <= tops@.len(),
                tops == &self.placement.tops_and_bottoms,
                fails == mismatch_count::<T>(
                    tops@.subrange(0, i as int),
                    x,
                    y,
                    z,
                    rot as int,
                    mirrored,
                ),
                fails <= max_failures,
            decreases tops@.len() - i,
        {
            let b = tops[i];
            proof {
                assert(tops@.subrange(0, i + 1).drop_last() =~= tops@.subrange(0, i as int));
                assert(tops@.subrange(0, i + 1).last() == b);
                assert(self.block_offsets_fit(b));
            }
            let tx: i32 = (x as i64 + (if mirrored {
                -(b.x as i64)
            } else {
                b.x as i64
            })) as i32;
            let ty: i32 = (y as i64 + b.y as i64) as i32;
            let tz: i32 = (z as i64 + (if mirrored {
                -(b.z as i64)
            } else {
                b.z as i64
            })) as i32;
            let observed: i32 = self.textures.get_texture(tx, ty, tz, 4);
            let adjusted: i32 = (observed + rot + (if mirrored {
                2
            } else {
                0
            })) % 4;
            proof {
                assert(tx as int == x + (if mirrored {
                    -(b.x as int)
                } else {
                    b.x as int
                }));
                assert(observed == texture_of::<T>(tx, ty, tz, 4));
                assert((b.rotation == adjusted) == block_matches::<T>(x, y, z, b, rot as int,
                mirrored));
            }
            if b.rotation != adjusted {
                if fails >= max_failures {
                    proof {
                        lemma_mismatch_prefix_le::<T>(tops@, x, y, z, rot as int, mirrored, i + 1);
                    }
                    return None;
                }
                fails = fails + 1;
            }
            i = i + 1;
        }
        proof {
            assert(tops@.subrange(0, tops@.len() as int) =~= tops@);
        }
        let ghost tops_total = mismatch_count::<T>(tops@, x, y, z, rot as int, mirrored);
        let mut j: usize = 0;
        while j < sides.len()
            invariant
                self.wf(),
                self.in_domain(x, y, z),
                0 <= rot < 4,
                j <= sides@.len(),
                sides == &self.placement.sides,
                tops_total == mismatch_count::<T>(
                    self.placement.tops_and_bottoms@,
                    x,
                    y,
                    z,
                    rot as int,
                    mirrored,
                ),
                fails == tops_total + mismatch_count::<T>(
                    sides@.subrange(0, j as int),
                    x,
                    y,
                    z,
                    rot as int,
                    mirrored,
                ),
                fails <= max_failures,
            decreases sides@.len() - j,
        {
            let b = sides[j];
            proof {
                assert(sides@.subrange(0, j + 1).drop_last() =~= sides@.subrange(0, j as int));
                assert(sides@.subrange(0, j + 1).last() == b);
                assert(self.block_offsets_fit(b));
            }
            let tx: i32 = (x as i64 + (if mirrored {
                -(b.x as i64)
            } else {
                b.x as i64
            })) as i32;
            let ty: i32 = (y as i64 + b.y as i64) as i32;
            let tz: i32 = (z as i64 + (if mirrored {
                -(b.z as i64)
            } else {
                b.z as i64
            })) as i32;
            let observed: i32 = self.textures.get_texture(tx, ty, tz, 2);
            let adjusted: i32 = (observed + rot) % 2;
            proof {
                assert(tx as int == x + (if mirrored {
                    -(b.x as int)
                } else {
                    b.x as int
                }));
                assert(observed == texture_of::<T>(tx, ty, tz, 2));
                assert((b.rotation == adjusted) == block_matches::<T>(x, y, z, b, rot as int,
                mirrored));
            }
            if b.rotation != adjusted {
                if fails >= max_failures {
                    proof {
                        lemma_mismatch_prefix_le::<T>(sides@, x, y, z, rot as int, mirrored, j + 1);
                    }
                    return None;
                }
                fails = fails + 1;
            }
            j = j + 1;
        }
        proof {
            assert(sides@.subrange(0, sides@.len() as int) =~= sides@);
        }
        Some(fails)
    }

    /// Scan one column `(x, z)` under one transform: try every Y in the
    /// sub-volume and collect a record for every candidate within tolerance.
    fn scan_column(
        &self,
        x: i32,
        z: i32,
        rot: i32,
        mirrored: bool,
        max_failures: usize,
        biome: Option<i32>,
    ) -> (res: Vec<MatchRecord>)
        requires
            self.wf(),
            self.start_x <= x <= self.end_x,
            self.z_min <= z <= self.z_max,
            self.transform_enabled(rot as int, mirrored),
        ensures
            self.sound(res@, max_failures as nat, biome),
            scan_ordered(res@),
            distinct_records(res@),
            forall|i: int|
                0 <= i < res@.len() ==> (#[trigger] res@[i]).x == x && res@[i].z == z
                    && res@[i].rotation_offset == rot && res@[i].mirrored == mirrored,
            forall|y: i32|
                self.y_min <= y <= self.y_max ==> #[trigger] self.reports_candidate(
                    res@,
                    x,
                    y,
                    z,
                    rot,
                    mirrored,
                    max_failures as nat,
                    biome,
                ),
    {
        let mut res: Vec<MatchRecord> = Vec::new();
        let mut y: i64 = self.y_min as i64;
        while y <= self.y_max as i64
            invariant
                self.wf(),
                self.start_x <= x <= self.end_x,
                self.z_min <= z <= self.z_max,
                self.transform_enabled(rot as int, mirrored),
                self.y_min as i64 <= y <= self.y_max as i64 + 1,
                self.sound(res@, max_failures as nat, biome),
                scan_ordered(res@),
                forall|i: int|
                    0 <= i < res@.len() ==> (#[trigger] res@[i]).x == x && res@[i].z == z
                        && res@[i].rotation_offset == rot && res@[i].mirrored == mirrored
                        && (res@[i].y as i64) < y,
                forall|yp: i32|
                    self.y_min <= yp && (yp as i64) < y ==> #[trigger] self.reports_candidate(
                        res@,
                        x,
                        yp,
                        z,
                        rot,
                        mirrored,
                        max_failures as nat,
                        biome,
                    ),
            decreases self.y_max as i64 - y + 1,
        {
            let yy: i32 = y as i32;
            let ghost prev = res@;
            match self.check_candidate(x, yy, z, rot, mirrored, max_failures) {
                Some(fails) => {
                    let rec = MatchRecord {
                        x,
                        y: yy,
                        z,
                        rotation_offset: rot,
                        mirrored,
                        failures: fails,
                        biome_id: biome,
                    };
                    proof {
                        assert(rec == match_record_for::<T>(
                            self.placement,
                            x,
                            yy,
                            z,
                            rot,
                            mirrored,
                            biome,
                        ));
                    }
                    res.push(rec);
                    proof {
                        assert forall|a: int, b: int|
                            0 <= a < b < res@.len() implies record_before(
                            #[trigger] res@[a],
                            #[trigger] res@[b],
                        ) by {
                            if b < prev.len() {
                                assert(res@[a] == prev[a]);
                                assert(res@[b] == prev[b]);
                            } else {
                                assert(res@[b] == rec);
                                assert(res@[a] == prev[a]);
                                assert((prev[a].y as i64) < y);
                            }
                        }
                        assert forall|yp: i32|
                            self.y_min <= yp && (yp as i64) < y + 1 implies #[trigger] self
                            .reports_candidate(
                            res@,
                            x,
                            yp,
                            z,
                            rot,
                            mirrored,
                            max_failures as nat,
                            biome,
                        ) by {
                            if (yp as i64) < y {
                                assert(self.reports_candidate(
                                    prev,
                                    x,
                                    yp,
                                    z,
                                    rot,
                                    mirrored,
                                    max_failures as nat,
                                    biome,
                                ));
                            }
                            lemma_contains_push(
                                prev,
                                rec,
                                match_record_for::<T>(self.placement, x, yp, z, rot, mirrored,
                                biome),
                            );
                        }
                    }
                },
                None => {
                    proof {
                        assert forall|yp: i32|
                            self.y_min <= yp && (yp as i64) < y + 1 implies #[trigger] self
                            .reports_candidate(
                            res@,
                            x,
                            yp,
                            z,
                            rot,
                            mirrored,
                            max_failures as nat,
                            biome,
                        ) by {}
                    }
                },
            }
            y = y + 1;
        }
        proof {
            lemma_ordered_implies_distinct(res@);
        }
        res
    }

    /// Scan one column under every enabled symmetry transform.
    fn scan_transforms(&self, x: i32, z: i32, max_failures: usize, biome: Option<i32>) -> (res:
        Vec<MatchRecord>)
        requires
            self.wf(),
            self.start_x <= x <= self.end_x,
            self.z_min <= z <= self.z_max,
        ensures
            self.sound(res@, max_failures as nat, biome),
            scan_ordered(res@),
            distinct_records(res@),
            forall|i: int| 0 <= i < res@.len() ==> (#[trigger] res@[i]).x == x && res@[i].z == z,
            forall|y: i32, rot: i32, mirrored: bool|
                self.y_min <= y <= self.y_max && self.transform_enabled(rot as int, mirrored)
                    ==> #[trigger] self.reports_candidate(
                    res@,
                    x,
                    y,
                    z,
                    rot,
                    mirrored,
                    max_failures as nat,
                    biome,
                ),
    {
        let rot_count: i32 = if self.enumerate_rotations {
            4
        } else {
            1
        };
        let mut res: Vec<MatchRecord> = Vec::new();
        let mut rot: i32 = 0;
        while rot < rot_count
            invariant
                self.wf(),
                self.start_x <= x <= self.end_x,
                self.z_min <= z <= self.z_max,
                0 <= rot <= rot_count,
                rot_count == (if self.enumerate_rotations {
                    4i32
                } else {
                    1i32
                }),
                self.sound(res@, max_failures as nat, biome),
                scan_ordered(res@),
                forall|i: int|
                    0 <= i < res@.len() ==> (#[trigger] res@[i]).x == x && res@[i].z == z
                        && res@[i].rotation_offset < rot,
                forall|y: i32, rp: i32, mirrored: bool|
                    self.y_min <= y <= self.y_max && self.transform_enabled(rp as int, mirrored)
                        && rp < rot ==> #[trigger] self.reports_candidate(
                        res@,
                        x,
                        y,
                        z,
                        rp,
                        mirrored,
                        max_failures as nat,
                        biome,
                    ),
            decreases rot_count - rot,
        {
            let ghost before = res@;
            let mut part = self.scan_column(x, z, rot, false, max_failures, biome);
            let ghost part_plain = part@;
            res.append(&mut part);
            proof {
                assert forall|a: int, b: int|
                    0 <= a < before.len() && 0 <= b < part_plain.len() implies record_before(
                    #[trigger] before[a],
                    #[trigger] part_plain[b],
                ) by {
                    assert(before[a].rotation_offset < rot);
                    assert(part_plain[b].rotation_offset == rot && !part_plain[b].mirrored);
                }
                lemma_ordered_concat(before, part_plain);
                assert forall|y: i32, rp: i32, mirrored: bool|
                    self.y_min <= y <= self.y_max && self.transform_enabled(rp as int, mirrored)
                        && (rp < rot || (rp == rot && !mirrored)) implies #[trigger] self
                    .reports_candidate(
                    res@,
                    x,
                    y,
                    z,
                    rp,
                    mirrored,
                    max_failures as nat,
                    biome,
                ) by {
                    self.lemma_reports_candidate_extend(
                        before,
                        part_plain,
                        x,
                        y,
                        z,
                        rp,
                        mirrored,
                        max_failures as nat,
                        biome,
                    );
                }
            }
            if self.enumerate_mirror {
                let ghost before_m = res@;
                let mut part_m = self.scan_column(x, z, rot, true, max_failures, biome);
                let ghost part_m_plain = part_m@;
                res.append(&mut part_m);
                proof {
                    assert forall|a: int, b: int|
                        0 <= a < before_m.len() && 0 <= b < part_m_plain.len() implies record_before(
                        #[trigger] before_m[a],
                        #[trigger] part_m_plain[b],
                    ) by {
                        assert(part_m_plain[b].rotation_offset == rot && part_m_plain[b].mirrored);
                        if a < before.len() {
                            assert(before_m[a] == before[a]);
                            assert(before_m[a].rotation_offset < rot);
                        } else {
                            assert(before_m[a] == part_plain[a - before.len()]);
                            assert(before_m[a].rotation_offset == rot && !before_m[a].mirrored);
                        }
                    }
                    lemma_ordered_concat(before_m, part_m_plain);
                    assert forall|y: i32, rp: i32, mirrored: bool|
                        self.y_min <= y <= self.y_max && self.transform_enabled(
                            rp as int,
                            mirrored,
                        ) && rp <= rot implies #[trigger] self.reports_candidate(
                        res@,
                        x,
                        y,
                        z,
                        rp,
                        mirrored,
                        max_failures as nat,
                        biome,
                    ) by {
                        self.lemma_reports_candidate_extend(
                            before_m,
                            part_m_plain,
                            x,
                            y,
                            z,
                            rp,
                            mirrored,
                            max_failures as nat,
                            biome,
                        );
                    }
                }
            }
            rot = rot + 1;
        }
        proof {
            lemma_ordered_implies_distinct(res@);
        }
        res
    }

    /// Scan every column of one X slice under every enabled transform.
    fn scan_slice(&self, x: i32, max_failures: usize) -> (res: Vec<MatchRecord>)
        requires
            self.wf(),
            self.start_x <= x <= self.end_x,
        ensures
            self.sound(res@, max_failures as nat, None),
            scan_ordered(res@),
            distinct_records(res@),
            forall|i: int| 0 <= i < res@.len() ==> (#[trigger] res@[i]).x == x,
            forall|y: i32, z: i32, rot: i32, mirrored: bool|
                self.y_min <= y <= self.y_max && self.z_min <= z <= self.z_max
                    && self.transform_enabled(rot as int, mirrored) ==> #[trigger] self
                    .reports_candidate(res@, x, y, z, rot, mirrored, max_failures as nat, None),
    {
        let mut res: Vec<MatchRecord> = Vec::new();
        let mut z: i64 = self.z_min as i64;
        while z <= self.z_max as i64
            invariant
                self.wf(),
                self.start_x <= x <= self.end_x,
                self.z_min as i64 <= z <= self.z_max as i64 + 1,
                self.sound(res@, max_failures as nat, None),
                scan_ordered(res@),
                forall|i: int|
                    0 <= i < res@.len() ==> (#[trigger] res@[i]).x == x && (res@[i].z as i64) < z,
                forall|y: i32, zp: i32, rot: i32, mirrored: bool|
                    self.y_min <= y <= self.y_max && self.z_min <= zp && (zp as i64) < z
                        && self.transform_enabled(rot as int, mirrored) ==> #[trigger] self
                        .reports_candidate(res@, x, y, zp, rot, mirrored, max_failures as nat,
                        None),
            decreases self.z_max as i64 - z + 1,
        {
            let zz: i32 = z as i32;
            let ghost before = res@;
            let mut part = self.scan_transforms(x, zz, max_failures, None);
            let ghost part_plain = part@;
            res.append(&mut part);
            proof {
                assert forall|a: int, b: int|
                    0 <= a < before.len() && 0 <= b < part_plain.len() implies record_before(
                    #[trigger] before[a],
                    #[trigger] part_plain[b],
                ) by {
                    assert(before[a].x == x && (before[a].z as i64) < z);
                    assert(part_plain[b].x == x && part_plain[b].z == zz);
                }
                lemma_ordered_concat(before, part_plain);
                assert forall|y: i32, zp: i32, rot: i32, mirrored: bool|
                    self.y_min <= y <= self.y_max && self.z_min <= zp && (zp as i64) < z + 1
                        && self.transform_enabled(rot as int, mirrored) implies #[trigger] self
                    .reports_candidate(
                    res@,
                    x,
                    y,
                    zp,
                    rot,
                    mirrored,
                    max_failures as nat,
                    None,
                ) by {
                    self.lemma_reports_candidate_extend(
                        before,
                        part_plain,
                        x,
                        y,
                        zp,
                        rot,
                        mirrored,
                        max_failures as nat,
                        None,
                    );
                }
            }
            z = z + 1;
        }
        proof {
            lemma_ordered_implies_distinct(res@);
        }
        res
    }

    /// Scan the worker's whole sub-volume, tolerating up to `max_failures`
    /// mismatched blocks per candidate. The result holds one record, in
    /// scan order, for every candidate anchor and enabled transform whose
    /// mismatch count is within the tolerance, and nothing else.
    pub fn run_with_tolerance(&self, max_failures: usize) -> (res: Vec<MatchRecord>)
        requires
            self.wf(),
        ensures
            self.sound(res@, max_failures as nat, None),
            scan_ordered(res@),
            distinct_records(res@),
            forall|x: i32, y: i32, z: i32, rot: i32, mirrored: bool|
                self.in_domain(x, y, z) && self.transform_enabled(rot as int, mirrored)
                    ==> #[trigger] self.reports_candidate(
                    res@,
                    x,
                    y,
                    z,
                    rot,
                    mirrored,
                    max_failures as nat,
                    None,
                ),
    {
        let mut res: Vec<MatchRecord> = Vec::new();
        let mut x: i64 = self.start_x as i64;
        while x <= self.end_x as i64
            invariant
                self.wf(),
                self.start_x as i64 <= x <= self.end_x as i64 + 1,
                self.sound(res@, max_failures as nat, None),
                scan_ordered(res@),
                forall|i: int| 0 <= i < res@.len() ==> ((#[trigger] res@[i]).x as i64) < x,
                forall|xp: i32, y: i32, z: i32, rot: i32, mirrored: bool|
                    self.start_x <= xp && (xp as i64) < x && self.y_min <= y <= self.y_max
                        && self.z_min <= z <= self.z_max && self.transform_enabled(
                        rot as int,
                        mirrored,
                    ) ==> #[trigger] self.reports_candidate(
                        res@,
                        xp,
                        y,
                        z,
                        rot,
                        mirrored,
                        max_failures as nat,
                        None,
                    ),
            decreases self.end_x as i64 - x + 1,
        {
            let xx: i32 = x as i32;
            let ghost before = res@;
            let mut part = self.scan_slice(xx, max_failures);
            let ghost part_plain = part@;
            res.append(&mut part);
            proof {
                assert forall|a: int, b: int|
                    0 <= a < before.len() && 0 <= b < part_plain.len() implies record_before(
                    #[trigger] before[a],
                    #[trigger] part_plain[b],
                ) by {
                    assert((before[a].x as i64) < x);
                    assert(part_plain[b].x == xx);
                }
                lemma_ordered_concat(before, part_plain);
                assert forall|xp: i32, y: i32, z: i32, rot: i32, mirrored: bool|
                    self.start_x <= xp && (xp as i64) < x + 1 && self.y_min <= y <= self.y_max
                        && self.z_min <= z <= self.z_max && self.transform_enabled(
                        rot as int,
                        mirrored,
                    ) implies #[trigger] self.reports_candidate(
                    res@,
                    xp,
                    y,
                    z,
                    rot,
                    mirrored,
                    max_failures as nat,
                    None,
                ) by {
                    self.lemma_reports_candidate_extend(
                        before,
                        part_plain,
                        xp,
                        y,
                        z,
                        rot,
                        mirrored,
                        max_failures as nat,
                        None,
                    );
                }
            }
            x = x + 1;
        }
        proof {
            lemma_ordered_implies_distinct(res@);
        }
        res
    }

    /// Exact-mode scan: a candidate is reported only when every block of
    /// the formation shows its expected rotation.
    pub fn run(&self) -> (res: Vec<MatchRecord>)
        requires
            self.wf(),
        ensures
            self.sound(res@, 0, None),
            scan_ordered(res@),
            distinct_records(res@),
            forall|x: i32, y: i32, z: i32, rot: i32, mirrored: bool|
                self.in_domain(x, y, z) && self.transform_enabled(rot as int, mirrored)
                    ==> #[trigger] self.reports_candidate(res@, x, y, z, rot, mirrored, 0, None),
    {
        self.run_with_tolerance(0)
    }

    /// Every record of `s` sits in a column whose cached biome passes the
    /// filter, carries that biome, and is a true match within tolerance.
    pub open spec fn sound_filtered(
        self,
        s: Seq<MatchRecord>,
        tolerance: nat,
        window: BiomeWindow,
        filter: Seq<i32>,
    ) -> bool {
        forall|i: int|
            0 <= i < s.len() ==> {
                let r = #[trigger] s[i];
                &&& self.is_reported(
                    r,
                    tolerance,
                    Some(window.cell(r.x as int, r.z as int)),
                )
                &&& filter.contains(window.cell(r.x as int, r.z as int))
            }
    }

    /// Scan one X slice with the biome pre-filter: a column is tried only
    /// when the cached biome of `(x, z)` belongs to the filter set.
    fn scan_slice_filtered(
        &self,
        x: i32,
        window: &BiomeWindow,
        filter: &Vec<i32>,
        max_failures: usize,
    ) -> (res: Vec<MatchRecord>)
        requires
            self.wf(),
            window.wf(),
            self.start_x <= x <= self.end_x,
            window.covers_rect(
                self.start_x as int,
                self.end_x as int,
                self.z_min as int,
                self.z_max as int,
            ),
        ensures
            self.sound_filtered(res@, max_failures as nat, *window, filter@),
            scan_ordered(res@),
            distinct_records(res@),
            forall|i: int| 0 <= i < res@.len() ==> (#[trigger] res@[i]).x == x,
            forall|y: i32, z: i32, rot: i32, mirrored: bool|
                self.y_min <= y <= self.y_max && self.z_min <= z <= self.z_max
                    && self.transform_enabled(rot as int, mirrored) && filter@.contains(
                    window.cell(x as int, z as int),
                ) ==> #[trigger] self.reports_candidate(
                    res@,
                    x,
                    y,
                    z,
                    rot,
                    mirrored,
                    max_failures as nat,
                    Some(window.cell(x as int, z as int)),
                ),
    {
        let mut res: Vec<MatchRecord> = Vec::new();
        let mut z: i64 = self.z_min as i64;
        while z <= self.z_max as i64
            invariant
                self.wf(),
                window.wf(),
                self.start_x <= x <= self.end_x,
                window.covers_rect(
                    self.start_x as int,
                    self.end_x as int,
                    self.z_min as int,
                    self.z_max as int,
                ),
                self.z_min as i64 <= z <= self.z_max as i64 + 1,
                self.sound_filtered(res@, max_failures as nat, *window, filter@),
                scan_ordered(res@),
                forall|i: int|
                    0 <= i < res@.len() ==> (#[trigger] res@[i]).x == x && (res@[i].z as i64) < z,
                forall|y: i32, zp: i32, rot: i32, mirrored: bool|
                    self.y_min <= y <= self.y_max && self.z_min <= zp && (zp as i64) < z
                        && self.transform_enabled(rot as int, mirrored) && filter@.contains(
                        window.cell(x as int, zp as int),
                    ) ==> #[trigger] self.reports_candidate(
                        res@,
                        x,
                        y,
                        zp,
                        rot,
                        mirrored,
                        max_failures as nat,
                        Some(window.cell(x as int, zp as int)),
                    ),
            decreases self.z_max as i64 - z + 1,
        {
            let zz: i32 = z as i32;
            let biome_here: i32 = window.get_biome_at(x, zz);
            if contains_id(filter, biome_here) {
                let ghost before = res@;
                let mut part = self.scan_transforms(x, zz, max_failures, Some(biome_here));
                let ghost part_plain = part@;
                res.append(&mut part);
                proof {
                    assert forall|a: int, b: int|
                        0 <= a < before.len() && 0 <= b < part_plain.len() implies record_before(
                        #[trigger] before[a],
                        #[trigger] part_plain[b],
                    ) by {
                        assert(before[a].x == x && (before[a].z as i64) < z);
                        assert(part_plain[b].x == x && part_plain[b].z == zz);
                    }
                    lemma_ordered_concat(before, part_plain);
                    assert forall|y: i32, zp: i32, rot: i32, mirrored: bool|
                        self.y_min <= y <= self.y_max && self.z_min <= zp && (zp as i64) < z + 1
                            && self.transform_enabled(rot as int, mirrored) && filter@.contains(
                            window.cell(x as int, zp as int),
                        ) implies #[trigger] self.reports_candidate(
                        res@,
                        x,
                        y,
                        zp,
                        rot,
                        mirrored,
                        max_failures as nat,
                        Some(window.cell(x as int, zp as int)),
                    ) by {
                        self.lemma_reports_candidate_extend(
                            before,
                            part_plain,
                            x,
                            y,
                            zp,
                            rot,
                            mirrored,
                            max_failures as nat,
                            Some(window.cell(x as int, zp as int)),
                        );
                    }
                }
            }
            z = z + 1;
        }
        proof {
            lemma_ordered_implies_distinct(res@);
        }
        res
    }

    /// Scan the worker's whole sub-volume with the biome pre-filter active:
    /// a column is tried only when the cached biome at its `(x, z)` belongs
    /// to the filter set, and every reported match carries that biome. As
    /// in the unfiltered scan, each matching candidate is reported exactly
    /// once, in scan order.
    pub fn run_filtered(
        &self,
        window: &BiomeWindow,
        filter: &Vec<i32>,
        max_failures: usize,
    ) -> (res: Vec<MatchRecord>)
        requires
            self.wf(),
            window.wf(),
            window.covers_rect(
                self.start_x as int,
                self.end_x as int,
                self.z_min as int,
                self.z_max as int,
            ),
        ensures
            self.sound_filtered(res@, max_failures as nat, *window, filter@),
            scan_ordered(res@),
            distinct_records(res@),
            forall|x: i32, y: i32, z: i32, rot: i32, mirrored: bool|
                self.in_domain(x, y, z) && self.transform_enabled(rot as int, mirrored)
                    && filter@.contains(window.cell(x as int, z as int)) ==> #[trigger] self
                    .reports_candidate(
                    res@,
                    x,
                    y,
                    z,
                    rot,
                    mirrored,
                    max_failures as nat,
                    Some(window.cell(x as int, z as int)),
                ),
    {
        let mut res: Vec<MatchRecord> = Vec::new();
        let mut x: i64 = self.start_x as i64;
        while x <= self.end_x as i64
            invariant
                self.wf(),
                window.wf(),
                window.covers_rect(
                    self.start_x as int,
                    self.end_x as int,
                    self.z_min as int,
                    self.z_max as int,
                ),
                self.start_x as i64 <= x <= self.end_x as i64 + 1,
                self.sound_filtered(res@, max_failures as nat, *window, filter@),
                scan_ordered(res@),
                forall|i: int| 0 <= i < res@.len() ==> ((#[trigger] res@[i]).x as i64) < x,
                forall|xp: i32, y: i32, z: i32, rot: i32, mirrored: bool|
                    self.start_x <= xp && (xp as i64) < x && self.y_min <= y <= self.y_max
                        && self.z_min <= z <= self.z_max && self.transform_enabled(
                        rot as int,
                        mirrored,
                    ) && filter@.contains(window.cell(xp as int, z as int)) ==> #[trigger] self
                        .reports_candidate(
                        res@,
                        xp,
                        y,
                        z,
                        rot,
                        mirrored,
                        max_failures as nat,
                        Some(window.cell(xp as int, z as int)),
                    ),
            decreases self.end_x as i64 - x + 1,
        {
            let xx: i32 = x as i32;
            let ghost before = res@;
            let mut part = self.scan_slice_filtered(xx, window, filter, max_failures);
            let ghost part_plain = part@;
            res.append(&mut part);
            proof {
                assert forall|a: int, b: int|
                    0 <= a < before.len() && 0 <= b < part_plain.len() implies record_before(
                    #[trigger] before[a],
                    #[trigger] part_plain[b],
                ) by {
                    assert((before[a].x as i64) < x);
                    assert(part_plain[b].x == xx);
                }
                lemma_ordered_concat(before, part_plain);
                assert forall|xp: i32, y: i32, z: i32, rot: i32, mirrored: bool|
                    self.start_x <= xp && (xp as i64) < x + 1 && self.y_min <= y <= self.y_max
                        && self.z_min <= z <= self.z_max && self.transform_enabled(
                        rot as int,
                        mirrored,
                    ) && filter@.contains(window.cell(xp as int, z as int)) implies #[trigger] self
                    .reports_candidate(
                    res@,
                    xp,
                    y,
                    z,
                    rot,
                    mirrored,
                    max_failures as nat,
                    Some(window.cell(xp as int, z as int)),
                ) by {
                    self.lemma_reports_candidate_extend(
                        before,
                        part_plain,
                        xp,
                        y,
                        z,
                        rot,
                        mirrored,
                        max_failures as nat,
                        Some(window.cell(xp as int, z as int)),
                    );
                }
            }
            x = x + 1;
        }
        proof {
            lemma_ordered_implies_distinct(res@);
        }
        res
    }
}

/// Monotonic tolerance: every record a sound run reports within a smaller
/// tolerance is also reported by any complete run of the same finder with a
/// larger tolerance — raising the tolerance can only enlarge the reported
/// set.
pub proof fn lemma_tolerance_monotone<T: TextureProvider>(
    finder: TextureFinder<T>,
    smaller: Seq<MatchRecord>,
    larger: Seq<MatchRecord>,
    t1: nat,
    t2: nat,
)
    requires
        t1 <= t2,
        finder.sound(smaller, t1, None),
        forall|x: i32, y: i32, z: i32, rot: i32, mirrored: bool|
            finder.in_domain(x, y, z) && finder.transform_enabled(rot as int, mirrored)
                ==> #[trigger] finder.reports_candidate(larger, x, y, z, rot, mirrored, t2, None),
    ensures
        forall|i: int| 0 <= i < smaller.len() ==> larger.contains(#[trigger] smaller[i]),
{
    assert forall|i: int| 0 <= i < smaller.len() implies larger.contains(#[trigger] smaller[i]) by {
        let r = smaller[i];
        assert(finder.is_reported(r, t1, None));
        assert(finder.reports_candidate(larger, r.x, r.y, r.z, r.rotation_offset, r.mirrored, t2,
        None));
        assert(match_record_for::<T>(
            finder.placement,
            r.x,
            r.y,
            r.z,
            r.rotation_offset,
            r.mirrored,
            None,
        ) == r);
    }
}

/// Symmetry completeness: with mirror and four-way rotation enumeration
/// both enabled, a complete run decides all eight transforms of every
/// anchor in the sub-volume, each one against the whole formation's
/// mismatch count.
pub proof fn lemma_symmetry_completeness<T: TextureProvider>(
    finder: TextureFinder<T>,
    res: Seq<MatchRecord>,
    tolerance: nat,
)
    requires
        finder.enumerate_rotations,
        finder.enumerate_mirror,
        forall|x: i32, y: i32, z: i32, rot: i32, mirrored: bool|
            finder.in_domain(x, y, z) && finder.transform_enabled(rot as int, mirrored)
                ==> #[trigger] finder.reports_candidate(
                res,
                x,
                y,
                z,
                rot,
                mirrored,
                tolerance,
                None,
            ),
    ensures
        forall|x: i32, y: i32, z: i32, rot: i32, mirrored: bool|
            finder.in_domain(x, y, z) && 0 <= rot < 4 && candidate_mismatches::<T>(
                finder.placement,
                x,
                y,
                z,
                rot as int,
                mirrored,
            ) <= tolerance ==> res.contains(#[trigger] match_record_for::<T>(
                finder.placement,
                x,
                y,
                z,
                rot,
                mirrored,
                None,
            )),
{
    assert forall|x: i32, y: i32, z: i32, rot: i32, mirrored: bool|
        finder.in_domain(x, y, z) && 0 <= rot < 4 && candidate_mismatches::<T>(
            finder.placement,
            x,
            y,
            z,
            rot as int,
            mirrored,
        ) <= tolerance implies res.contains(#[trigger] match_record_for::<T>(
        finder.placement,
        x,
        y,
        z,
        rot,
        mirrored,
        None,
    )) by {
        assert(finder.transform_enabled(rot as int, mirrored));
        assert(finder.reports_candidate(res, x, y, z, rot, mirrored, tolerance, None));
    }
}

/// Linear membership test in the configured biome-identifier filter set.
fn contains_id(ids: &Vec<i32>, id: i32) -> (r: bool)
    ensures
        r == ids@.contains(id),
{
    let mut k: usize = 0;
    while k < ids.len()
        invariant
            k <= ids@.len(),
            forall|j: int| 0 <= j < k as int ==> ids@[j] != id,
        decreases ids@.len() - k,
    {
        if ids[k] == id {
            return true;
        }
        k = k + 1;
    }
    false
}

} // verus!
