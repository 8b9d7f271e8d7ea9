//! The two-group representation of a formation: blocks compared modulo 4
//! (tops and bottoms) and blocks compared modulo 2 (sides).

use vstd::prelude::*;
use crate::rotation_info::RotationInfo;

verus! {

/// The non-side blocks of a formation, in formation order.
pub open spec fn tops_and_bottoms_of(formation: Seq<RotationInfo>) -> Seq<RotationInfo> {
    formation.filter(|b: RotationInfo| !b.is_side)
}

/// The side blocks of a formation, in formation order.
pub open spec fn sides_of(formation: Seq<RotationInfo>) -> Seq<RotationInfo> {
    formation.filter(|b: RotationInfo| b.is_side)
}

/// A formation split into its two modulo classes. The split is a stable
/// partition: each group keeps the formation's relative order.
#[derive(Debug, Clone)]
pub struct Placement {
    pub tops_and_bottoms: Vec<RotationInfo>,
    pub sides: Vec<RotationInfo>,
}

impl Placement {
    pub fn new(formation: &[RotationInfo]) -> (p: Self)
        ensures
            p.tops_and_bottoms@ == tops_and_bottoms_of(formation@),
            p.sides@ == sides_of(formation@),
            p.partitioned(),
    {
        let mut tops_and_bottoms: Vec<RotationInfo> = Vec::new();
        let mut sides: Vec<RotationInfo> = Vec::new();
        let mut i: usize = 0;
        while i < formation.len()
            invariant
                i <= formation@.len(),
                tops_and_bottoms@ == tops_and_bottoms_of(formation@.subrange(0, i as int)),
                sides@ == sides_of(formation@.subrange(0, i as int)),
            decreases formation@.len() - i,
        {
            let info = formation[i];
            proof {
                reveal(Seq::filter);
                let prefix = formation@.subrange(0, i as int);
                let extended = formation@.subrange(0, i + 1);
                assert(extended.drop_last() =~= prefix);
                assert(extended.last() == info);
                if info.is_side {
                    assert(sides_of(extended) == sides_of(prefix).push(info));
                    assert(tops_and_bottoms_of(extended) == tops_and_bottoms_of(prefix));
                } else {
                    assert(sides_of(extended) == sides_of(prefix));
                    assert(tops_and_bottoms_of(extended) == tops_and_bottoms_of(prefix).push(info));
                }
            }
            if info.is_side {
                sides.push(info);
            } else {
                tops_and_bottoms.push(info);
            }
            i = i + 1;
        }
        proof {
            assert(formation@.subrange(0, formation@.len() as int) =~= formation@);
            let whole = formation@;
            assert forall|j: int|
                0 <= j < tops_and_bottoms_of(whole).len() implies !tops_and_bottoms_of(
                whole,
            )[j].is_side by {
                whole.lemma_filter_pred(|b: RotationInfo| !b.is_side, j);
            }
            assert forall|j: int|
                0 <= j < sides_of(whole).len() implies sides_of(whole)[j].is_side by {
                whole.lemma_filter_pred(|b: RotationInfo| b.is_side, j);
            }
        }
        Self { tops_and_bottoms, sides }
    }

    /// The two groups really are the two modulo classes: no side block sits
    /// among the tops and bottoms, and only side blocks sit in `sides`.
    pub open spec fn partitioned(self) -> bool {
        &&& forall|i: int|
            0 <= i < self.tops_and_bottoms@.len() ==> !(#[trigger] self.tops_and_bottoms@[i]).is_side
        &&& forall|i: int| 0 <= i < self.sides@.len() ==> (#[trigger] self.sides@[i]).is_side
    }

}

} // verus!
