//! The call into the rectangle packer.

use crate::geometry::Placed;
use rectangle_pack as rp;
use std::collections::BTreeMap;
use vstd::prelude::*;

verus! {

/// What `rectangle_pack::pack_rects` hands back for `sizes` in `count` bins of
/// `w` by `h`, as (id, bin, x, y) in the order of its map; `None` on failure.
pub uninterp spec fn packed_of(sizes: Seq<(u32, u32)>, w: u32, h: u32, count: u32) -> Option<Seq<Placed>>;

/// Relies on `rectangle_pack::pack_rects`, with the volume heuristic and the
/// smallest-box tie break. Each size becomes one rect of depth 1 whose id is
/// its position; there are `count` bins of `w` by `h`, keyed `0..count`. Each
/// placement comes back as (id, bin, x, y), in the order of the packer's
/// ordered map; `None` where the packer reports failure. The result depends on
/// the arguments alone; nothing is assumed of the placements: callers check them.
#[verifier::external_body]
pub(crate) fn pack_attempt(sizes: &Vec<(u32, u32)>, w: u32, h: u32, count: u32) -> (r: Option<Vec<Placed>>)
    ensures
        r is None <==> packed_of(sizes@, w, h, count) is None,
        r matches Some(v) ==> packed_of(sizes@, w, h, count) == Some(v@),
{
    let mut rects = rp::GroupedRectsToPlace::<usize, usize>::new();
    for (id, s) in sizes.iter().enumerate() {
        rects.push_rect(id, None, rp::RectToInsert::new(s.0, s.1, 1));
    }
    let mut bins: BTreeMap<usize, rp::TargetBin> =
        (0..count as usize).map(|i| (i, rp::TargetBin::new(w, h, 1))).collect();
    let packed = rp::pack_rects(&rects, &mut bins, &rp::volume_heuristic, &rp::contains_smallest_box).ok()?;
    Some(packed.packed_locations().iter().map(|(id, (b, l))| (*id, *b, l.x(), l.y())).collect())
}

} // verus!
