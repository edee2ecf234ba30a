//! The search for an atlas size at which the packer finds a valid arrangement.

use crate::error::AtlasError;
use crate::geometry::{
    apart, arrange, compact, first_seen, index_seen_before, no_overlap, placed_rect,
    placement_ok, same_spot, within_bins, Placed, Rect,
};
use crate::packer::{pack_attempt, packed_of};
use crate::search::{bin_count, grow, max_side, next_side, usable_bins, AtlasOptions};
use vstd::prelude::*;

verus! {

/// An accepted arrangement: the atlas size, the number of atlases, and the
/// padded rectangle of each image, numbered by first use.
#[derive(Debug)]
pub struct Plan {
    pub width: u32,
    pub height: u32,
    pub count: usize,
    pub slots: Vec<Rect>,
}

/// The padded rectangles of `p` are a valid arrangement of `sizes` on
/// `p.count` atlases of `p.width` by `p.height`, numbered by first use.
pub open spec fn arrangement_ok(sizes: Seq<(u32, u32)>, p: Plan) -> bool {
    &&& p.slots.len() == sizes.len()
    &&& forall|i: int|
        0 <= i < sizes.len() ==> (#[trigger] p.slots[i]).width == sizes[i].0 && p.slots[i].height
            == sizes[i].1
    &&& within_bins(p.slots@, p.width as int, p.height as int, p.count as int)
    &&& no_overlap(p.slots@)
    &&& first_seen(p.slots@)
    &&& forall|a: int| 0 <= a < p.count ==> #[trigger] index_seen_before(p.slots@, sizes.len() as int, a)
}

/// What the planner promises of an accepted plan for `sizes` under `o`: a valid
/// arrangement within the allowed number of atlases, at a size between the
/// largest padded image and the configured size.
pub open spec fn plan_ok(sizes: Seq<(u32, u32)>, o: AtlasOptions, p: Plan) -> bool {
    &&& arrangement_ok(sizes, p)
    &&& p.count <= o.max_atlantes
    &&& p.width <= o.width && p.height <= o.height
    &&& forall|i: int| 0 <= i < sizes.len() ==> (#[trigger] sizes[i]).0 <= p.width && sizes[i].1 <= p.height
    &&& o.try_smaller is None ==> p.width == o.width && p.height == o.height
}

/// The packer, asked for `count` bins of `w` by `h`, hands back a valid arrangement.
pub open spec fn attempt_ok(sizes: Seq<(u32, u32)>, w: int, h: int, count: int) -> bool {
    &&& 0 <= w <= u32::MAX && 0 <= h <= u32::MAX && 0 <= count <= u32::MAX
    &&& packed_of(sizes, w as u32, h as u32, count as u32) matches Some(ps)
    &&& placement_ok(sizes, w, h, count, ps)
}

/// The first candidate size from `(w, h)` on at which the packer succeeds:
/// each failed attempt grows both sides by the factor, up to the cap; without
/// a factor, or once both sides reach the cap, the search ends.
pub open spec fn first_fit(sizes: Seq<(u32, u32)>, o: AtlasOptions, count: int, w: int, h: int) -> Option<(u32, u32)>
    decreases o.width - w + o.height - h,
{
    if w > o.width || h > o.height || w < 0 || h < 0 {
        None
    } else if attempt_ok(sizes, w, h, count) {
        Some((w as u32, h as u32))
    } else if (w == o.width && h == o.height) || o.try_smaller is None {
        None
    } else {
        let f = o.try_smaller->Some_0;
        first_fit(sizes, o, count, next_side(w, o.width as int, f), next_side(h, o.height as int, f))
    }
}

/// The number of bins offered for `sizes` under `o`.
pub open spec fn bins_for(sizes: Seq<(u32, u32)>, o: AtlasOptions) -> int {
    usable_bins(sizes.len() as int, max_side(sizes, true), max_side(sizes, false), o)
}

/// The size at which the search for `sizes` under `o` succeeds, if any: it
/// starts at the largest padded image with `try_smaller`, else at the cap.
pub open spec fn search_result(sizes: Seq<(u32, u32)>, o: AtlasOptions) -> Option<(u32, u32)> {
    let (w, h) = if o.try_smaller is Some {
        (max_side(sizes, true), max_side(sizes, false))
    } else {
        (o.width as int, o.height as int)
    };
    first_fit(sizes, o, bins_for(sizes, o), w, h)
}

/// Turns what the packer handed back for bins of `w` by `h` into a plan:
/// `None` exactly when it is not a valid arrangement; otherwise each image
/// keeps the spot that the packer gave it, and the bins are numbered by first use.
pub fn place(sizes: &Vec<(u32, u32)>, w: u32, h: u32, bins: usize, placed: &Vec<Placed>) -> (r: Option<Plan>)
    ensures
        r is Some <==> placement_ok(sizes@, w as int, h as int, bins as int, placed@),
        r matches Some(p) ==> {
            &&& arrangement_ok(sizes@, p)
            &&& p.width == w && p.height == h && p.count <= bins
            &&& forall|k: int|
                0 <= k < placed.len() ==> same_spot(
                    p.slots[(#[trigger] placed[k]).0 as int],
                    placed_rect(sizes@, placed[k]),
                )
        },
{
    match arrange(sizes, w, h, bins, placed) {
        None => None,
        Some(rs) => {
            let (slots, count) = compact(&rs, bins);
            proof {
                assert forall|i: int, j: int|
                    0 <= i < slots.len() && 0 <= j < slots.len() && i != j && slots[i].atlas_index
                        == slots[j].atlas_index implies #[trigger] apart(slots[i], slots[j]) by {
                    assert(apart(rs[i], rs[j]));
                }
                assert forall|k: int| 0 <= k < placed.len() implies same_spot(
                    slots[(#[trigger] placed[k]).0 as int],
                    placed_rect(sizes@, placed[k]),
                ) by {
                    assert(same_spot(slots[placed[k].0 as int], rs[placed[k].0 as int]));
                }
            }
            Some(Plan { width: w, height: h, count, slots })
        },
    }
}

/// Searches for an atlas size at which the packer arranges the padded
/// `sizes`. Without `try_smaller` it makes one attempt at the configured
/// size; with it, it starts at the largest padded image and grows each side by
/// the factor, at least by one and at most to the configured size, until an
/// attempt succeeds. Fails with `PackingError` when the attempt at the
/// configured size fails.
pub fn plan(sizes: &Vec<(u32, u32)>, options: &AtlasOptions) -> (r: Result<Plan, AtlasError>)
    requires
        forall|i: int|
            0 <= i < sizes.len() ==> (#[trigger] sizes[i]).0 <= options.width && sizes[i].1
                <= options.height,
    ensures
        r is Ok <==> search_result(sizes@, *options) is Some,
        r matches Ok(p) ==> {
            &&& plan_ok(sizes@, *options, p)
            &&& search_result(sizes@, *options) == Some((p.width, p.height))
            &&& packed_of(sizes@, p.width, p.height, bins_for(sizes@, *options) as u32) matches Some(ps)
            &&& forall|k: int|
                0 <= k < ps.len() ==> (#[trigger] ps[k]).0 < sizes.len() && same_spot(
                    p.slots[ps[k].0 as int],
                    placed_rect(sizes@, ps[k]),
                )
        },
        r matches Err(e) ==> e is PackingError,
{
    let n = sizes.len();
    let mut mw: u32 = 0;
    let mut mh: u32 = 0;
    let mut i: usize = 0;
    while i < n
        invariant
            n == sizes.len(),
            i <= n,
            mw <= options.width,
            mh <= options.height,
            forall|i: int|
                0 <= i < sizes.len() ==> (#[trigger] sizes[i]).0 <= options.width && sizes[i].1
                    <= options.height,
            forall|j: int| 0 <= j < i ==> (#[trigger] sizes[j]).0 <= mw && sizes[j].1 <= mh,
            mw == max_side(sizes@.take(i as int), true),
            mh == max_side(sizes@.take(i as int), false),
        decreases n - i,
    {
        assert(sizes@.take(i + 1).drop_last() == sizes@.take(i as int));
        if sizes[i].0 > mw {
            mw = sizes[i].0;
        }
        if sizes[i].1 > mh {
            mh = sizes[i].1;
        }
        i += 1;
    }
    assert(sizes@.take(n as int) == sizes@);
    let count = bin_count(n, mw, mh, options);
    let (mut cw, mut ch) = match options.try_smaller {
        Some(_) => (mw, mh),
        None => (options.width, options.height),
    };
    loop
        invariant
            n == sizes.len(),
            mw <= cw <= options.width,
            mh <= ch <= options.height,
            count == usable_bins(n as int, mw as int, mh as int, *options),
            count <= options.max_atlantes,
            forall|j: int| 0 <= j < n ==> (#[trigger] sizes[j]).0 <= mw && sizes[j].1 <= mh,
            options.try_smaller is None ==> cw == options.width && ch == options.height,
            count == bins_for(sizes@, *options),
            first_fit(sizes@, *options, count as int, cw as int, ch as int) == search_result(sizes@, *options),
        decreases (options.width - cw) + (options.height - ch),
    {
        if let Some(placed) = pack_attempt(sizes, cw, ch, count) {
            if let Some(p) = place(sizes, cw, ch, count as usize, &placed) {
                return Ok(p);
            }
        }
        assert(!attempt_ok(sizes@, cw as int, ch as int, count as int));
        if cw == options.width && ch == options.height {
            return Err(AtlasError::PackingError);
        }
        if let Some(f) = options.try_smaller {
            if cw < options.width {
                cw = grow(cw, options.width, f);
            }
            if ch < options.height {
                ch = grow(ch, options.height, f);
            }
        }
    }
}

} // verus!
