//! Plain-value geometry of a layout: placement records, checks on what the
//! rectangle packer hands back, compact atlas numbering and trimming bounds.

use vstd::prelude::*;
use vstd::set_lib::{lemma_int_range, lemma_len_subset, set_int_range};

verus! {

/// Describes an image as part of an atlas.
#[derive(Debug, Clone, Copy, PartialEq, Eq, Structural)]
pub struct Rect {
    pub width: u32,
    pub height: u32,
    pub x: u32,
    pub y: u32,
    pub atlas_index: usize,
}

/// Two rectangles leave each other alone along at least one axis.
pub open spec fn apart(a: Rect, b: Rect) -> bool {
    a.x + a.width <= b.x || b.x + b.width <= a.x || a.y + a.height <= b.y || b.y + b.height
        <= a.y
}

/// No two rectangles that share an atlas overlap.
pub open spec fn no_overlap(rs: Seq<Rect>) -> bool {
    forall|i: int, j: int|
        0 <= i < rs.len() && 0 <= j < rs.len() && i != j && rs[i].atlas_index
            == rs[j].atlas_index ==> #[trigger] apart(rs[i], rs[j])
}

/// Every rectangle lies inside a bin of the given size, among `count` bins.
pub open spec fn within_bins(rs: Seq<Rect>, w: int, h: int, count: int) -> bool {
    forall|i: int|
        0 <= i < rs.len() ==> (#[trigger] rs[i]).atlas_index < count && rs[i].x + rs[i].width
            <= w && rs[i].y + rs[i].height <= h
}

/// A placement from the packer: image id, bin, and the image's origin in the bin.
pub type Placed = (usize, usize, u32, u32);

/// The padded rectangle that a placement puts down.
pub open spec fn placed_rect(sizes: Seq<(u32, u32)>, p: Placed) -> Rect {
    Rect { width: sizes[p.0 as int].0, height: sizes[p.0 as int].1, x: p.2, y: p.3, atlas_index: p.1 }
}

/// Each id below `n` is placed exactly once, and no other id is placed.
pub open spec fn ids_exact(placed: Seq<Placed>, n: int) -> bool {
    &&& forall|k: int| 0 <= k < placed.len() ==> (#[trigger] placed[k]).0 < n
    &&& forall|k1: int, k2: int|
        0 <= k1 < placed.len() && 0 <= k2 < placed.len() && k1 != k2 ==> (#[trigger] placed[k1]).0
            != (#[trigger] placed[k2]).0
    &&& forall|id: int| 0 <= id < n ==> #[trigger] is_placed(placed, id)
}

/// Some placement puts down image `id`.
pub open spec fn is_placed(placed: Seq<Placed>, id: int) -> bool {
    exists|k: int| 0 <= k < placed.len() && #[trigger] placed[k].0 == id
}

/// What the packer handed back is a valid arrangement of the padded sizes
/// into `count` bins of `w` by `h`.
pub open spec fn placement_ok(sizes: Seq<(u32, u32)>, w: int, h: int, count: int, placed: Seq<Placed>) -> bool {
    &&& ids_exact(placed, sizes.len() as int)
    &&& forall|k: int| 0 <= k < placed.len() ==> {
        let r = #[trigger] placed_rect(sizes, placed[k]);
        r.atlas_index < count && r.x + r.width <= w && r.y + r.height <= h
    }
    &&& forall|k1: int, k2: int|
        0 <= k1 < placed.len() && 0 <= k2 < placed.len() && k1 != k2 && placed[k1].1 == placed[k2].1
            ==> apart(#[trigger] placed_rect(sizes, placed[k1]), #[trigger] placed_rect(sizes, placed[k2]))
}


/// Whether two rectangles leave each other alone along at least one axis.
pub fn rects_apart(a: &Rect, b: &Rect) -> (r: bool)
    ensures
        r == apart(*a, *b),
{
    a.x as u64 + a.width as u64 <= b.x as u64 || b.x as u64 + b.width as u64 <= a.x as u64
        || a.y as u64 + a.height as u64 <= b.y as u64 || b.y as u64 + b.height as u64
        <= a.y as u64
}

/// Whether no two rectangles that share an atlas overlap.
pub fn overlap_free(rs: &Vec<Rect>) -> (r: bool)
    ensures
        r == no_overlap(rs@),
{
    let n = rs.len();
    let mut i: usize = 0;
    while i < n
        invariant
            n == rs.len(),
            forall|a: int, b: int|
                0 <= a < i && 0 <= b < n && a != b && rs[a].atlas_index == rs[b].atlas_index
                    ==> #[trigger] apart(rs[a], rs[b]),
        decreases n - i,
    {
        let mut j: usize = 0;
        while j < n
            invariant
                n == rs.len(),
                i < n,
                forall|a: int, b: int|
                    0 <= a < i && 0 <= b < n && a != b && rs[a].atlas_index == rs[b].atlas_index
                        ==> #[trigger] apart(rs[a], rs[b]),
                forall|b: int|
                    0 <= b < j && i != b && rs[i as int].atlas_index == rs[b].atlas_index
                        ==> #[trigger] apart(rs[i as int], rs[b]),
            decreases n - j,
        {
            if j != i && rs[i].atlas_index == rs[j].atlas_index && !rects_apart(&rs[i], &rs[j]) {
                return false;
            }
            j += 1;
        }
        i += 1;
    }
    true
}

/// Checks what the packer handed back and orders it by image id: the padded
/// rectangles, with the packer's bin as `atlas_index`. `None` exactly when the
/// placements are not a valid arrangement of `sizes` into `count` bins of `w`
/// by `h`.
pub fn arrange(sizes: &Vec<(u32, u32)>, w: u32, h: u32, count: usize, placed: &Vec<Placed>) -> (r:
    Option<Vec<Rect>>)
    ensures
        r is Some <==> placement_ok(sizes@, w as int, h as int, count as int, placed@),
        r matches Some(rs) ==> {
            &&& rs.len() == sizes.len()
            &&& forall|k: int|
                0 <= k < placed.len() ==> rs[(#[trigger] placed[k]).0 as int] == placed_rect(
                    sizes@,
                    placed[k],
                )
            &&& forall|i: int|
                0 <= i < rs.len() ==> (#[trigger] rs[i]).width == sizes[i].0 && rs[i].height
                    == sizes[i].1
            &&& within_bins(rs@, w as int, h as int, count as int)
            &&& no_overlap(rs@)
        },
{
    let n = sizes.len();
    let mut by_id: Vec<Option<Rect>> = Vec::new();
    while by_id.len() < n
        invariant
            n == sizes.len(),
            by_id.len() <= n,
            forall|id: int| 0 <= id < by_id.len() ==> by_id[id] is None,
        decreases n - by_id.len(),
    {
        by_id.push(None);
    }
    let mut k: usize = 0;
    while k < placed.len()
        invariant
            n == sizes.len(),
            by_id.len() == n,
            k <= placed.len(),
            forall|id: int|
                0 <= id < n ==> (by_id[id] is Some <==> exists|k2: int|
                    0 <= k2 < k && #[trigger] placed[k2].0 == id),
            forall|k2: int|
                0 <= k2 < k ==> (#[trigger] placed[k2]).0 < n && by_id[placed[k2].0 as int]
                    == Some(placed_rect(sizes@, placed[k2])),
            forall|k1: int, k2: int|
                0 <= k1 < k && 0 <= k2 < k && k1 != k2 ==> (#[trigger] placed[k1]).0
                    != (#[trigger] placed[k2]).0,
            forall|k2: int|
                0 <= k2 < k ==> {
                    let r = #[trigger] placed_rect(sizes@, placed[k2]);
                    r.atlas_index < count && r.x + r.width <= w && r.y + r.height <= h
                },
        decreases placed.len() - k,
    {
        let p = placed[k];
        if p.0 >= n {
            return None;
        }
        if by_id[p.0].is_some() {
            proof {
                let k2 = choose|k2: int| 0 <= k2 < k && #[trigger] placed[k2].0 == p.0;
                assert(placed[k2].0 == placed[k as int].0);
            }
            return None;
        }
        let (sw, sh) = sizes[p.0];
        if p.1 >= count || p.2 as u64 + sw as u64 > w as u64 || p.3 as u64 + sh as u64 > h as u64 {
            proof {
                let r = placed_rect(sizes@, placed[k as int]);
                assert(!(r.atlas_index < count && r.x + r.width <= w && r.y + r.height <= h));
            }
            return None;
        }
        by_id.set(p.0, Some(Rect { width: sw, height: sh, x: p.2, y: p.3, atlas_index: p.1 }));
        proof {
            assert forall|id: int|
                0 <= id < n implies (by_id[id] is Some <==> exists|k2: int|
                    0 <= k2 < k + 1 && #[trigger] placed[k2].0 == id) by {
                if id == p.0 {
                    assert(placed[k as int].0 == id);
                } else if by_id[id] is Some {
                    let k2 = choose|k2: int| 0 <= k2 < k && #[trigger] placed[k2].0 == id;
                    assert(placed[k2].0 == id);
                }
            }
        }
        k += 1;
    }
    proof {
        assert forall|i: int| 0 <= i < n implies (by_id[i] is Some <==> #[trigger] is_placed(placed@, i)) by {
            if is_placed(placed@, i) {
                let k2 = choose|k2: int| 0 <= k2 < placed.len() && #[trigger] placed[k2].0 == i;
                assert(placed[k2].0 == i);
            }
            if by_id[i] is Some {
                let k2 = choose|k2: int| 0 <= k2 < k && #[trigger] placed[k2].0 == i;
                assert(placed[k2].0 == i);
            }
        }
    }
    let mut rs: Vec<Rect> = Vec::new();
    let mut id: usize = 0;
    while id < n
        invariant
            n == sizes.len(),
            by_id.len() == n,
            id <= n,
            rs.len() == id,
            forall|i: int| 0 <= i < id ==> by_id[i] == Some(#[trigger] rs[i]),
            forall|i: int| 0 <= i < n ==> (by_id[i] is Some <==> #[trigger] is_placed(placed@, i)),
        decreases n - id,
    {
        match by_id[id] {
            Some(r) => rs.push(r),
            None => {
                proof {
                    assert(!is_placed(placed@, id as int));
                }
                return None;
            },
        }
        id += 1;
    }
    proof {
        assert forall|i: int| 0 <= i < rs.len() implies {
            &&& (#[trigger] rs[i]).width == sizes[i].0 && rs[i].height == sizes[i].1
            &&& rs[i].atlas_index < count && rs[i].x + rs[i].width <= w && rs[i].y + rs[i].height <= h
            &&& exists|k: int| 0 <= k < placed.len() && placed[k].0 == i && rs[i] == #[trigger] placed_rect(sizes@, placed[k])
        } by {
            assert(by_id[i] == Some(rs[i]));
            assert(is_placed(placed@, i));
            let k = choose|k: int| 0 <= k < placed.len() && #[trigger] placed[k].0 == i;
            assert(rs[i] == placed_rect(sizes@, placed[k]));
        }
    }
    if !overlap_free(&rs) {
        proof {
            let (a, b) = choose|a: int, b: int|
                0 <= a < n && 0 <= b < n && a != b && rs[a].atlas_index == rs[b].atlas_index
                    && !apart(rs[a], rs[b]);
            let ka = choose|k: int| 0 <= k < placed.len() && placed[k].0 == a && rs[a] == #[trigger] placed_rect(sizes@, placed[k]);
            let kb = choose|k: int| 0 <= k < placed.len() && placed[k].0 == b && rs[b] == #[trigger] placed_rect(sizes@, placed[k]);
            assert(!apart(placed_rect(sizes@, placed[ka]), placed_rect(sizes@, placed[kb])));
        }
        return None;
    }
    proof {
        assert forall|k1: int, k2: int|
            0 <= k1 < placed.len() && 0 <= k2 < placed.len() && k1 != k2 && placed[k1].1 == placed[k2].1
                implies apart(#[trigger] placed_rect(sizes@, placed[k1]), #[trigger] placed_rect(sizes@, placed[k2])) by {
            assert(rs[placed[k1].0 as int] == placed_rect(sizes@, placed[k1]));
            assert(rs[placed[k2].0 as int] == placed_rect(sizes@, placed[k2]));
        }
        assert forall|i: int| 0 <= i < n implies #[trigger] is_placed(placed@, i) by {
            assert(by_id[i] == Some(rs[i]));
        }
    }
    Some(rs)
}


/// Some rectangle before position `i` sits on atlas `a`.
pub open spec fn index_seen_before(rs: Seq<Rect>, i: int, a: int) -> bool {
    exists|j: int| 0 <= j < i && #[trigger] rs[j].atlas_index == a
}

/// Atlas numbers are handed out in the order in which they are first used:
/// each number above 0 is first used after the number below it.
pub open spec fn first_seen(rs: Seq<Rect>) -> bool {
    forall|i: int|
        0 <= i < rs.len() ==> (#[trigger] rs[i]).atlas_index == 0 || index_seen_before(
            rs,
            i,
            rs[i].atlas_index - 1,
        )
}

/// The same rectangle on another atlas.
pub open spec fn same_spot(a: Rect, b: Rect) -> bool {
    a.width == b.width && a.height == b.height && a.x == b.x && a.y == b.y
}

/// Renumbers the bins that the rectangles sit on as 0, 1, 2, ... in the order
/// in which they are first used. Returns the renumbered rectangles and the
/// number of distinct bins.
pub fn compact(rs: &Vec<Rect>, bins: usize) -> (r: (Vec<Rect>, usize))
    requires
        forall|i: int| 0 <= i < rs.len() ==> (#[trigger] rs[i]).atlas_index < bins,
    ensures
        r.0.len() == rs.len(),
        r.1 <= bins,
        forall|i: int| 0 <= i < rs.len() ==> same_spot(#[trigger] r.0[i], rs[i]),
        forall|i: int| 0 <= i < rs.len() ==> (#[trigger] r.0[i]).atlas_index < r.1,
        forall|i: int, j: int|
            0 <= i < rs.len() && 0 <= j < rs.len() ==> ((#[trigger] r.0[i]).atlas_index
                == (#[trigger] r.0[j]).atlas_index <==> rs[i].atlas_index == rs[j].atlas_index),
        forall|a: int| 0 <= a < r.1 ==> #[trigger] index_seen_before(r.0@, rs.len() as int, a),
        first_seen(r.0@),
{
    let n = rs.len();
    let mut out: Vec<Rect> = Vec::new();
    let mut order: Vec<usize> = Vec::new();
    let mut i: usize = 0;
    while i < n
        invariant
            n == rs.len(),
            i <= n,
            out.len() == i,
            forall|i: int| 0 <= i < rs.len() ==> (#[trigger] rs[i]).atlas_index < bins,
            forall|a: int, b: int|
                0 <= a < order.len() && 0 <= b < order.len() && a != b ==> #[trigger] order[a]
                    != #[trigger] order[b],
            forall|a: int| 0 <= a < order.len() ==> #[trigger] order[a] < bins,
            forall|j: int|
                0 <= j < i ==> (#[trigger] out[j]).atlas_index < order.len() && order[out[j].atlas_index as int]
                    == rs[j].atlas_index && same_spot(out[j], rs[j]),
            forall|a: int| 0 <= a < order.len() ==> #[trigger] index_seen_before(out@, i as int, a),
            first_seen(out@),
        decreases n - i,
    {
        let b = rs[i].atlas_index;
        let mut p: usize = 0;
        while p < order.len() && order[p] != b
            invariant
                p <= order.len(),
                forall|q: int| 0 <= q < p ==> #[trigger] order[q] != b,
            decreases order.len() - p,
        {
            p += 1;
        }
        let ghost old_out = out@;
        let ghost old_order = order@;
        if p == order.len() {
            order.push(b);
        }
        let r = rs[i];
        out.push(Rect { atlas_index: p, ..r });
        proof {
            assert forall|a: int| 0 <= a < order.len() implies #[trigger] index_seen_before(out@, i + 1, a) by {
                if a < old_order.len() {
                    assert(index_seen_before(old_out, i as int, a));
                    let j = choose|j: int| 0 <= j < i && #[trigger] old_out[j].atlas_index == a;
                    assert(out@[j] == old_out[j]);
                } else {
                    assert(out@[i as int].atlas_index == a);
                }
            }
            assert forall|j: int| 0 <= j < i + 1 implies (#[trigger] out@[j]).atlas_index == 0 || index_seen_before(
                out@, j, out@[j].atlas_index - 1) by {
                if j < i {
                    assert(out@[j] == old_out[j]);
                    if old_out[j].atlas_index != 0 {
                        let jj = choose|jj: int| 0 <= jj < j && #[trigger] old_out[jj].atlas_index == old_out[j].atlas_index - 1;
                        assert(out@[jj] == old_out[jj]);
                    }
                } else if p > 0 {
                    assert(index_seen_before(old_out, i as int, p - 1));
                    let jj = choose|jj: int| 0 <= jj < i && #[trigger] old_out[jj].atlas_index == p - 1;
                    assert(out@[jj] == old_out[jj]);
                }
            }
        }
        i += 1;
    }
    proof {
        let g = order@.map_values(|v: usize| v as int);
        assert(g.no_duplicates()) by {
            assert forall|a: int, b: int| 0 <= a < g.len() && 0 <= b < g.len() && a != b implies g[a] != g[b] by {
                assert(order[a] != order[b]);
            }
        }
        g.unique_seq_to_set();
        lemma_int_range(0, bins as int);
        assert(g.to_set().subset_of(set_int_range(0, bins as int))) by {
            assert forall|v: int| g.to_set().contains(v) implies set_int_range(0, bins as int).contains(v) by {
                let a = choose|a: int| 0 <= a < g.len() && g[a] == v;
                assert(order[a] < bins);
            }
        }
        lemma_len_subset(g.to_set(), set_int_range(0, bins as int));
    }
    (out, order.len())
}


/// The content rectangle inside a padded one: the margin band taken off each side.
pub open spec fn content(r: Rect, m: u32) -> Rect {
    Rect {
        width: (r.width - 2 * m) as u32,
        height: (r.height - 2 * m) as u32,
        x: (r.x + m) as u32,
        y: (r.y + m) as u32,
        atlas_index: r.atlas_index,
    }
}

/// Takes the margin band back out of each padded rectangle.
pub fn strip_margins(rs: &Vec<Rect>, m: u32) -> (r: Vec<Rect>)
    requires
        forall|i: int|
            0 <= i < rs.len() ==> 2 * m <= (#[trigger] rs[i]).width && 2 * m <= rs[i].height
                && rs[i].x + rs[i].width <= u32::MAX && rs[i].y + rs[i].height <= u32::MAX,
    ensures
        r.len() == rs.len(),
        forall|i: int| 0 <= i < rs.len() ==> #[trigger] r[i] == content(rs[i], m),
        no_overlap(rs@) ==> no_overlap(r@),
{
    let mut out: Vec<Rect> = Vec::new();
    let mut i: usize = 0;
    while i < rs.len()
        invariant
            i <= rs.len(),
            out.len() == i,
            forall|i: int|
                0 <= i < rs.len() ==> 2 * m <= (#[trigger] rs[i]).width && 2 * m <= rs[i].height
                    && rs[i].x + rs[i].width <= u32::MAX && rs[i].y + rs[i].height <= u32::MAX,
            forall|j: int| 0 <= j < i ==> #[trigger] out[j] == content(rs[j], m),
        decreases rs.len() - i,
    {
        let r = rs[i];
        out.push(
            Rect {
                width: r.width - 2 * m,
                height: r.height - 2 * m,
                x: r.x + m,
                y: r.y + m,
                atlas_index: r.atlas_index,
            },
        );
        i += 1;
    }
    proof {
        if no_overlap(rs@) {
            assert forall|i: int, j: int|
                0 <= i < out.len() && 0 <= j < out.len() && i != j && out[i].atlas_index
                    == out[j].atlas_index implies #[trigger] apart(out[i], out[j]) by {
                assert(apart(rs[i], rs[j]));
            }
        }
    }
    out
}

/// How far the rectangles on atlas `k` reach to the right (`horizontal`) or
/// down: the largest `x + width` (or `y + height`) among them, 0 where none.
pub open spec fn extent(rs: Seq<Rect>, k: int, horizontal: bool) -> int
    decreases rs.len(),
{
    if rs.len() == 0 {
        0
    } else {
        let last = rs.last();
        let rest = extent(rs.drop_last(), k, horizontal);
        let reach = if horizontal {
            last.x + last.width
        } else {
            last.y + last.height
        };
        if last.atlas_index == k && reach > rest {
            reach
        } else {
            rest
        }
    }
}

/// Each rectangle on atlas `k` lies within its extent.
pub proof fn lemma_extent_covers(rs: Seq<Rect>, k: int, i: int)
    requires
        0 <= i < rs.len(),
        rs[i].atlas_index == k,
    ensures
        rs[i].x + rs[i].width <= extent(rs, k, true),
        rs[i].y + rs[i].height <= extent(rs, k, false),
    decreases rs.len(),
{
    if i < rs.len() - 1 {
        lemma_extent_covers(rs.drop_last(), k, i);
    }
}

/// The extent of atlas `k` is reached by one of its rectangles, or is 0.
pub proof fn lemma_extent_reached(rs: Seq<Rect>, k: int, horizontal: bool)
    ensures
        extent(rs, k, horizontal) == 0 || exists|i: int|
            0 <= i < rs.len() && rs[i].atlas_index == k && extent(rs, k, horizontal) == (if horizontal {
                rs[i].x + rs[i].width
            } else {
                rs[i].y + rs[i].height
            }),
    decreases rs.len(),
{
    if rs.len() > 0 {
        lemma_extent_reached(rs.drop_last(), k, horizontal);
        let rest = extent(rs.drop_last(), k, horizontal);
        if rest != 0 {
            let i = choose|i: int|
                0 <= i < rs.len() - 1 && rs.drop_last()[i].atlas_index == k && rest == (if horizontal {
                    rs.drop_last()[i].x + rs.drop_last()[i].width
                } else {
                    rs.drop_last()[i].y + rs.drop_last()[i].height
                });
            assert(rs[i] == rs.drop_last()[i]);
        }
    }
}

/// The extents of atlases `0..count`, right and down.
pub fn extents(rs: &Vec<Rect>, count: usize) -> (r: Vec<(u32, u32)>)
    requires
        forall|i: int|
            0 <= i < rs.len() ==> (#[trigger] rs[i]).x + rs[i].width <= u32::MAX && rs[i].y
                + rs[i].height <= u32::MAX,
    ensures
        r.len() == count,
        forall|k: int|
            0 <= k < count ==> (#[trigger] r[k]).0 == extent(rs@, k, true) && r[k].1 == extent(
                rs@,
                k,
                false,
            ),
{
    let mut ext: Vec<(u32, u32)> = Vec::new();
    while ext.len() < count
        invariant
            ext.len() <= count,
            forall|k: int| 0 <= k < ext.len() ==> #[trigger] ext[k] == (0u32, 0u32),
        decreases count - ext.len(),
    {
        ext.push((0, 0));
    }
    let mut i: usize = 0;
    while i < rs.len()
        invariant
            i <= rs.len(),
            ext.len() == count,
            forall|i: int|
                0 <= i < rs.len() ==> (#[trigger] rs[i]).x + rs[i].width <= u32::MAX && rs[i].y
                    + rs[i].height <= u32::MAX,
            forall|k: int|
                0 <= k < count ==> (#[trigger] ext[k]).0 == extent(rs@.take(i as int), k, true)
                    && ext[k].1 == extent(rs@.take(i as int), k, false),
        decreases rs.len() - i,
    {
        let r = rs[i];
        assert(rs@.take(i + 1).drop_last() == rs@.take(i as int));
        if r.atlas_index < count {
            let (ew, eh) = ext[r.atlas_index];
            let nw = if r.x + r.width > ew { r.x + r.width } else { ew };
            let nh = if r.y + r.height > eh { r.y + r.height } else { eh };
            ext.set(r.atlas_index, (nw, nh));
        }
        i += 1;
    }
    assert(rs@.take(rs.len() as int) == rs@);
    ext
}

} // verus!
