//! The atlas run: margins, the size search, compositing and trimming.

use crate::error::AtlasError;
use crate::geometry::{
    apart, content, extent, extents, first_seen, index_seen_before, lemma_extent_covers,
    lemma_extent_reached, no_overlap, strip_margins, Rect,
};
use crate::image_ops::{
    add_margin, blank_rgba16, is_rgba16, EXACT_SIDE, padded_in, padded_pixel, paddable, pixel_of, copy_into, crop, height_of, image_height, image_width, width_of,
};
use crate::packer::packed_of;
use crate::planner::{bins_for, plan, plan_ok, search_result, Plan};
use crate::search::AtlasOptions;
use image::DynamicImage;
use vstd::prelude::*;

verus! {

/// Holds the created atlas textures and the [`Rect`]s that say where each image sits.
pub struct AtlasLayout {
    /// The atlas textures, in RGBA16.
    pub atlantes: Vec<DynamicImage>,
    /// Where each image sits, in the order in which the images were supplied.
    pub rects: Vec<Rect>,
}

/// Some image, margins included, is wider or taller than the atlas size.
pub open spec fn too_large(bufs: Seq<DynamicImage>, o: AtlasOptions) -> bool {
    exists|i: int|
        0 <= i < bufs.len() && (width_of(#[trigger] bufs[i]) + 2 * o.margin > o.width || height_of(
            bufs[i],
        ) + 2 * o.margin > o.height)
}

/// The rectangles of a layout for the images `bufs` on `count` atlases: one
/// per image, in the images' order and of their size, inside the margin,
/// numbered by first use, every atlas used, and no two on one atlas overlapping.
pub open spec fn rects_ok(bufs: Seq<DynamicImage>, o: AtlasOptions, rs: Seq<Rect>, count: int) -> bool {
    &&& rs.len() == bufs.len()
    &&& forall|i: int|
        0 <= i < rs.len() ==> {
            &&& (#[trigger] rs[i]).width == width_of(bufs[i])
            &&& rs[i].height == height_of(bufs[i])
            &&& rs[i].atlas_index < count
            &&& o.margin <= rs[i].x && o.margin <= rs[i].y
        }
    &&& no_overlap(rs)
    &&& first_seen(rs)
    &&& forall|a: int| 0 <= a < count ==> #[trigger] index_seen_before(rs, rs.len() as int, a)
}

/// Each rectangle, with one margin beyond it, lies inside its atlas, and no
/// atlas is larger than the configured size.
pub open spec fn fit_ok(o: AtlasOptions, rs: Seq<Rect>, ats: Seq<DynamicImage>) -> bool {
    &&& forall|i: int|
        0 <= i < rs.len() ==> (#[trigger] rs[i]).x + rs[i].width + o.margin <= width_of(
            ats[rs[i].atlas_index as int],
        ) && rs[i].y + rs[i].height + o.margin <= height_of(ats[rs[i].atlas_index as int])
    &&& forall|k: int|
        0 <= k < ats.len() ==> width_of(#[trigger] ats[k]) <= o.width && height_of(ats[k])
            <= o.height
}

/// Every atlas holds the largest padded image.
pub open spec fn holds_largest(bufs: Seq<DynamicImage>, o: AtlasOptions, ats: Seq<DynamicImage>) -> bool {
    forall|k: int, i: int|
        0 <= k < ats.len() && 0 <= i < bufs.len() ==> width_of(bufs[i]) + 2 * o.margin <= width_of(
            #[trigger] ats[k],
        ) && height_of(#[trigger] bufs[i]) + 2 * o.margin <= height_of(ats[k])
}

/// The size of each image with a margin of `m` on every side.
pub open spec fn padded_seq(bufs: Seq<DynamicImage>, m: u32) -> Seq<(u32, u32)> {
    Seq::new(
        bufs.len(),
        |i: int| ((width_of(bufs[i]) + 2 * m) as u32, (height_of(bufs[i]) + 2 * m) as u32),
    )
}

/// Each atlas holds, around the rectangle of image `i`, that image padded
/// by `m`: its pixels in the middle, the nearest edge pixel in the margin band.
pub open spec fn pixels_ok(bufs: Seq<DynamicImage>, m: int, rs: Seq<Rect>, ats: Seq<DynamicImage>) -> bool {
    forall|i: int, a: int, b: int|
        0 <= i < rs.len() && 0 <= a < width_of(bufs[i]) + 2 * m && 0 <= b < height_of(bufs[i]) + 2 * m
            ==> #[trigger] padded_pixel(bufs[i], m, a, b) == pixel_of(
            ats[rs[i].atlas_index as int],
            rs[i].x - m + a,
            rs[i].y - m + b,
        )
}

/// The search succeeds at some size, and each rectangle's content origin is
/// the spot that the packer gave its padded image there, moved in by the margin.
pub open spec fn placed_by_packer(bufs: Seq<DynamicImage>, o: AtlasOptions, rs: Seq<Rect>) -> bool {
    let sizes = padded_seq(bufs, o.margin);
    &&& search_result(sizes, o) matches Some(wh)
    &&& packed_of(sizes, wh.0, wh.1, bins_for(sizes, o) as u32) matches Some(ps)
    &&& forall|k: int|
        0 <= k < ps.len() ==> (#[trigger] ps[k]).0 < rs.len() && rs[ps[k].0 as int].x == ps[k].2
            + o.margin && rs[ps[k].0 as int].y == ps[k].3 + o.margin
}

/// What an atlas run promises of its rectangles `rs` and atlases `ats` for the
/// images `bufs` under `o`.
pub open spec fn layout_ok(bufs: Seq<DynamicImage>, o: AtlasOptions, rs: Seq<Rect>, ats: Seq<DynamicImage>) -> bool {
    &&& rects_ok(bufs, o, rs, ats.len() as int)
    &&& fit_ok(o, rs, ats)
    &&& ats.len() <= o.max_atlantes
    &&& o.cut_down ==> forall|k: int|
        0 <= k < ats.len() ==> width_of(#[trigger] ats[k]) == extent(rs, k, true) + o.margin
            && height_of(ats[k]) == extent(rs, k, false) + o.margin
    &&& !o.cut_down ==> forall|k: int, j: int|
        0 <= k < ats.len() && 0 <= j < ats.len() ==> width_of(#[trigger] ats[k]) == width_of(
            #[trigger] ats[j],
        ) && height_of(ats[k]) == height_of(ats[j])
    &&& !o.cut_down && o.try_smaller is None ==> forall|k: int|
        0 <= k < ats.len() ==> width_of(#[trigger] ats[k]) == o.width && height_of(ats[k])
            == o.height
    &&& (!o.cut_down || ats.len() <= 1) ==> holds_largest(bufs, o, ats)
}

/// The layout before trimming: the plan's rectangles without their margins,
/// on atlases of the plan's size.
proof fn lemma_layout(
    bufs: Seq<DynamicImage>,
    o: AtlasOptions,
    sizes: Seq<(u32, u32)>,
    p: Plan,
    rs: Seq<Rect>,
    ats: Seq<DynamicImage>,
)
    requires
        sizes.len() == bufs.len(),
        forall|j: int|
            0 <= j < bufs.len() ==> (#[trigger] sizes[j]).0 == width_of(bufs[j]) + 2 * o.margin
                && sizes[j].1 == height_of(bufs[j]) + 2 * o.margin,
        plan_ok(sizes, o, p),
        rs.len() == p.slots.len(),
        forall|i: int| 0 <= i < rs.len() ==> #[trigger] rs[i] == content(p.slots[i], o.margin),
        no_overlap(p.slots@) ==> no_overlap(rs),
        ats.len() == p.count,
        forall|k: int|
            0 <= k < ats.len() ==> width_of(#[trigger] ats[k]) == p.width && height_of(ats[k])
                == p.height,
    ensures
        rects_ok(bufs, o, rs, ats.len() as int),
        fit_ok(o, rs, ats),
        ats.len() <= o.max_atlantes,
        holds_largest(bufs, o, ats),
        forall|k: int, j: int|
            0 <= k < ats.len() && 0 <= j < ats.len() ==> width_of(#[trigger] ats[k]) == width_of(
                #[trigger] ats[j],
            ) && height_of(ats[k]) == height_of(ats[j]),
        o.try_smaller is None ==> forall|k: int|
            0 <= k < ats.len() ==> width_of(#[trigger] ats[k]) == o.width && height_of(ats[k])
                == o.height,
{
    assert forall|i: int| 0 <= i < rs.len() implies rs[i].atlas_index == p.slots[i].atlas_index by {}
    assert(first_seen(rs)) by {
        assert forall|i: int| 0 <= i < rs.len() implies (#[trigger] rs[i]).atlas_index == 0
            || index_seen_before(rs, i, rs[i].atlas_index - 1) by {
            assert(p.slots[i] == p.slots@[i]);
            if p.slots@[i].atlas_index != 0 {
                let jj = choose|jj: int|
                    0 <= jj < i && #[trigger] p.slots@[jj].atlas_index == p.slots@[i].atlas_index - 1;
                assert(rs[jj].atlas_index == p.slots@[jj].atlas_index);
            }
        }
    }
    assert forall|a: int| 0 <= a < ats.len() implies #[trigger] index_seen_before(rs, rs.len() as int, a) by {
        assert(index_seen_before(p.slots@, sizes.len() as int, a));
        let jj = choose|jj: int| 0 <= jj < sizes.len() && #[trigger] p.slots@[jj].atlas_index == a;
        assert(rs[jj].atlas_index == p.slots@[jj].atlas_index);
    }
    assert forall|k: int, i: int|
        0 <= k < ats.len() && 0 <= i < bufs.len() implies width_of(bufs[i]) + 2 * o.margin <= width_of(
            #[trigger] ats[k],
        ) && height_of(#[trigger] bufs[i]) + 2 * o.margin <= height_of(ats[k]) by {
        assert(sizes[i].0 <= p.width);
    }
}

/// The extent of an atlas that holds a rectangle, plus one margin, stays
/// within the atlas's size when each of its rectangles does.
proof fn lemma_extent_within(rs: Seq<Rect>, k: int, m: int, w: int, h: int)
    requires
        index_seen_before(rs, rs.len() as int, k),
        forall|i: int|
            0 <= i < rs.len() && (#[trigger] rs[i]).atlas_index == k ==> rs[i].x + rs[i].width + m
                <= w && rs[i].y + rs[i].height + m <= h,
    ensures
        extent(rs, k, true) + m <= w,
        extent(rs, k, false) + m <= h,
{
    let i0 = choose|i0: int| 0 <= i0 < rs.len() && #[trigger] rs[i0].atlas_index == k;
    assert(rs[i0].atlas_index == k);
    lemma_extent_reached(rs, k, true);
    lemma_extent_reached(rs, k, false);
    if extent(rs, k, true) != 0 {
        let i1 = choose|i1: int|
            0 <= i1 < rs.len() && rs[i1].atlas_index == k && extent(rs, k, true) == rs[i1].x
                + rs[i1].width;
        assert(rs[i1].atlas_index == k);
    }
    if extent(rs, k, false) != 0 {
        let i1 = choose|i1: int|
            0 <= i1 < rs.len() && rs[i1].atlas_index == k && extent(rs, k, false) == rs[i1].y
                + rs[i1].height;
        assert(rs[i1].atlas_index == k);
    }
}

/// Trimming keeps every rectangle inside its atlas and the atlases within the
/// configured size; a single trimmed atlas still holds the largest padded image.
proof fn lemma_trimmed(
    bufs: Seq<DynamicImage>,
    o: AtlasOptions,
    rs: Seq<Rect>,
    ats: Seq<DynamicImage>,
    trimmed: Seq<DynamicImage>,
)
    requires
        rects_ok(bufs, o, rs, ats.len() as int),
        fit_ok(o, rs, ats),
        trimmed.len() == ats.len(),
        forall|k: int|
            0 <= k < trimmed.len() ==> width_of(#[trigger] trimmed[k]) == extent(rs, k, true) + o.margin
                && height_of(trimmed[k]) == extent(rs, k, false) + o.margin,
    ensures
        fit_ok(o, rs, trimmed),
        trimmed.len() <= 1 ==> holds_largest(bufs, o, trimmed),
{
    assert forall|i: int| 0 <= i < rs.len() implies (#[trigger] rs[i]).x + rs[i].width + o.margin
        <= width_of(trimmed[rs[i].atlas_index as int]) && rs[i].y + rs[i].height + o.margin
        <= height_of(trimmed[rs[i].atlas_index as int]) by {
        lemma_extent_covers(rs, rs[i].atlas_index as int, i);
    }
    assert forall|k: int| 0 <= k < trimmed.len() implies width_of(#[trigger] trimmed[k]) <= o.width
        && height_of(trimmed[k]) <= o.height by {
        lemma_extent_within(rs, k, o.margin as int, width_of(ats[k]) as int, height_of(ats[k]) as int);
    }
    if trimmed.len() <= 1 {
        assert forall|k: int, i: int|
            0 <= k < trimmed.len() && 0 <= i < bufs.len() implies width_of(bufs[i]) + 2 * o.margin
                <= width_of(#[trigger] trimmed[k]) && height_of(#[trigger] bufs[i]) + 2 * o.margin
                <= height_of(trimmed[k]) by {
            assert(rs[i].atlas_index < ats.len());
            lemma_extent_covers(rs, k, i);
        }
    }
}

/// With at most one atlas allowed, the atlas of a layout is no larger than the
/// configured size and no smaller than the largest padded image, whether or
/// not it was cut down.
pub proof fn lemma_single_atlas_size(
    bufs: Seq<DynamicImage>,
    o: AtlasOptions,
    rs: Seq<Rect>,
    ats: Seq<DynamicImage>,
)
    requires
        layout_ok(bufs, o, rs, ats),
        o.max_atlantes == 1,
    ensures
        forall|k: int, i: int|
            0 <= k < ats.len() && 0 <= i < bufs.len() ==> width_of(bufs[i]) + 2 * o.margin
                <= width_of(#[trigger] ats[k]) <= o.width && height_of(#[trigger] bufs[i]) + 2
                * o.margin <= height_of(ats[k]) <= o.height,
{
}

/// The padded size of each image, or `None` exactly when one of them exceeds
/// the atlas size.
fn padded_sizes(buffers: &Vec<DynamicImage>, options: &AtlasOptions) -> (r: Option<Vec<(u32, u32)>>)
    ensures
        r is None <==> too_large(buffers@, *options),
        r matches Some(sizes) ==> sizes.len() == buffers.len() && forall|j: int|
            0 <= j < buffers.len() ==> (#[trigger] sizes[j]).0 == width_of(buffers[j]) + 2
                * options.margin && sizes[j].1 == height_of(buffers[j]) + 2 * options.margin
                && sizes[j].0 <= options.width && sizes[j].1 <= options.height,
{
    let n = buffers.len();
    let m = options.margin;
    let mut sizes: Vec<(u32, u32)> = Vec::new();
    let mut i: usize = 0;
    while i < n
        invariant
            n == buffers.len(),
            m == options.margin,
            i <= n,
            sizes.len() == i,
            forall|j: int|
                0 <= j < i ==> (#[trigger] sizes[j]).0 == width_of(buffers[j]) + 2 * m
                    && sizes[j].1 == height_of(buffers[j]) + 2 * m && sizes[j].0 <= options.width
                    && sizes[j].1 <= options.height,
        decreases n - i,
    {
        let w = image_width(&buffers[i]);
        let h = image_height(&buffers[i]);
        if w as u64 + 2 * (m as u64) > options.width as u64 || h as u64 + 2 * (m as u64)
            > options.height as u64 {
            proof {
                assert(width_of(buffers@[i as int]) == w);
                assert(too_large(buffers@, *options));
            }
            return None;
        }
        sizes.push((w + 2 * m, h + 2 * m));
        i += 1;
    }
    proof {
        assert(!too_large(buffers@, *options)) by {
            assert forall|j: int| 0 <= j < n implies !(width_of(#[trigger] buffers@[j]) + 2 * m
                > options.width || height_of(buffers@[j]) + 2 * m > options.height) by {
                assert(sizes[j].0 <= options.width);
            }
        }
    }
    Some(sizes)
}

/// Adds a margin of `m` to every image; with `m == 0` the images stay as they are.
pub fn add_margins(buffers: Vec<DynamicImage>, m: u32) -> (r: Vec<DynamicImage>)
    requires
        forall|j: int|
            0 <= j < buffers.len() ==> paddable(
                width_of(#[trigger] buffers[j]) as int,
                height_of(buffers[j]) as int,
                m as int,
            ),
        m > 0 ==> forall|j: int|
            0 <= j < buffers.len() ==> width_of(#[trigger] buffers[j]) > 0 && height_of(buffers[j]) > 0,
        forall|j: int| 0 <= j < buffers.len() ==> is_rgba16(#[trigger] buffers[j]),
    ensures
        m == 0 ==> r@ == buffers@,
        forall|j: int| 0 <= j < r.len() ==> is_rgba16(#[trigger] r[j]),
        m > 0 ==> forall|j: int|
            0 <= j < r.len() && width_of(r[j]) < EXACT_SIDE && height_of(r[j]) < EXACT_SIDE
                ==> #[trigger] is_rgba16(r[j]) && padded_in(
                r[j],
                buffers[j],
                m as int,
                0,
                width_of(r[j]) as int,
                0,
                height_of(r[j]) as int,
            ),
        r.len() == buffers.len(),
        forall|j: int|
            0 <= j < r.len() ==> width_of(#[trigger] r[j]) == width_of(buffers[j]) + 2 * m
                && height_of(r[j]) == height_of(buffers[j]) + 2 * m,
{
    if m == 0 {
        return buffers;
    }
    let mut out: Vec<DynamicImage> = Vec::new();
    let mut i: usize = 0;
    while i < buffers.len()
        invariant
            i <= buffers.len(),
            out.len() == i,
            forall|j: int|
                0 <= j < buffers.len() ==> paddable(
                    width_of(#[trigger] buffers[j]) as int,
                    height_of(buffers[j]) as int,
                    m as int,
                ),
            forall|j: int|
                0 <= j < i ==> width_of(#[trigger] out[j]) == width_of(buffers[j]) + 2 * m
                    && height_of(out[j]) == height_of(buffers[j]) + 2 * m,
            m > 0,
            forall|j: int|
                0 <= j < buffers.len() ==> width_of(#[trigger] buffers[j]) > 0 && height_of(buffers[j]) > 0,
            forall|j: int| 0 <= j < buffers.len() ==> is_rgba16(#[trigger] buffers[j]),
            forall|j: int| 0 <= j < i ==> is_rgba16(#[trigger] out[j]),
            forall|j: int|
                0 <= j < i && width_of(out[j]) < EXACT_SIDE && height_of(out[j]) < EXACT_SIDE ==> #[trigger] is_rgba16(out[j]) && padded_in(
                    out[j],
                    buffers[j],
                    m as int,
                    0,
                    width_of(out[j]) as int,
                    0,
                    height_of(out[j]) as int,
                ),
        decreases buffers.len() - i,
    {
        out.push(add_margin(&buffers[i], m));
        i += 1;
    }
    out
}

/// Each image of `ims` sits in its atlas of `ats` at the spot of its slot.
pub open spec fn holds_images(ims: Seq<DynamicImage>, slots: Seq<Rect>, ats: Seq<DynamicImage>) -> bool {
    forall|j: int, a: int, b: int|
        0 <= j < ims.len() && 0 <= a < width_of(ims[j]) && 0 <= b < height_of(ims[j]) ==> #[trigger] pixel_of(
            ims[j],
            a,
            b,
        ) == pixel_of(ats[slots[j].atlas_index as int], slots[j].x + a, slots[j].y + b)
}

/// Copies each padded image to its spot of the plan. An atlas of the plan's
/// size is made when its first image is placed.
fn composite(padded: &Vec<DynamicImage>, p: &Plan) -> (r: Vec<DynamicImage>)
    requires
        p.slots.len() == padded.len(),
        4 * (p.width as int) * (p.height as int) <= usize::MAX,
        forall|j: int|
            0 <= j < padded.len() ==> (#[trigger] p.slots[j]).atlas_index < p.count && p.slots[j].x
                + width_of(padded[j]) <= p.width && p.slots[j].y + height_of(padded[j]) <= p.height,
        first_seen(p.slots@),
        forall|a: int| 0 <= a < p.count ==> #[trigger] index_seen_before(p.slots@, padded.len() as int, a),
        no_overlap(p.slots@),
        forall|j: int|
            0 <= j < padded.len() ==> (#[trigger] p.slots[j]).width == width_of(padded[j])
                && p.slots[j].height == height_of(padded[j]),
        forall|j: int| 0 <= j < padded.len() ==> is_rgba16(#[trigger] padded[j]),
    ensures
        r.len() == p.count,
        forall|k: int|
            0 <= k < r.len() ==> width_of(#[trigger] r[k]) == p.width && height_of(r[k])
                == p.height && is_rgba16(r[k]),
        holds_images(padded@, p.slots@, r@),
{
    let n = padded.len();
    let mut atlantes: Vec<DynamicImage> = Vec::new();
    let mut i: usize = 0;
    while i < n
        invariant
            n == padded.len(),
            n == p.slots.len(),
            i <= n,
            4 * (p.width as int) * (p.height as int) <= usize::MAX,
            forall|j: int|
                0 <= j < n ==> (#[trigger] p.slots[j]).atlas_index < p.count && p.slots[j].x
                    + width_of(padded[j]) <= p.width && p.slots[j].y + height_of(padded[j]) <= p.height,
            first_seen(p.slots@),
            no_overlap(p.slots@),
            forall|j: int|
                0 <= j < n ==> (#[trigger] p.slots[j]).width == width_of(padded[j])
                    && p.slots[j].height == height_of(padded[j]),
            forall|j: int| 0 <= j < n ==> is_rgba16(#[trigger] padded[j]),
            atlantes.len() <= p.count,
            forall|k: int|
                0 <= k < atlantes.len() ==> width_of(#[trigger] atlantes[k]) == p.width
                    && height_of(atlantes[k]) == p.height && is_rgba16(atlantes[k]),
            holds_images(padded@.take(i as int), p.slots@, atlantes@),
            forall|a: int|
                0 <= a < atlantes.len() ==> #[trigger] index_seen_before(p.slots@, i as int, a),
            forall|j: int| 0 <= j < i ==> (#[trigger] p.slots[j]).atlas_index < atlantes.len(),
        decreases n - i,
    {
        let s = p.slots[i];
        proof {
            assert(p.slots@[i as int] == s);
            if s.atlas_index > 0 && !index_seen_before(p.slots@, i as int, s.atlas_index as int) {
                let jj = choose|jj: int|
                    0 <= jj < i && #[trigger] p.slots@[jj].atlas_index == s.atlas_index - 1;
                assert(p.slots[jj].atlas_index < atlantes.len());
            }
            if index_seen_before(p.slots@, i as int, s.atlas_index as int) {
                let jj = choose|jj: int|
                    0 <= jj < i && #[trigger] p.slots@[jj].atlas_index == s.atlas_index;
                assert(p.slots[jj].atlas_index < atlantes.len());
            }
        }
        let ghost old_len = atlantes.len();
        if s.atlas_index == atlantes.len() {
            atlantes.push(blank_rgba16(p.width, p.height));
        }
        let ghost before = atlantes@;
        let _ = copy_into(&mut atlantes[s.atlas_index], &padded[i], s.x, s.y);
        proof {
            let k = s.atlas_index as int;
            assert(atlantes@ == before.update(k, atlantes@[k]));
            let ims = padded@.take(i + 1);
            assert forall|j: int, a: int, b: int|
                0 <= j < ims.len() && 0 <= a < width_of(ims[j]) && 0 <= b < height_of(ims[j])
                    implies #[trigger] pixel_of(ims[j], a, b) == pixel_of(
                    atlantes@[p.slots@[j].atlas_index as int],
                    p.slots@[j].x + a,
                    p.slots@[j].y + b,
                ) by {
                if j == i {
                    assert(pixel_of(atlantes@[k], s.x + a, s.y + b) == pixel_of(padded@[j], a, b));
                } else {
                    assert(ims[j] == padded@.take(i as int)[j]);
                    assert(pixel_of(ims[j], a, b) == pixel_of(
                        before[p.slots@[j].atlas_index as int],
                        p.slots@[j].x + a,
                        p.slots@[j].y + b,
                    ));
                    if p.slots@[j].atlas_index as int == k {
                        assert(p.slots@[j] == p.slots[j]);
                        assert(apart(p.slots@[j], p.slots@[i as int]));
                    }
                }
            }
        }
        proof {
            assert forall|a: int| 0 <= a < atlantes.len() implies #[trigger] index_seen_before(
                p.slots@,
                i + 1,
                a,
            ) by {
                if a == s.atlas_index {
                    assert(p.slots@[i as int].atlas_index == a);
                } else {
                    assert(a < old_len);
                    assert(index_seen_before(p.slots@, i as int, a));
                    let jj = choose|jj: int| 0 <= jj < i && #[trigger] p.slots@[jj].atlas_index == a;
                    assert(p.slots@[jj].atlas_index == a);
                }
            }
        }
        i += 1;
    }
    assert(padded@.take(n as int) == padded@);
    proof {
        if atlantes.len() < p.count {
            let a = atlantes.len() as int;
            assert(index_seen_before(p.slots@, n as int, a));
            let jj = choose|jj: int| 0 <= jj < n && #[trigger] p.slots@[jj].atlas_index == a;
            assert(p.slots[jj].atlas_index < atlantes.len());
        }
    }
    atlantes
}

/// Crops each atlas to the extent of its rectangles plus one margin.
fn trim(atlantes: &Vec<DynamicImage>, rects: &Vec<Rect>, m: u32) -> (r: Vec<DynamicImage>)
    requires
        forall|i: int|
            0 <= i < rects.len() ==> (#[trigger] rects[i]).atlas_index < atlantes.len()
                && rects[i].x + rects[i].width + m <= width_of(atlantes[rects[i].atlas_index as int])
                && rects[i].y + rects[i].height + m <= height_of(
                atlantes[rects[i].atlas_index as int],
            ),
        forall|k: int|
            0 <= k < atlantes.len() ==> #[trigger] index_seen_before(rects@, rects.len() as int, k),
        forall|k: int| 0 <= k < atlantes.len() ==> is_rgba16(#[trigger] atlantes[k]),
    ensures
        r.len() == atlantes.len(),
        forall|k: int| 0 <= k < r.len() ==> is_rgba16(#[trigger] r[k]),
        forall|k: int, x: int, y: int|
            0 <= k < r.len() && 0 <= x < width_of(r[k]) && 0 <= y < height_of(r[k]) ==> #[trigger] pixel_of(r[k], x, y)
                == pixel_of(atlantes[k], x, y),
        forall|k: int|
            0 <= k < r.len() ==> width_of(#[trigger] r[k]) == extent(rects@, k, true) + m
                && height_of(r[k]) == extent(rects@, k, false) + m,
{
    let count = atlantes.len();
    let ext = extents(rects, count);
    let mut trimmed: Vec<DynamicImage> = Vec::new();
    let mut k: usize = 0;
    while k < count
        invariant
            atlantes.len() == count,
            ext.len() == count,
            k <= count,
            trimmed.len() == k,
            forall|i: int|
                0 <= i < rects.len() ==> (#[trigger] rects[i]).atlas_index < atlantes.len()
                    && rects[i].x + rects[i].width + m <= width_of(
                    atlantes[rects[i].atlas_index as int],
                ) && rects[i].y + rects[i].height + m <= height_of(
                    atlantes[rects[i].atlas_index as int],
                ),
            forall|k: int|
                0 <= k < atlantes.len() ==> #[trigger] index_seen_before(rects@, rects.len() as int, k),
            forall|k: int|
                0 <= k < count ==> (#[trigger] ext[k]).0 == extent(rects@, k, true) && ext[k].1
                    == extent(rects@, k, false),
            forall|j: int|
                0 <= j < k ==> width_of(#[trigger] trimmed[j]) == ext[j].0 + m && height_of(
                    trimmed[j],
                ) == ext[j].1 + m,
            forall|k: int| 0 <= k < atlantes.len() ==> is_rgba16(#[trigger] atlantes[k]),
            forall|j: int| 0 <= j < k ==> is_rgba16(#[trigger] trimmed[j]),
            forall|j: int, x: int, y: int|
                0 <= j < k && 0 <= x < width_of(trimmed[j]) && 0 <= y < height_of(trimmed[j]) ==> #[trigger] pixel_of(trimmed[j], x, y)
                    == pixel_of(atlantes[j], x, y),
        decreases count - k,
    {
        let (ew, eh) = ext[k];
        proof {
            lemma_extent_within(
                rects@,
                k as int,
                m as int,
                width_of(atlantes[k as int]) as int,
                height_of(atlantes[k as int]) as int,
            );
        }
        trimmed.push(crop(&atlantes[k], 0, 0, ew + m, eh + m));
        k += 1;
    }
    trimmed
}

/// Atlasses a list of images with the supplied options. Fails with
/// `SizeError` exactly when an image, margins included, exceeds the atlas
/// size, and with `PackingError` when no atlas size up to the configured one
/// lets the packer arrange the images on at most `max_atlantes` atlases.
pub fn atlas_buffers(buffers: Vec<DynamicImage>, options: AtlasOptions) -> (r: Result<
    AtlasLayout,
    AtlasError,
>)
    requires
        4 * (options.width as int) * (options.height as int) <= usize::MAX,
        options.margin > 0 ==> forall|i: int|
            0 <= i < buffers.len() ==> width_of(#[trigger] buffers@[i]) > 0 && height_of(buffers@[i]) > 0,
        forall|i: int| 0 <= i < buffers.len() ==> is_rgba16(#[trigger] buffers@[i]),
    ensures
        (r matches Err(e) && e is SizeError) <==> too_large(buffers@, options),
        !too_large(buffers@, options) ==> (r is Ok <==> search_result(
            padded_seq(buffers@, options.margin),
            options,
        ) is Some),
        r matches Err(e) ==> e is SizeError || e is PackingError,
        r matches Ok(l) ==> (!options.cut_down ==> forall|k: int|
            0 <= k < l.atlantes.len() ==> Some((width_of(#[trigger] l.atlantes@[k]), height_of(l.atlantes@[k])))
                == search_result(padded_seq(buffers@, options.margin), options)),
        r matches Ok(l) ==> layout_ok(buffers@, options, l.rects@, l.atlantes@),
        r matches Ok(l) ==> placed_by_packer(buffers@, options, l.rects@),
        r matches Ok(l) ==> forall|k: int| 0 <= k < l.atlantes.len() ==> is_rgba16(#[trigger] l.atlantes@[k]),
        r matches Ok(l) ==> (options.width < EXACT_SIDE && options.height < EXACT_SIDE ==> pixels_ok(
            buffers@,
            options.margin as int,
            l.rects@,
            l.atlantes@,
        )),
{
    let m = options.margin;
    let sizes = match padded_sizes(&buffers, &options) {
        Some(s) => s,
        None => {
            return Err(AtlasError::SizeError);
        },
    };
    proof {
        assert forall|j: int| 0 <= j < buffers.len() implies paddable(
            width_of(#[trigger] buffers[j]) as int,
            height_of(buffers[j]) as int,
            m as int,
        ) by {
            let pw = sizes[j].0 as int;
            let ph = sizes[j].1 as int;
            let ow = options.width as int;
            let oh = options.height as int;
            assert(4 * pw * ph <= 4 * ow * oh) by (nonlinear_arith)
                requires
                    0 <= pw <= ow,
                    0 <= ph <= oh,
            ;
        }
    }
    let ghost bufs = buffers@;
    assert(sizes@ =~= padded_seq(bufs, m));
    let padded = add_margins(buffers, m);
    let p = match plan(&sizes, &options) {
        Ok(p) => p,
        Err(e) => {
            return Err(e);
        },
    };
    proof {
        let ow = options.width as int;
        let oh = options.height as int;
        assert(4 * (p.width as int) * (p.height as int) <= 4 * ow * oh) by (nonlinear_arith)
            requires
                0 <= p.width <= ow,
                0 <= p.height <= oh,
        ;
    }
    proof {
        assert forall|j: int| 0 <= j < padded.len() implies (#[trigger] p.slots[j]).atlas_index < p.count
            && p.slots[j].x + width_of(padded[j]) <= p.width && p.slots[j].y + height_of(padded[j])
            <= p.height by {
            assert(p.slots@[j] == p.slots[j]);
        }
    }
    let atlantes = composite(&padded, &p);
    let rects = strip_margins(&p.slots, m);
    proof {
        lemma_layout(bufs, options, sizes@, p, rects@, atlantes@);
        let ps = packed_of(sizes@, p.width, p.height, bins_for(sizes@, options) as u32)->Some_0;
        assert forall|k: int| 0 <= k < ps.len() implies (#[trigger] ps[k]).0 < rects@.len() && rects@[ps[k].0 as int].x
            == ps[k].2 + m && rects@[ps[k].0 as int].y == ps[k].3 + m by {
            assert(rects@[ps[k].0 as int] == content(p.slots@[ps[k].0 as int], m));
        }
        if options.width < EXACT_SIDE && options.height < EXACT_SIDE {
        assert forall|i: int, a: int, b: int|
            0 <= i < rects.len() && 0 <= a < width_of(bufs[i]) + 2 * m && 0 <= b < height_of(bufs[i]) + 2 * m
                implies #[trigger] padded_pixel(bufs[i], m as int, a, b) == pixel_of(
                atlantes@[rects@[i].atlas_index as int],
                rects@[i].x - m + a,
                rects@[i].y - m + b,
            ) by {
            assert(rects@[i] == content(p.slots@[i], m));
            assert(pixel_of(padded@[i], a, b) == pixel_of(
                atlantes@[p.slots@[i].atlas_index as int],
                p.slots@[i].x + a,
                p.slots@[i].y + b,
            ));
            if m > 0 {
                assert(pixel_of(padded@[i], a, b) == padded_pixel(bufs[i], m as int, a, b));
            } else {
                assert(padded@[i] == bufs[i]);
            }
        }
        }
    }
    if options.cut_down {
        let trimmed = trim(&atlantes, &rects, m);
        proof {
            lemma_trimmed(bufs, options, rects@, atlantes@, trimmed@);
            if options.width < EXACT_SIDE && options.height < EXACT_SIDE {
            assert forall|i: int, a: int, b: int|
                0 <= i < rects.len() && 0 <= a < width_of(bufs[i]) + 2 * m && 0 <= b < height_of(bufs[i]) + 2 * m
                    implies #[trigger] padded_pixel(bufs[i], m as int, a, b) == pixel_of(
                    trimmed@[rects@[i].atlas_index as int],
                    rects@[i].x - m + a,
                    rects@[i].y - m + b,
                ) by {
                let k = rects@[i].atlas_index as int;
                assert(rects[i] == rects@[i]);
                assert(pixel_of(trimmed@[k], rects@[i].x - m + a, rects@[i].y - m + b) == pixel_of(
                    atlantes@[k],
                    rects@[i].x - m + a,
                    rects@[i].y - m + b,
                ));
            }
            }
        }
        Ok(AtlasLayout { atlantes: trimmed, rects })
    } else {
        Ok(AtlasLayout { atlantes, rects })
    }
}

} // verus!
