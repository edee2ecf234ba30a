//! Pixel work on images, done by the `image` crate: the trusted wrappers, and
//! the margin synthesis built on them.

use image::imageops::FilterType;
use image::{DynamicImage, GenericImage, GenericImageView, ImageError};
use vstd::prelude::*;

verus! {

#[verifier::external_type_specification]
#[verifier::external_body]
pub struct ExDynamicImage(DynamicImage);

#[verifier::external_type_specification]
#[verifier::external_body]
pub struct ExImageError(ImageError);

/// The width of an image, as `DynamicImage::width` reports it.
pub uninterp spec fn width_of(img: DynamicImage) -> u32;

/// The height of an image, as `DynamicImage::height` reports it.
pub uninterp spec fn height_of(img: DynamicImage) -> u32;

/// The pixel at `(x, y)` of an RGBA16 image, as `ImageBuffer::get_pixel` of
/// its `Rgba16Image` buffer reports it: four 16-bit channels. The wrappers
/// state it only of RGBA16 images.
pub uninterp spec fn pixel_of(img: DynamicImage, x: int, y: int) -> (u16, u16, u16, u16);

/// Sides below this length keep exact pixel positions through `resize_exact`,
/// whose sampling finds each source pixel as `(out + 0.5) * ratio` in `f32`.
pub const EXACT_SIDE: u32 = 8388608;

/// Whether the image holds RGBA with 16 bits per channel, as
/// `DynamicImage::as_rgba16` reports it.
pub uninterp spec fn is_rgba16(img: DynamicImage) -> bool;

/// Relies on `DynamicImage::as_rgba16`: whether the image is RGBA16.
#[verifier::external_body]
pub(crate) fn image_is_rgba16(img: &DynamicImage) -> (r: bool)
    ensures
        r == is_rgba16(*img),
{
    img.as_rgba16().is_some()
}

/// Relies on `DynamicImage::width`.
#[verifier::external_body]
pub(crate) fn image_width(img: &DynamicImage) -> (r: u32)
    ensures
        r == width_of(*img),
{
    img.width()
}

/// Relies on `DynamicImage::height`.
#[verifier::external_body]
pub(crate) fn image_height(img: &DynamicImage) -> (r: u32)
    ensures
        r == height_of(*img),
{
    img.height()
}

/// Relies on `DynamicImage::new_rgba16`: a zeroed RGBA16 image of the given
/// size. It panics where four channels times the pixel count overflow `usize`.
#[verifier::external_body]
pub(crate) fn blank_rgba16(w: u32, h: u32) -> (r: DynamicImage)
    requires
        4 * (w as int) * (h as int) <= usize::MAX,
    ensures
        width_of(r) == w,
        height_of(r) == h,
        is_rgba16(r),
        forall|x: int, y: int| 0 <= x < w && 0 <= y < h ==> #[trigger] pixel_of(r, x, y) == (0u16, 0u16, 0u16, 0u16),
{
    DynamicImage::new_rgba16(w, h)
}

/// Relies on `GenericImage::copy_from` for two `Rgba16Image` buffers: it
/// copies `src` to `(x, y)` in `dst` pixel by pixel, and fails only where
/// `src` would stick out of `dst`.
#[verifier::external_body]
pub(crate) fn copy_into(dst: &mut DynamicImage, src: &DynamicImage, x: u32, y: u32) -> (r: Result<
    (),
    ImageError,
>)
    requires
        x + width_of(*src) <= width_of(*old(dst)),
        y + height_of(*src) <= height_of(*old(dst)),
        is_rgba16(*old(dst)),
        is_rgba16(*src),
    ensures
        r is Ok,
        width_of(*final(dst)) == width_of(*old(dst)),
        height_of(*final(dst)) == height_of(*old(dst)),
        is_rgba16(*final(dst)),
        forall|i: int, j: int|
            0 <= i < width_of(*src) && 0 <= j < height_of(*src) ==> #[trigger] pixel_of(
                *final(dst),
                x + i,
                y + j,
            ) == pixel_of(*src, i, j),
        forall|i: int, j: int|
            0 <= i < width_of(*old(dst)) && 0 <= j < height_of(*old(dst)) && !(x <= i < x
                + width_of(*src) && y <= j < y + height_of(*src)) ==> #[trigger] pixel_of(
                *final(dst),
                i,
                j,
            ) == pixel_of(*old(dst), i, j),
{
    match (dst, src) {
        (DynamicImage::ImageRgba16(d), DynamicImage::ImageRgba16(s)) => d.copy_from(s, x, y),
        _ => Ok(()),
    }
}

/// Relies on `DynamicImage::crop_imm`: a copy of the region `w` by `h` at
/// `(x, y)`, which lies inside the image, in the image's own pixel format.
#[verifier::external_body]
pub(crate) fn crop(img: &DynamicImage, x: u32, y: u32, w: u32, h: u32) -> (r: DynamicImage)
    requires
        x + w <= width_of(*img),
        y + h <= height_of(*img),
    ensures
        width_of(r) == w,
        height_of(r) == h,
        is_rgba16(*img) ==> is_rgba16(r),
        is_rgba16(*img) ==> forall|i: int, j: int|
            0 <= i < w && 0 <= j < h ==> #[trigger] pixel_of(r, i, j) == pixel_of(*img, x + i, y + j),
{
    img.crop_imm(x, y, w, h)
}

/// Relies on `DynamicImage::resize_exact` with nearest-neighbour sampling:
/// the image scaled to exactly `w` by `h`, in its own pixel format. Where
/// both sides are below `EXACT_SIDE`, a side that stays as it is keeps its
/// pixels and a side of one pixel is repeated, since each output pixel then
/// takes one source pixel with weight one, and 16-bit values pass through
/// `f32` exactly.
#[verifier::external_body]
pub(crate) fn resize_nearest(img: &DynamicImage, w: u32, h: u32) -> (r: DynamicImage)
    requires
        w > 0,
        h > 0,
        width_of(*img) > 0,
        height_of(*img) > 0,
        4 * (w as int) * (h as int) <= usize::MAX,
    ensures
        width_of(r) == w,
        height_of(r) == h,
        is_rgba16(*img) ==> is_rgba16(r),
        is_rgba16(*img) && w < EXACT_SIDE && h < EXACT_SIDE && (width_of(*img) == 1 || width_of(*img)
            == w) && (height_of(*img) == 1 || height_of(*img) == h) ==> forall|i: int, j: int|
            0 <= i < w && 0 <= j < h ==> #[trigger] pixel_of(r, i, j) == pixel_of(
                *img,
                if width_of(*img) == 1 { 0 } else { i },
                if height_of(*img) == 1 { 0 } else { j },
            ),
{
    img.resize_exact(w, h, FilterType::Nearest)
}

/// Whether an image of `w` by `h` with a margin `m` on each side has room in
/// `u32` sides and in a `usize` buffer of four channels.
pub open spec fn paddable(w: int, h: int, m: int) -> bool {
    w + 2 * m <= u32::MAX && h + 2 * m <= u32::MAX && 4 * (w + 2 * m) * (h + 2 * m) <= usize::MAX
}

/// `v` held within `lo..=hi`.
pub open spec fn clamp(v: int, lo: int, hi: int) -> int {
    if v < lo {
        lo
    } else if v > hi {
        hi
    } else {
        v
    }
}

/// The position, along a side of `len` pixels padded by `m`, that position
/// `i` of the padded side repeats.
pub open spec fn nearest(i: int, m: int, len: int) -> int {
    clamp(i - m, 0, len - 1)
}

/// The pixel at `(x, y)` of `img` padded by `m`: the nearest pixel of `img`.
pub open spec fn padded_pixel(img: DynamicImage, m: int, x: int, y: int) -> (u16, u16, u16, u16) {
    pixel_of(img, nearest(x, m, width_of(img) as int), nearest(y, m, height_of(img) as int))
}

/// In the region `[x0, x1)` by `[y0, y1)`, `out` holds `img` padded by `m`.
pub open spec fn padded_in(out: DynamicImage, img: DynamicImage, m: int, x0: int, x1: int, y0: int, y1: int) -> bool {
    forall|x: int, y: int|
        x0 <= x < x1 && y0 <= y < y1 ==> #[trigger] pixel_of(out, x, y) == padded_pixel(img, m, x, y)
}

/// Scales the region `sw` by `sh` at `(sx, sy)` of `img`, a line or a single
/// pixel, to `w` by `h` and writes it to `(x, y)` of `out`, where it is `img`
/// padded by `m`.
fn stretch_into(
    out: &mut DynamicImage,
    img: &DynamicImage,
    m: Ghost<int>,
    sx: u32,
    sy: u32,
    sw: u32,
    sh: u32,
    x: u32,
    y: u32,
    w: u32,
    h: u32,
)
    requires
        sw > 0 && sh > 0 && w > 0 && h > 0,
        sw == 1 || sw == w,
        sh == 1 || sh == h,
        sx + sw <= width_of(*img),
        sy + sh <= height_of(*img),
        x + w <= width_of(*old(out)),
        y + h <= height_of(*old(out)),
        is_rgba16(*old(out)),
        is_rgba16(*img),
        4 * (width_of(*old(out)) as int) * (height_of(*old(out)) as int) <= usize::MAX,
        forall|i: int|
            x <= i < x + w ==> #[trigger] nearest(i, m@, width_of(*img) as int) == sx + (if sw == 1 {
                0
            } else {
                i - x
            }),
        forall|j: int|
            y <= j < y + h ==> #[trigger] nearest(j, m@, height_of(*img) as int) == sy + (if sh == 1 {
                0
            } else {
                j - y
            }),
    ensures
        width_of(*final(out)) == width_of(*old(out)),
        height_of(*final(out)) == height_of(*old(out)),
        is_rgba16(*final(out)),
        w < EXACT_SIDE && h < EXACT_SIDE ==> padded_in(*final(out), *img, m@, x as int, x + w, y as int, y + h),
        forall|i: int, j: int|
            0 <= i < width_of(*old(out)) && 0 <= j < height_of(*old(out)) && !(x <= i < x + w && y
                <= j < y + h) ==> #[trigger] pixel_of(*final(out), i, j) == pixel_of(*old(out), i, j),
{
    proof {
        let ow = width_of(*old(out)) as int;
        let oh = height_of(*old(out)) as int;
        assert(4 * (w as int) * (h as int) <= 4 * ow * oh) by (nonlinear_arith)
            requires
                w <= ow,
                h <= oh,
        ;
    }
    let line = crop(img, sx, sy, sw, sh);
    let band = resize_nearest(&line, w, h);
    let _ = copy_into(out, &band, x, y);
    proof {
        if w < EXACT_SIDE && h < EXACT_SIDE {
        assert forall|i: int, j: int| x <= i < x + w && y <= j < y + h implies #[trigger] pixel_of(*out, i, j)
            == padded_pixel(*img, m@, i, j) by {
            assert(pixel_of(*out, x + (i - x), y + (j - y)) == pixel_of(band, i - x, j - y));
            let li = if sw == 1 { 0 } else { i - x };
            let lj = if sh == 1 { 0 } else { j - y };
            assert(pixel_of(band, i - x, j - y) == pixel_of(line, li, lj));
            assert(pixel_of(line, li, lj) == pixel_of(*img, sx + li, sy + lj));
            assert(nearest(i, m@, width_of(*img) as int) == sx + li);
            assert(nearest(j, m@, height_of(*img) as int) == sy + lj);
        }
        }
    }
}

/// Pads one image with a band of `m` pixels on each side. Each side band
/// repeats the image's outermost row or column, and each corner square is
/// filled with the corner pixel: every pixel of the result is the nearest
/// pixel of the image, wherever the sides stay below `EXACT_SIDE`. The
/// result is RGBA16.
pub fn add_margin(img: &DynamicImage, m: u32) -> (r: DynamicImage)
    requires
        paddable(width_of(*img) as int, height_of(*img) as int, m as int),
        m > 0 ==> width_of(*img) > 0 && height_of(*img) > 0,
        is_rgba16(*img),
    ensures
        width_of(r) == width_of(*img) + 2 * m,
        height_of(r) == height_of(*img) + 2 * m,
        is_rgba16(r),
        width_of(r) < EXACT_SIDE && height_of(r) < EXACT_SIDE ==> padded_in(
            r,
            *img,
            m as int,
            0,
            width_of(r) as int,
            0,
            height_of(r) as int,
        ),
{
    let w = image_width(img);
    let h = image_height(img);
    let g: Ghost<int> = Ghost(m as int);
    let mut out = blank_rgba16(w + 2 * m, h + 2 * m);
    let _ = copy_into(&mut out, img, m, m);
    proof {
        assert forall|i: int, j: int| m <= i < m + w && m <= j < m + h implies #[trigger] pixel_of(out, i, j)
            == padded_pixel(*img, m as int, i, j) by {
            assert(pixel_of(out, m + (i - m), m + (j - m)) == pixel_of(*img, i - m, j - m));
        }
    }
    if m > 0 {
        let mw = w + m;
        let mh = h + m;
        // left and right columns
        stretch_into(&mut out, img, g, 0, 0, 1, h, 0, m, m, h);
        stretch_into(&mut out, img, g, w - 1, 0, 1, h, mw, m, m, h);
        // top and bottom rows
        stretch_into(&mut out, img, g, 0, 0, w, 1, m, 0, w, m);
        stretch_into(&mut out, img, g, 0, h - 1, w, 1, m, mh, w, m);
        // corners
        stretch_into(&mut out, img, g, 0, 0, 1, 1, 0, 0, m, m);
        stretch_into(&mut out, img, g, w - 1, 0, 1, 1, mw, 0, m, m);
        stretch_into(&mut out, img, g, 0, h - 1, 1, 1, 0, mh, m, m);
        stretch_into(&mut out, img, g, w - 1, h - 1, 1, 1, mw, mh, m, m);
    }
    out
}

/// The width and height of an image.
pub fn image_size(img: &DynamicImage) -> (r: (u32, u32))
    ensures
        r == (width_of(*img), height_of(*img)),
{
    (image_width(img), image_height(img))
}

/// Whether an image is RGBA16, the format the atlas run works in.
pub fn is_rgba16_image(img: &DynamicImage) -> (r: bool)
    ensures
        r == is_rgba16(*img),
{
    image_is_rgba16(img)
}

/// Padding twice, by `m1` and then by `m2`, yields the pixels and size of one
/// padding by `m1 + m2`.
pub proof fn lemma_padding_composes(img: DynamicImage, once: DynamicImage, twice: DynamicImage, m1: int, m2: int)
    requires
        0 <= m1,
        0 <= m2,
        width_of(img) > 0,
        height_of(img) > 0,
        width_of(once) == width_of(img) + 2 * m1,
        height_of(once) == height_of(img) + 2 * m1,
        padded_in(once, img, m1, 0, width_of(once) as int, 0, height_of(once) as int),
        width_of(twice) == width_of(once) + 2 * m2,
        height_of(twice) == height_of(once) + 2 * m2,
        padded_in(twice, once, m2, 0, width_of(twice) as int, 0, height_of(twice) as int),
    ensures
        width_of(twice) == width_of(img) + 2 * (m1 + m2),
        height_of(twice) == height_of(img) + 2 * (m1 + m2),
        padded_in(twice, img, m1 + m2, 0, width_of(twice) as int, 0, height_of(twice) as int),
{
    assert forall|x: int, y: int|
        0 <= x < width_of(twice) && 0 <= y < height_of(twice) implies #[trigger] pixel_of(twice, x, y)
        == padded_pixel(img, m1 + m2, x, y) by {
        let x1 = nearest(x, m2, width_of(once) as int);
        let y1 = nearest(y, m2, height_of(once) as int);
        assert(pixel_of(twice, x, y) == pixel_of(once, x1, y1));
        assert(pixel_of(once, x1, y1) == padded_pixel(img, m1, x1, y1));
        assert(nearest(x1, m1, width_of(img) as int) == nearest(x, m1 + m2, width_of(img) as int));
        assert(nearest(y1, m1, height_of(img) as int) == nearest(y, m1 + m2, height_of(img) as int));
    }
}

} // verus!
