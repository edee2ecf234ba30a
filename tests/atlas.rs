use image::{DynamicImage, GenericImageView, Rgba};
use texture_atlasser::image_ops::{image_size, is_rgba16_image};
use texture_atlasser::geometry::{arrange, compact, extents, overlap_free, strip_margins};
use texture_atlasser::planner::place;
use texture_atlasser::search::{bin_count, grow};
use texture_atlasser::{
    add_margins, atlas_buffers, AtlasError, AtlasOptions, Rect, StepFactor,
};

fn images(n: usize, w: u32, h: u32) -> Vec<DynamicImage> {
    (0..n).map(|_| DynamicImage::new_rgba16(w, h)).collect()
}

fn set(img: &mut DynamicImage, x: u32, y: u32, p: Rgba<u16>) {
    img.as_mut_rgba16().unwrap().put_pixel(x, y, p);
}

fn px(img: &DynamicImage, x: u32, y: u32) -> Rgba<u16> {
    *img.as_rgba16().unwrap().get_pixel(x, y)
}

fn options(w: u32, h: u32, margin: u32, max_atlantes: u32) -> AtlasOptions {
    AtlasOptions { width: w, height: h, margin, max_atlantes, try_smaller: None, cut_down: false }
}

fn rect(width: u32, height: u32, x: u32, y: u32, atlas_index: usize) -> Rect {
    Rect { width, height, x, y, atlas_index }
}

fn apart(a: &Rect, b: &Rect) -> bool {
    a.x + a.width <= b.x || b.x + b.width <= a.x || a.y + a.height <= b.y || b.y + b.height <= a.y
}

fn assert_layout_sound(rects: &[Rect], atlantes: &[DynamicImage]) {
    for (i, r) in rects.iter().enumerate() {
        let a = &atlantes[r.atlas_index];
        assert!(r.x + r.width <= a.width());
        assert!(r.y + r.height <= a.height());
        for (j, s) in rects.iter().enumerate() {
            if i != j && r.atlas_index == s.atlas_index {
                assert!(apart(r, s));
            }
        }
    }
}

#[test]
fn padded_image_larger_than_atlas_is_a_size_error() {
    let r = atlas_buffers(images(3, 64, 64), options(64, 64, 2, 2));
    assert!(matches!(r, Err(AtlasError::SizeError)));
}

#[test]
fn four_small_images_share_one_atlas() {
    let l = atlas_buffers(images(4, 30, 30), options(64, 64, 0, 1)).unwrap();
    assert_eq!(l.atlantes.len(), 1);
    assert_eq!(l.rects.len(), 4);
    assert!(l.rects.iter().all(|r| r.atlas_index == 0 && r.width == 30 && r.height == 30));
    assert_eq!(l.atlantes[0].dimensions(), (64, 64));
    assert_layout_sound(&l.rects, &l.atlantes);
}

#[test]
fn padded_single_image_over_the_cap_is_a_size_error() {
    let mut o = options(512, 512, 3, 1);
    o.try_smaller = Some(StepFactor { numer: 11, denom: 10 });
    o.cut_down = true;
    let r = atlas_buffers(images(1, 512, 512), o);
    assert!(matches!(r, Err(AtlasError::SizeError)));
}

#[test]
fn single_image_search_starts_at_its_padded_size() {
    let mut o = options(1024, 1024, 3, 1);
    o.try_smaller = Some(StepFactor { numer: 11, denom: 10 });
    o.cut_down = true;
    let l = atlas_buffers(images(1, 512, 512), o).unwrap();
    assert_eq!(l.atlantes.len(), 1);
    assert_eq!(l.atlantes[0].dimensions(), (518, 518));
    assert_eq!(l.rects[0], rect(512, 512, 3, 3, 0));
}

#[test]
fn too_many_images_for_the_allowed_atlases_is_a_packing_error() {
    let r = atlas_buffers(images(3, 64, 64), options(64, 64, 0, 1));
    assert!(matches!(r, Err(AtlasError::PackingError)));
}

#[test]
fn images_spread_over_several_atlases() {
    let l = atlas_buffers(images(3, 64, 64), options(64, 64, 0, 3)).unwrap();
    assert_eq!(l.atlantes.len(), 3);
    let mut seen: Vec<usize> = l.rects.iter().map(|r| r.atlas_index).collect();
    assert_eq!(seen[0], 0);
    seen.sort();
    assert_eq!(seen, vec![0, 1, 2]);
    assert_layout_sound(&l.rects, &l.atlantes);
}

#[test]
fn no_images_give_no_atlases() {
    let l = atlas_buffers(Vec::new(), options(64, 64, 2, 1)).unwrap();
    assert!(l.atlantes.is_empty());
    assert!(l.rects.is_empty());
}

#[test]
fn rects_keep_input_order_and_sizes() {
    let bufs = vec![
        DynamicImage::new_rgba16(10, 20),
        DynamicImage::new_rgba16(30, 5),
        DynamicImage::new_rgba16(7, 7),
    ];
    let l = atlas_buffers(bufs, options(128, 128, 1, 1)).unwrap();
    let dims: Vec<(u32, u32)> = l.rects.iter().map(|r| (r.width, r.height)).collect();
    assert_eq!(dims, vec![(10, 20), (30, 5), (7, 7)]);
    assert!(l.rects.iter().all(|r| r.x >= 1 && r.y >= 1));
    assert_eq!(l.atlantes[0].dimensions(), (128, 128));
    assert_layout_sound(&l.rects, &l.atlantes);
}

#[test]
fn cut_down_crops_to_the_extent_plus_margin() {
    let bufs = vec![DynamicImage::new_rgba16(10, 20), DynamicImage::new_rgba16(30, 5)];
    let mut o = options(256, 256, 2, 1);
    o.cut_down = true;
    let l = atlas_buffers(bufs, o).unwrap();
    let right = l.rects.iter().map(|r| r.x + r.width).max().unwrap();
    let bottom = l.rects.iter().map(|r| r.y + r.height).max().unwrap();
    assert_eq!(l.atlantes[0].dimensions(), (right + 2, bottom + 2));
    assert_layout_sound(&l.rects, &l.atlantes);
}

#[test]
fn try_smaller_stays_between_largest_image_and_cap() {
    let mut o = options(300, 300, 1, 1);
    o.try_smaller = Some(StepFactor { numer: 3, denom: 2 });
    let l = atlas_buffers(images(5, 40, 30), o).unwrap();
    assert_eq!(l.atlantes.len(), 1);
    let (w, h) = l.atlantes[0].dimensions();
    assert!(w >= 42 && w <= 300 && h >= 32 && h <= 300);
    assert!(w < 300 || h < 300);
    assert_layout_sound(&l.rects, &l.atlantes);
}

#[test]
fn zero_margin_leaves_images_alone() {
    let mut img = DynamicImage::new_rgba16(3, 2);
    set(&mut img, 1, 1, Rgba([9, 8, 7, 255]));
    let out = add_margins(vec![img.clone()], 0);
    assert_eq!(out[0].dimensions(), (3, 2));
    assert_eq!(out[0], img);
}

#[test]
fn margins_repeat_edges_and_corners() {
    let red = Rgba([65535, 0, 0, 65535]);
    let blue = Rgba([0, 0, 65535, 65535]);
    let mut img = DynamicImage::new_rgba16(2, 1);
    set(&mut img, 0, 0, red);
    set(&mut img, 1, 0, blue);
    let out = add_margins(vec![img], 2);
    assert_eq!(out[0].dimensions(), (6, 5));
    for y in 0..5 {
        assert_eq!(px(&out[0], 0, y), red);
        assert_eq!(px(&out[0], 2, y), red);
        assert_eq!(px(&out[0], 3, y), blue);
        assert_eq!(px(&out[0], 5, y), blue);
    }
}

#[test]
fn one_pixel_image_is_padded_with_its_colour() {
    let c = Rgba([1, 2, 3, 4]);
    let mut img = DynamicImage::new_rgba16(1, 1);
    set(&mut img, 0, 0, c);
    let out = add_margins(vec![img], 2);
    assert_eq!(out[0].dimensions(), (5, 5));
    for x in 0..5 {
        for y in 0..5 {
            assert_eq!(px(&out[0], x, y), c);
        }
    }
}

#[test]
fn atlas_holds_the_image_pixels() {
    let c = Rgba([10, 20, 30, 40]);
    let mut img = DynamicImage::new_rgba16(4, 4);
    for x in 0..4 {
        for y in 0..4 {
            set(&mut img, x, y, c);
        }
    }
    let l = atlas_buffers(vec![img], options(16, 16, 1, 1)).unwrap();
    let r = &l.rects[0];
    assert_eq!(px(&l.atlantes[0], r.x, r.y), c);
    assert_eq!(px(&l.atlantes[0], r.x - 1, r.y - 1), c);
    assert_eq!(px(&l.atlantes[0], r.x + 3, r.y + 3), c);
}

#[test]
fn growth_is_the_ceiling_of_the_factor() {
    let f = StepFactor { numer: 11, denom: 10 };
    assert_eq!(grow(512, 1000, f), 564);
    assert_eq!(grow(100, 1000, f), 110);
    assert_eq!(grow(900, 950, f), 950);
}

#[test]
fn growth_by_small_factor_still_moves() {
    assert_eq!(grow(5, 100, StepFactor { numer: 11, denom: 10 }), 6);
    assert_eq!(grow(5, 100, StepFactor { numer: 1, denom: 0 }), 6);
    assert_eq!(grow(99, 100, StepFactor { numer: 1, denom: 2 }), 100);
}

#[test]
fn bin_count_follows_the_bound() {
    // ceil(2 * 3 * max(20/64, 30/64)) = ceil(180 / 64) = 3
    assert_eq!(bin_count(3, 30, 20, &options(64, 64, 0, 10)), 3);
    assert_eq!(bin_count(3, 30, 20, &options(64, 64, 0, 2)), 2);
    assert_eq!(bin_count(3, 64, 64, &options(64, 64, 0, 10)), 6);
    assert_eq!(bin_count(0, 0, 0, &options(64, 64, 0, 10)), 0);
    assert_eq!(bin_count(2, 0, 0, &options(0, 0, 0, 10)), 0);
}

#[test]
fn arrange_orders_placements_by_id() {
    let sizes = vec![(10, 10), (5, 5)];
    let placed = vec![(1, 0, 10, 0), (0, 0, 0, 0)];
    let rs = arrange(&sizes, 20, 20, 1, &placed).unwrap();
    assert_eq!(rs, vec![rect(10, 10, 0, 0, 0), rect(5, 5, 10, 0, 0)]);
}

#[test]
fn arrange_rejects_bad_placements() {
    let sizes = vec![(10, 10), (5, 5)];
    // overlapping
    assert!(arrange(&sizes, 20, 20, 1, &vec![(0, 0, 0, 0), (1, 0, 5, 5)]).is_none());
    // same spot on different bins is fine
    assert!(arrange(&sizes, 20, 20, 2, &vec![(0, 0, 0, 0), (1, 1, 0, 0)]).is_some());
    // out of the bin
    assert!(arrange(&sizes, 20, 20, 1, &vec![(0, 0, 11, 0), (1, 0, 0, 12)]).is_none());
    // bin out of range
    assert!(arrange(&sizes, 20, 20, 1, &vec![(0, 0, 0, 0), (1, 1, 0, 0)]).is_none());
    // missing, duplicate and unknown ids
    assert!(arrange(&sizes, 20, 20, 1, &vec![(0, 0, 0, 0)]).is_none());
    assert!(arrange(&sizes, 20, 20, 2, &vec![(0, 0, 0, 0), (0, 1, 0, 0)]).is_none());
    assert!(arrange(&sizes, 20, 20, 2, &vec![(0, 0, 0, 0), (2, 1, 0, 0)]).is_none());
}

#[test]
fn compact_numbers_bins_by_first_use() {
    let rs = vec![rect(1, 1, 0, 0, 5), rect(1, 1, 0, 0, 2), rect(1, 1, 2, 2, 5), rect(1, 1, 0, 0, 0)];
    let (out, count) = compact(&rs, 6);
    assert_eq!(count, 3);
    let idx: Vec<usize> = out.iter().map(|r| r.atlas_index).collect();
    assert_eq!(idx, vec![0, 1, 0, 2]);
    assert_eq!(out[2], rect(1, 1, 2, 2, 0));
}

#[test]
fn place_combines_checking_and_numbering() {
    let sizes = vec![(4, 4), (4, 4)];
    let p = place(&sizes, 8, 8, 4, &vec![(1, 3, 0, 0), (0, 2, 0, 0)]).unwrap();
    assert_eq!((p.width, p.height, p.count), (8, 8, 2));
    assert_eq!(p.slots, vec![rect(4, 4, 0, 0, 0), rect(4, 4, 0, 0, 1)]);
}

#[test]
fn overlap_check_sees_shared_atlases_only() {
    assert!(!overlap_free(&vec![rect(4, 4, 0, 0, 0), rect(4, 4, 3, 3, 0)]));
    assert!(overlap_free(&vec![rect(4, 4, 0, 0, 0), rect(4, 4, 3, 3, 1)]));
    assert!(overlap_free(&vec![rect(4, 4, 0, 0, 0), rect(4, 4, 4, 0, 0)]));
}

#[test]
fn strip_and_extents() {
    let padded = vec![rect(14, 8, 0, 0, 0), rect(6, 6, 14, 0, 0), rect(10, 10, 0, 0, 1)];
    let rs = strip_margins(&padded, 2);
    assert_eq!(rs[0], rect(10, 4, 2, 2, 0));
    assert_eq!(rs[1], rect(2, 2, 16, 2, 0));
    assert_eq!(extents(&rs, 2), vec![(18, 6), (8, 8)]);
}

#[test]
fn column_image_rows_are_replicated() {
    let a = Rgba([1, 0, 0, 1]);
    let b = Rgba([2, 0, 0, 1]);
    let c = Rgba([3, 0, 0, 1]);
    let mut img = DynamicImage::new_rgba16(1, 3);
    set(&mut img, 0, 0, a);
    set(&mut img, 0, 1, b);
    set(&mut img, 0, 2, c);
    let out = add_margins(vec![img], 1);
    assert_eq!(out[0].dimensions(), (3, 5));
    let rows = [a, a, b, c, c];
    for (y, p) in rows.iter().enumerate() {
        for x in 0..3 {
            assert_eq!(px(&out[0], x, y as u32), *p);
        }
    }
    assert!(is_rgba16_image(&out[0]));
}

#[test]
fn two_paddings_equal_one_by_the_sum() {
    let mut img = DynamicImage::new_rgba16(3, 2);
    for x in 0..3 {
        for y in 0..2 {
            set(&mut img, x, y, Rgba([x as u16 * 300 + 1, y as u16 * 900 + 2, 7, 65535]));
        }
    }
    let twice = add_margins(add_margins(vec![img.clone()], 2), 3);
    let once = add_margins(vec![img], 5);
    assert_eq!(twice[0].dimensions(), (13, 12));
    assert_eq!(twice[0], once[0]);
}

#[test]
fn atlas_holds_padded_pixels_around_each_rect() {
    let mut bufs = Vec::new();
    for k in 0..3u16 {
        let mut img = DynamicImage::new_rgba16(5, 4);
        for x in 0..5 {
            for y in 0..4 {
                set(&mut img, x, y, Rgba([k * 500 + 3, x as u16 + 1, y as u16 + 1, 65535]));
            }
        }
        bufs.push(img);
    }
    let l = atlas_buffers(bufs.clone(), options(32, 32, 2, 1)).unwrap();
    for (i, r) in l.rects.iter().enumerate() {
        let a = &l.atlantes[r.atlas_index];
        for dx in 0..9u32 {
            for dy in 0..8u32 {
                let sx = (dx as i64 - 2).clamp(0, 4) as u32;
                let sy = (dy as i64 - 2).clamp(0, 3) as u32;
                assert_eq!(px(a, r.x - 2 + dx, r.y - 2 + dy), px(&bufs[i], sx, sy));
            }
        }
    }
}

#[test]
fn image_size_and_format_are_reported() {
    let img = DynamicImage::new_rgba16(7, 3);
    assert_eq!(image_size(&img), (7, 3));
    assert!(is_rgba16_image(&img));
    assert!(!is_rgba16_image(&DynamicImage::new_rgb8(2, 2)));
}

#[test]
fn errors_convert_from_image_and_io_errors() {
    let io = std::io::Error::new(std::io::ErrorKind::Other, "disk");
    assert!(matches!(AtlasError::from(io), AtlasError::IoError(_)));
    let img_err = image::ImageError::IoError(std::io::Error::new(std::io::ErrorKind::Other, "x"));
    assert!(matches!(AtlasError::from(img_err), AtlasError::ImageError(_)));
}
