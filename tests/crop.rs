use gravitate::bitmap::{Bitmap, Pixels, Rect};
use gravitate::crop::{crop_rect, find_crop_rect, image_crop, placement, CropCache, Cropped, Placement, Size};
use gravitate::store::{Handle, ImageError, Images};

/// An RGBA bitmap whose alpha is 255 where `opaque` says so.
fn rgba(width: u32, height: u32, opaque: impl Fn(u32, u32) -> bool) -> Bitmap {
    let mut data = Vec::new();
    for y in 0..height {
        for x in 0..width {
            let a = if opaque(x, y) { 255 } else { 0 };
            data.extend_from_slice(&[(x * 10) as u8, (y * 10) as u8, 7, a]);
        }
    }
    Bitmap { width, height, pixels: Pixels::Rgba8(data) }
}

fn full(width: u32, height: u32) -> Rect {
    Rect { min_x: 0, min_y: 0, max_x: width, max_y: height }
}

#[test]
fn opaque_bitmap_crops_to_full_extent() {
    let b = rgba(5, 3, |_, _| true);
    assert_eq!(find_crop_rect(&b), Some(full(5, 3)));
    assert_eq!(crop_rect(&b), full(5, 3));
}

#[test]
fn transparent_bitmap_crops_to_full_extent() {
    let b = rgba(4, 6, |_, _| false);
    assert_eq!(find_crop_rect(&b), None);
    assert_eq!(crop_rect(&b), full(4, 6));
}

#[test]
fn empty_bitmap_crops_to_its_empty_extent() {
    let b = Bitmap { width: 0, height: 0, pixels: Pixels::Rgba8(vec![]) };
    assert_eq!(crop_rect(&b), full(0, 0));
}

#[test]
fn crop_rect_is_tight_and_end_exclusive() {
    // opaque pixels at (2, 1) and (4, 3)
    let b = rgba(7, 5, |x, y| (x, y) == (2, 1) || (x, y) == (4, 3));
    assert_eq!(crop_rect(&b), Rect { min_x: 2, min_y: 1, max_x: 5, max_y: 4 });
}

#[test]
fn single_opaque_pixel_crops_to_one_pixel() {
    let b = rgba(3, 3, |x, y| (x, y) == (1, 1));
    assert_eq!(crop_rect(&b), Rect { min_x: 1, min_y: 1, max_x: 2, max_y: 2 });
}

#[test]
fn cropping_a_cropped_bitmap_keeps_it_whole() {
    let b = rgba(8, 6, |x, y| (2..5).contains(&x) && (1..4).contains(&y) && (x + y) % 2 == 0);
    let r = crop_rect(&b);
    assert_eq!(r, Rect { min_x: 2, min_y: 1, max_x: 5, max_y: 4 });
    let sub = b.sub_image(r);
    assert_eq!((sub.width, sub.height), (3, 3));
    assert_eq!(crop_rect(&sub), full(3, 3));
}

#[test]
fn formats_without_alpha_are_opaque() {
    let b = Bitmap { width: 2, height: 2, pixels: Pixels::L8(vec![0, 0, 0, 0]) };
    assert!(b.alpha_is_non_zero(0, 0));
    assert_eq!(b.alpha8(1, 1), 255);
    assert_eq!(crop_rect(&b), full(2, 2));
    let f = Bitmap { width: 1, height: 1, pixels: Pixels::Rgb32F(vec![0, 0, 0]) };
    assert!(f.alpha_is_non_zero(0, 0));
}

#[test]
fn wide_and_float_alpha() {
    let w = Bitmap { width: 3, height: 1, pixels: Pixels::La16(vec![9, 0, 9, 1, 9, 65535]) };
    assert!(!w.alpha_is_non_zero(0, 0));
    assert!(w.alpha_is_non_zero(1, 0));
    assert_eq!(w.alpha8(1, 0), 0);
    assert_eq!(w.alpha8(2, 0), 255);
    assert_eq!(crop_rect(&w), Rect { min_x: 1, min_y: 0, max_x: 3, max_y: 1 });
    let half: u16 = 32896;
    let h = Bitmap { width: 1, height: 1, pixels: Pixels::Rgba16(vec![0, 0, 0, half]) };
    assert_eq!(h.alpha8(0, 0), 128);
    let negative_zero = 0x8000_0000u32;
    let f = Bitmap {
        width: 3,
        height: 1,
        pixels: Pixels::Rgba32F(vec![0, 0, 0, negative_zero, 0, 0, 0, 0, 0, 0, 0, 1.0f32.to_bits()]),
    };
    assert!(!f.alpha_is_non_zero(0, 0));
    assert!(!f.alpha_is_non_zero(1, 0));
    assert!(f.alpha_is_non_zero(2, 0));
    assert_eq!(crop_rect(&f), Rect { min_x: 2, min_y: 0, max_x: 3, max_y: 1 });
}

#[test]
fn sub_image_copies_the_window() {
    let b = Bitmap { width: 3, height: 3, pixels: Pixels::L16((0..9).collect()) };
    let s = b.sub_image(Rect { min_x: 1, min_y: 1, max_x: 3, max_y: 3 });
    assert_eq!((s.width, s.height), (2, 2));
    match s.pixels {
        Pixels::L16(v) => assert_eq!(v, vec![4, 5, 7, 8]),
        _ => panic!("format changed"),
    }
}

#[test]
fn image_crop_keeps_untrimmed_source() {
    let mut images = Images::new();
    let mut cache = CropCache::new();
    let h = images.add(rgba(4, 4, |_, _| true));
    let c = image_crop(&mut cache, &mut images, h).unwrap();
    assert_eq!(c, Cropped { handle: h, rect: full(4, 4), full_size: Size { width: 4, height: 4 } });
    assert_eq!(images.len(), 1);
}

#[test]
fn image_crop_registers_trimmed_bitmap_once() {
    let mut images = Images::new();
    let mut cache = CropCache::new();
    let h = images.add(rgba(6, 5, |x, y| (1..3).contains(&x) && (2..5).contains(&y)));
    let c = image_crop(&mut cache, &mut images, h).unwrap();
    assert_eq!(c.rect, Rect { min_x: 1, min_y: 2, max_x: 3, max_y: 5 });
    assert_eq!(c.full_size, Size { width: 6, height: 5 });
    assert_ne!(c.handle, h);
    assert_eq!(images.len(), 2);
    let trimmed = images.get(c.handle).unwrap();
    assert_eq!((trimmed.width, trimmed.height), (2, 3));
    match &trimmed.pixels {
        Pixels::Rgba8(v) => assert_eq!(&v[0..4], &[10, 20, 7, 255]),
        _ => panic!("format changed"),
    }
    // a second request comes from the cache
    let again = image_crop(&mut cache, &mut images, h).unwrap();
    assert_eq!(again, c);
    assert_eq!(images.len(), 2);
}

#[test]
fn image_crop_of_unknown_handle_fails() {
    let mut images = Images::new();
    let mut cache = CropCache::new();
    assert_eq!(image_crop(&mut cache, &mut images, Handle { id: 3 }), Err(ImageError::ImageNotFound));
}

#[test]
fn placement_scales_offset_to_drawn_size() {
    let c = Cropped {
        handle: Handle { id: 1 },
        rect: Rect { min_x: 32, min_y: 16, max_x: 96, max_y: 112 },
        full_size: Size { width: 128, height: 128 },
    };
    assert_eq!(placement(&c, 128), Some(Placement { width: 128, height: 192, x: -64, y: 96 }));
    // drawn at half the size: everything halves
    assert_eq!(placement(&c, 32), Some(Placement { width: 32, height: 48, x: -16, y: 24 }));
}

#[test]
fn placement_of_uncropped_sprite_covers_the_square() {
    let c = Cropped {
        handle: Handle { id: 0 },
        rect: Rect { min_x: 0, min_y: 0, max_x: 50, max_y: 30 },
        full_size: Size { width: 50, height: 30 },
    };
    assert_eq!(placement(&c, 10), Some(Placement { width: 20, height: 20, x: -10, y: 10 }));
    let empty = Cropped { handle: Handle { id: 0 }, rect: Rect { min_x: 0, min_y: 0, max_x: 0, max_y: 0 }, full_size: Size { width: 0, height: 5 } };
    assert_eq!(placement(&empty, 10), None);
}
