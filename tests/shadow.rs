use gravitate::bitmap::{Bitmap, Pixels};
use gravitate::shadow::{add, bake_shadow, boost, fits_shadow, generate_shadow_from_alpha, Anchor, Shadow, ShadowCache};
use gravitate::store::{Handle, ImageError, Images};

fn alpha_at(b: &Bitmap, x: u32, y: u32) -> u8 {
    match &b.pixels {
        Pixels::La8(v) => v[((y * b.width + x) * 2 + 1) as usize],
        _ => panic!("a shadow is grey and alpha"),
    }
}

#[test]
fn opaque_sprite_shadow_scenario() {
    let mut images = Images::new();
    let mut cache = ShadowCache::new();
    let sprite = images.add(Bitmap { width: 64, height: 64, pixels: Pixels::Rgba8(vec![255; 64 * 64 * 4]) });
    let shadow = Shadow { sigma: 3 };
    let first = bake_shadow(&mut cache, &mut images, sprite, Anchor::Center, &shadow).unwrap();
    let baked = images.get(first).unwrap();
    assert_eq!((baked.width, baked.height), (128, 128));
    assert_eq!(images.len(), 2);
    let second = bake_shadow(&mut cache, &mut images, sprite, Anchor::Center, &shadow).unwrap();
    assert_eq!(second, first);
    // nothing new was baked
    assert_eq!(images.len(), 2);
}

#[test]
fn shadow_is_twice_the_size() {
    let src = Bitmap { width: 5, height: 3, pixels: Pixels::La8([0u8, 200].repeat(15)) };
    let s = generate_shadow_from_alpha(&src, 2);
    assert_eq!((s.width, s.height), (10, 6));
    match &s.pixels {
        Pixels::La8(v) => {
            assert_eq!(v.len(), 10 * 6 * 2);
            // the grey channel stays black
            assert!(v.iter().step_by(2).all(|g| *g == 0));
        }
        _ => panic!("a shadow is grey and alpha"),
    }
}

#[test]
fn shadow_spreads_beyond_the_silhouette() {
    // one opaque pixel in the middle of a 9 × 9 sprite
    let mut data = vec![0u8; 9 * 9 * 4];
    data[(4 * 9 + 4) * 4 + 3] = 255;
    let src = Bitmap { width: 9, height: 9, pixels: Pixels::Rgba8(data) };
    let s = generate_shadow_from_alpha(&src, 1);
    // the pixel lands at (4 + 4, 4 + 4) of the mask; the blur reaches its neighbours
    assert!(alpha_at(&s, 8, 8) > 0);
    assert!(alpha_at(&s, 10, 8) > 0);
    assert!(alpha_at(&s, 8, 6) > 0);
    assert_eq!(alpha_at(&s, 0, 0), 0);
    assert!(alpha_at(&s, 8, 8) >= alpha_at(&s, 12, 8));
}

#[test]
fn transparent_sprite_casts_no_shadow() {
    let src = Bitmap { width: 4, height: 4, pixels: Pixels::Rgba8(vec![0; 64]) };
    let s = generate_shadow_from_alpha(&src, 3);
    match &s.pixels {
        Pixels::La8(v) => assert!(v.iter().all(|a| *a == 0)),
        _ => panic!("a shadow is grey and alpha"),
    }
}

#[test]
fn add_divides_and_saturates_alpha_only() {
    let mut target = vec![1, 10, 2, 250, 3, 0];
    let source = vec![100, 9, 100, 30, 100, 7];
    add(&mut target, &source, 3);
    assert_eq!(target, vec![1, 13, 2, 255, 3, 2]);
}

#[test]
fn boost_multiplies_and_saturates_alpha_only() {
    let mut mask = vec![7, 10, 7, 51, 7, 52, 7, 0];
    boost(&mut mask, 5);
    assert_eq!(mask, vec![7, 50, 7, 255, 7, 255, 7, 0]);
}

#[test]
fn off_centre_anchor_is_refused() {
    let mut images = Images::new();
    let mut cache = ShadowCache::new();
    let sprite = images.add(Bitmap { width: 2, height: 2, pixels: Pixels::L8(vec![1; 4]) });
    let r = bake_shadow(&mut cache, &mut images, sprite, Anchor::TopLeft, &Shadow::default());
    assert_eq!(r, Err(ImageError::AnchorMismatch));
    assert_eq!(images.len(), 1);
}

#[test]
fn unknown_source_is_not_found() {
    let mut images = Images::new();
    let mut cache = ShadowCache::new();
    let r = bake_shadow(&mut cache, &mut images, Handle { id: 0 }, Anchor::Center, &Shadow::default());
    assert_eq!(r, Err(ImageError::ImageNotFound));
}

#[test]
fn float_source_is_unsupported() {
    let mut images = Images::new();
    let mut cache = ShadowCache::new();
    let sprite = images.add(Bitmap { width: 1, height: 1, pixels: Pixels::Rgba32F(vec![0, 0, 0, 1.0f32.to_bits()]) });
    let r = bake_shadow(&mut cache, &mut images, sprite, Anchor::Center, &Shadow::default());
    assert_eq!(r, Err(ImageError::UnsupportedPixelFormat));
}

#[test]
fn default_shadow_and_size_check() {
    assert_eq!(Shadow::default().sigma, 3);
    let small = Bitmap { width: 3, height: 2, pixels: Pixels::L8(vec![0; 6]) };
    assert!(fits_shadow(&small));
    let huge = Bitmap { width: u32::MAX, height: 0, pixels: Pixels::L8(vec![]) };
    assert!(!fits_shadow(&huge));
}
