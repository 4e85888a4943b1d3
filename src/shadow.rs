//! The shadow baker: a soft drop shadow made from a sprite's alpha channel by
//! blurring it at several scales, once per source bitmap.
use crate::bitmap::{widen8, Bitmap, BitmapView, Format, Pixels};
use crate::store::{Handle, ImageError, Images};
use image::{imageops, GrayAlphaImage};
use std::collections::HashMap;
use vstd::arithmetic::div_mod::lemma_fundamental_div_mod_converse;
use vstd::prelude::*;

verus! {

/// What `image::imageops::fast_blur` returns for a grey-and-alpha 8-bit image
/// of the given size, held as its raw buffer, blurred with the given sigma.
pub uninterp spec fn fast_blur_of(data: Seq<u8>, width: u32, height: u32, sigma: u16) -> Seq<u8>;

/// Relies on `image::imageops::fast_blur` for a `GrayAlphaImage`: an
/// approximate Gaussian blur, whose result has the size of its input, so the
/// raw buffer keeps its length. The buffer holds exactly the image's pixels,
/// so building the image cannot fail.
#[verifier::external_body]
fn fast_blur(data: &Vec<u8>, width: u32, height: u32, sigma: u16) -> (r: Vec<u8>)
    requires
        data@.len() == 2 * width * height,
    ensures
        r@ == fast_blur_of(data@, width, height, sigma),
        r@.len() == data@.len(),
{
    let image = GrayAlphaImage::from_raw(width, height, data.clone()).expect("buffer fits the image");
    imageops::fast_blur(&image, sigma.into()).into_raw()
}

/// `a + b`, saturating at 255.
pub open spec fn sat_add(a: u8, b: u8) -> u8 {
    if a + b > 255 {
        255
    } else {
        (a + b) as u8
    }
}

/// `a * f`, saturating at 255.
pub open spec fn sat_mul(a: u8, f: u8) -> u8 {
    if a * f > 255 {
        255
    } else {
        (a * f) as u8
    }
}

/// Whether the shadow of a bitmap, twice its width and height with two bytes
/// per pixel, can be addressed.
pub open spec fn shadow_fits(v: BitmapView) -> bool {
    &&& 2 * v.width <= u32::MAX
    &&& 2 * v.height <= u32::MAX
    &&& 8 * v.width * v.height <= usize::MAX
    &&& 4 * v.width <= usize::MAX
}

/// The alpha of pixel `(x, y)` of the mask: the source's alpha copied into
/// the middle of a canvas twice its size, offset by half its size; zero
/// elsewhere.
pub open spec fn mask_alpha(v: BitmapView, x: int, y: int) -> u8 {
    let sx = x - v.width / 2;
    let sy = y - v.height / 2;
    if 0 <= sx < v.width && 0 <= sy < v.height {
        v.alpha8(sx, sy)
    } else {
        0
    }
}

/// The raw grey-and-alpha buffer of the mask, `2W × 2H` pixels for a `W × H`
/// source: grey zero everywhere, alpha as `mask_alpha` says.
pub open spec fn mask_of(v: BitmapView) -> Seq<u8> {
    let mw = 2 * v.width;
    let mh = 2 * v.height;
    Seq::new(
        (2 * mw * mh) as nat,
        |k: int|
            if k % 2 == 0 {
                0u8
            } else {
                mask_alpha(v, (k / 2) % mw, (k / 2) / mw)
            },
    )
}

/// Builds the mask of a bitmap, pixel after pixel.
fn alpha_mask(b: &Bitmap) -> (r: Vec<u8>)
    requires
        b@.wf(),
        !b@.format.is_float(),
        shadow_fits(b@),
    ensures
        r@ == mask_of(b@),
{
    let ghost v = b@;
    let mw = 2 * b.width;
    let mh = 2 * b.height;
    let ox = b.width / 2;
    let oy = b.height / 2;
    let mut out: Vec<u8> = Vec::new();
    let mut y: u32 = 0;
    while y < mh
        invariant
            v == b@,
            b@.wf(),
            !b@.format.is_float(),
            shadow_fits(v),
            mw == 2 * b.width,
            mh == 2 * b.height,
            ox == b.width / 2,
            oy == b.height / 2,
            y <= mh,
            out@ =~= Seq::new(
                (2 * (y * mw)) as nat,
                |k: int|
                    if k % 2 == 0 {
                        0u8
                    } else {
                        mask_alpha(v, (k / 2) % mw as int, (k / 2) / mw as int)
                    },
            ),
        decreases mh - y,
    {
        let mut x: u32 = 0;
        while x < mw
            invariant
                v == b@,
                b@.wf(),
                !b@.format.is_float(),
                shadow_fits(v),
                mw == 2 * b.width,
                mh == 2 * b.height,
                ox == b.width / 2,
                oy == b.height / 2,
                y < mh,
                x <= mw,
                out@ =~= Seq::new(
                    (2 * (y * mw + x)) as nat,
                    |k: int|
                        if k % 2 == 0 {
                            0u8
                        } else {
                            mask_alpha(v, (k / 2) % mw as int, (k / 2) / mw as int)
                        },
                ),
            decreases mw - x,
        {
            let alpha = if ox <= x && x - ox < b.width && oy <= y && y - oy < b.height {
                b.alpha8(x - ox, y - oy)
            } else {
                0
            };
            let ghost p = y * mw + x;
            proof {
                lemma_fundamental_div_mod_converse(p, mw as int, y as int, x as int);
                assert((2 * p) / 2 == p && (2 * p) % 2 == 0);
                assert((2 * p + 1) / 2 == p && (2 * p + 1) % 2 == 1);
                assert(alpha == mask_alpha(v, x as int, y as int));
            }
            out.push(0);
            out.push(alpha);
            x = x + 1;
        }
        proof {
            assert(y * mw + mw == (y + 1) * mw) by (nonlinear_arith);
        }
        y = y + 1;
    }
    proof {
        assert(2 * (mh * mw) == 2 * mw * mh) by (nonlinear_arith);
    }
    out
}

/// The mask with every alpha multiplied by `factor`, saturating; grey kept.
pub open spec fn boosted(m: Seq<u8>, factor: u8) -> Seq<u8> {
    Seq::new(m.len(), |k: int| if k % 2 == 1 { sat_mul(m[k], factor) } else { m[k] })
}

/// Multiplies every alpha of a grey-and-alpha buffer by `factor`, saturating
/// at 255, to sharpen a blurred edge again.
pub fn boost(mask: &mut Vec<u8>, factor: u8)
    ensures
        final(mask)@ == boosted(old(mask)@, factor),
{
    let n = mask.len();
    let mut k: usize = 0;
    while k < n
        invariant
            n == mask@.len(),
            n == old(mask)@.len(),
            k <= n,
            forall|j: int| 0 <= j < k ==> mask@[j] == #[trigger] boosted(old(mask)@, factor)[j],
            forall|j: int| k <= j < n ==> mask@[j] == old(mask)@[j],
        decreases n - k,
    {
        if k % 2 == 1 {
            let a = mask[k] as u32;
            let f = factor as u32;
            assert(a * f <= 255 * 255) by (nonlinear_arith)
                requires a <= 255, f <= 255;
            let product = a * f;
            let v = if product > 255 {
                255
            } else {
                product as u8
            };
            mask.set(k, v);
        }
        k = k + 1;
    }
    assert(mask@ =~= boosted(old(mask)@, factor));
}

/// `target` with `source / divider` added to every alpha, saturating; grey
/// kept.
pub open spec fn added(target: Seq<u8>, source: Seq<u8>, divider: u8) -> Seq<u8> {
    Seq::new(
        target.len(),
        |k: int| if k % 2 == 1 { sat_add(target[k], (source[k] / divider) as u8) } else { target[k] },
    )
}

/// Adds `source / divider` to every alpha of `target`, saturating at 255.
pub fn add(target: &mut Vec<u8>, source: &Vec<u8>, divider: u8)
    requires
        divider > 0,
        old(target)@.len() == source@.len(),
    ensures
        final(target)@ == added(old(target)@, source@, divider),
{
    let n = target.len();
    let mut k: usize = 0;
    while k < n
        invariant
            n == target@.len(),
            n == old(target)@.len(),
            n == source@.len(),
            divider > 0,
            k <= n,
            forall|j: int|
                0 <= j < k ==> target@[j] == #[trigger] added(old(target)@, source@, divider)[j],
            forall|j: int| k <= j < n ==> target@[j] == old(target)@[j],
        decreases n - k,
    {
        if k % 2 == 1 {
            let v = target[k].saturating_add(source[k] / divider);
            target.set(k, v);
        }
        k = k + 1;
    }
    assert(target@ =~= added(old(target)@, source@, divider));
}

/// The raw buffer of the shadow of `v`: the mask, dilated by a small blur and
/// sharpened by a factor of five, then blurred at `sigma`, `2 × sigma` and
/// `4 × sigma` and summed with weights one half, one third and one quarter.
pub open spec fn shadow_of(v: BitmapView, sigma: u16) -> Seq<u8> {
    let mw = (2 * v.width) as u32;
    let mh = (2 * v.height) as u32;
    let n = 2 * mw * mh;
    let m = boosted(fast_blur_of(mask_of(v), mw, mh, 1), 5);
    let zero = Seq::new(n as nat, |k: int| 0u8);
    added(
        added(added(zero, fast_blur_of(m, mw, mh, sigma), 2), fast_blur_of(m, mw, mh, (2 * sigma) as u16), 3),
        fast_blur_of(m, mw, mh, (4 * sigma) as u16),
        4,
    )
}

/// The shadow bitmap of `v`: grey and alpha, twice its width and height.
pub open spec fn shadow_view(v: BitmapView, sigma: u16) -> BitmapView {
    BitmapView {
        width: (2 * v.width) as u32,
        height: (2 * v.height) as u32,
        format: Format::La8,
        samples: widen8(shadow_of(v, sigma)),
    }
}

/// Bakes the shadow of a bitmap in an integer pixel format.
pub fn generate_shadow_from_alpha(image: &Bitmap, sigma: u16) -> (r: Bitmap)
    requires
        image@.wf(),
        !image@.format.is_float(),
        shadow_fits(image@),
        4 * sigma <= u16::MAX,
    ensures
        r@ == shadow_view(image@, sigma),
        r@.wf(),
        r.width == 2 * image.width,
        r.height == 2 * image.height,
{
    let mw = 2 * image.width;
    let mh = 2 * image.height;
    // start with a transparent mask holding the alpha channel in its middle
    let mask = alpha_mask(image);
    // increase the size of the mask by first applying a small blur
    let mut mask = fast_blur(&mask, mw, mh, 1);
    // and then sharpening its edge again
    boost(&mut mask, 5);
    // blur the mask at three scales, each with less weight
    let n = mask.len();
    let mut shadow: Vec<u8> = Vec::new();
    let mut k: usize = 0;
    while k < n
        invariant
            k <= n,
            shadow@ =~= Seq::new(k as nat, |j: int| 0u8),
        decreases n - k,
    {
        shadow.push(0);
        k = k + 1;
    }
    let first = fast_blur(&mask, mw, mh, sigma);
    self::add(&mut shadow, &first, 2);
    let second = fast_blur(&mask, mw, mh, 2 * sigma);
    self::add(&mut shadow, &second, 3);
    let third = fast_blur(&mask, mw, mh, 4 * sigma);
    self::add(&mut shadow, &third, 4);
    let r = Bitmap { width: mw, height: mh, pixels: Pixels::La8(shadow) };
    proof {
        assert(mask_of(image@).len() == 2 * mw * mh);
        assert(r@.samples == widen8(shadow_of(image@, sigma)));
        assert(2 * mw * mh == mw * mh * 2) by (nonlinear_arith);
    }
    r
}

/// Whether the shadow of a bitmap can be addressed.
pub fn fits_shadow(b: &Bitmap) -> (r: bool)
    ensures
        r == shadow_fits(b@),
{
    let w = b.width as u128;
    let h = b.height as u128;
    assert(8 * w * h <= 8 * 0xffff_ffff * 0xffff_ffff) by (nonlinear_arith)
        requires w <= 0xffff_ffff, h <= 0xffff_ffff;
    2 * w <= u32::MAX as u128 && 2 * h <= u32::MAX as u128 && 8 * w * h <= usize::MAX as u128 && 4
        * w <= usize::MAX as u128
}

/// Where a sprite is anchored for drawing.
#[derive(Clone, Copy, Debug, PartialEq, Eq, Structural)]
pub enum Anchor {
    Center,
    BottomLeft,
    BottomCenter,
    BottomRight,
    CenterLeft,
    CenterRight,
    TopLeft,
    TopCenter,
    TopRight,
}

/// A request for a drop shadow under a sprite: the blur radius, in pixels.
#[derive(Clone, Copy, Debug, PartialEq, Eq, Structural)]
pub struct Shadow {
    pub sigma: u16,
}

impl Default for Shadow {
    fn default() -> (r: Shadow)
        ensures
            r.sigma == 3,
    {
        Shadow { sigma: 3 }
    }
}

/// The shadows baked so far: source handle id to shadow handle.
pub struct ShadowCache {
    images: HashMap<u64, Handle>,
}

impl View for ShadowCache {
    type V = Map<u64, Handle>;

    closed spec fn view(&self) -> Map<u64, Handle> {
        self.images@
    }
}

/// Whether bitmap `shadow` of the store is a shadow of bitmap `source`.
pub open spec fn is_shadow_of(images: Seq<BitmapView>, source: u64, shadow: Handle) -> bool {
    &&& source < images.len()
    &&& shadow.id < images.len()
    &&& shadow_fits(images[source as int])
    &&& exists|sigma: u16| images[shadow.id as int] == shadow_view(images[source as int], sigma)
}

impl ShadowCache {
    /// Every entry names a shadow of its source.
    pub open spec fn wf(&self, images: Seq<BitmapView>) -> bool {
        forall|k: u64| #[trigger] self@.contains_key(k) ==> is_shadow_of(images, k, self@[k])
    }

    /// An empty cache.
    pub fn new() -> (r: ShadowCache)
        ensures
            r@ == Map::<u64, Handle>::empty(),
    {
        ShadowCache { images: HashMap::new() }
    }
}

/// What baking the shadow of `source` does: the cache, the store and the
/// result afterwards. A sprite not anchored at its centre is refused; a source
/// met before gets its cached shadow, with nothing computed; otherwise the
/// shadow is baked, registered and cached.
pub open spec fn bake_outcome(
    cache: Map<u64, Handle>,
    images: Seq<BitmapView>,
    source: Handle,
    anchor: Anchor,
    sigma: u16,
) -> (Map<u64, Handle>, Seq<BitmapView>, Result<Handle, ImageError>) {
    if anchor != Anchor::Center {
        (cache, images, Err(ImageError::AnchorMismatch))
    } else if cache.contains_key(source.id) {
        (cache, images, Ok(cache[source.id]))
    } else if source.id >= images.len() {
        (cache, images, Err(ImageError::ImageNotFound))
    } else if images[source.id as int].format.is_float() {
        (cache, images, Err(ImageError::UnsupportedPixelFormat))
    } else {
        let shadow = Handle { id: images.len() as u64 };
        (
            cache.insert(source.id, shadow),
            images.push(shadow_view(images[source.id as int], sigma)),
            Ok(shadow),
        )
    }
}

/// Bakes, or finds in the cache, the shadow of the sprite bitmap `source`
/// drawn with `anchor`, as `bake_outcome` says.
pub fn bake_shadow(
    cache: &mut ShadowCache,
    images: &mut Images,
    source: Handle,
    anchor: Anchor,
    shadow: &Shadow,
) -> (r: Result<Handle, ImageError>)
    requires
        old(images).wf(),
        old(cache).wf(old(images)@),
        4 * shadow.sigma <= u16::MAX,
        source.id < old(images)@.len() ==> shadow_fits(old(images)@[source.id as int]),
    ensures
        final(images).wf(),
        final(cache).wf(final(images)@),
        (final(cache)@, final(images)@, r) == bake_outcome(
            old(cache)@,
            old(images)@,
            source,
            anchor,
            shadow.sigma,
        ),
{
    broadcast use vstd::std_specs::hash::group_hash_axioms;

    if anchor != Anchor::Center {
        return Err(ImageError::AnchorMismatch);
    }
    if let Some(handle) = cache.images.get(&source.id) {
        return Ok(*handle);
    }
    let image = match images.get(source) {
        Some(b) => b,
        None => return Err(ImageError::ImageNotFound),
    };
    match image.format() {
        Format::Rgb32F | Format::Rgba32F => return Err(ImageError::UnsupportedPixelFormat),
        _ => {},
    }
    let ghost v = image@;
    let baked = generate_shadow_from_alpha(image, shadow.sigma);
    let handle = images.add(baked);
    proof {
        assert forall|k: u64| #[trigger] old(cache)@.contains_key(k) implies is_shadow_of(
            images@,
            k,
            old(cache)@[k],
        ) by {
            let sigma = choose|sigma: u16|
                old(images)@[old(cache)@[k].id as int] == shadow_view(old(images)@[k as int], sigma);
            assert(images@[old(cache)@[k].id as int] == shadow_view(images@[k as int], sigma));
        }
        assert(images@[handle.id as int] == shadow_view(images@[source.id as int], shadow.sigma));
    }
    cache.images.insert(source.id, handle);
    proof {
        assert forall|k: u64| #[trigger] cache@.contains_key(k) implies is_shadow_of(
            images@,
            k,
            cache@[k],
        ) by {
            if k != source.id {
                assert(old(cache)@.contains_key(k));
            }
        }
    }
    Ok(handle)
}

/// Baking is cached: once the shadow of a source has been baked, baking it
/// again, with any blur radius, returns the same handle and changes neither
/// the cache nor the store.
pub proof fn lemma_bake_shadow_cached(
    cache: Map<u64, Handle>,
    images: Seq<BitmapView>,
    source: Handle,
    sigma: u16,
    again: u16,
)
    requires
        bake_outcome(cache, images, source, Anchor::Center, sigma).2 is Ok,
    ensures
        ({
            let (cache1, images1, r1) = bake_outcome(cache, images, source, Anchor::Center, sigma);
            bake_outcome(cache1, images1, source, Anchor::Center, again) == (cache1, images1, r1)
        }),
{
}

/// A baked shadow has twice the width and twice the height of its source.
pub proof fn lemma_bake_shadow_size(
    cache: Map<u64, Handle>,
    images: Seq<BitmapView>,
    source: Handle,
    anchor: Anchor,
    sigma: u16,
)
    requires
        forall|k: u64| #[trigger] cache.contains_key(k) ==> is_shadow_of(images, k, cache[k]),
        source.id < images.len() ==> shadow_fits(images[source.id as int]),
        images.len() <= usize::MAX,
        bake_outcome(cache, images, source, anchor, sigma).2 is Ok,
    ensures
        ({
            let (cache1, images1, r1) = bake_outcome(cache, images, source, anchor, sigma);
            let shadow = r1->Ok_0;
            &&& shadow.id < images1.len()
            &&& images1[shadow.id as int].width == 2 * images[source.id as int].width
            &&& images1[shadow.id as int].height == 2 * images[source.id as int].height
        }),
{
    if cache.contains_key(source.id) {
        assert(is_shadow_of(images, source.id, cache[source.id]));
        let s = choose|s: u16| images[cache[source.id].id as int] == shadow_view(images[source.id as int], s);
        assert(images[cache[source.id].id as int] == shadow_view(images[source.id as int], s));
    }
}

} // verus!
