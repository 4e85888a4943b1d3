//! The crop engine: finds the tight bounding box of a bitmap's non-transparent
//! pixels, and trims bitmaps to it, once per source bitmap.
use crate::bitmap::{Bitmap, BitmapView, Rect};
use crate::store::{Handle, ImageError, Images};
use std::collections::HashMap;
use vstd::prelude::*;

verus! {

/// Whether row `y` holds no opaque pixel.
pub open spec fn row_clear(v: BitmapView, y: int) -> bool {
    forall|x: int| 0 <= x < v.width ==> !#[trigger] v.opaque(x, y)
}

/// Whether column `x` holds no opaque pixel.
pub open spec fn column_clear(v: BitmapView, x: int) -> bool {
    forall|y: int| 0 <= y < v.height ==> !#[trigger] v.opaque(x, y)
}

/// Whether some pixel is opaque.
pub open spec fn has_opaque(v: BitmapView) -> bool {
    exists|x: int, y: int| 0 <= x < v.width && 0 <= y < v.height && #[trigger] v.opaque(x, y)
}

/// Whether `r` is the tight bounding box of the opaque pixels: its first and
/// last rows and columns each hold an opaque pixel, and none lies outside it.
pub open spec fn bounds_opaque(v: BitmapView, r: Rect) -> bool {
    &&& r.min_x < r.max_x <= v.width
    &&& r.min_y < r.max_y <= v.height
    &&& !row_clear(v, r.min_y as int)
    &&& !row_clear(v, r.max_y - 1)
    &&& !column_clear(v, r.min_x as int)
    &&& !column_clear(v, r.max_x - 1)
    &&& forall|y: int| 0 <= y < r.min_y ==> #[trigger] row_clear(v, y)
    &&& forall|y: int| r.max_y <= y < v.height ==> #[trigger] row_clear(v, y)
    &&& forall|x: int| 0 <= x < r.min_x ==> #[trigger] column_clear(v, x)
    &&& forall|x: int| r.max_x <= x < v.width ==> #[trigger] column_clear(v, x)
}

/// The crop rectangle of a bitmap: the bounding box of its opaque pixels, or
/// the whole bitmap when none is opaque.
pub open spec fn crop_rect_of(v: BitmapView) -> Rect {
    if exists|r: Rect| bounds_opaque(v, r) {
        choose|r: Rect| bounds_opaque(v, r)
    } else {
        v.full_rect()
    }
}

/// There is at most one bounding box.
pub proof fn lemma_bounds_unique(v: BitmapView, a: Rect, b: Rect)
    requires
        bounds_opaque(v, a),
        bounds_opaque(v, b),
    ensures
        a == b,
{
    if a.min_y < b.min_y {
        assert(row_clear(v, a.min_y as int));
    }
    if b.min_y < a.min_y {
        assert(row_clear(v, b.min_y as int));
    }
    if a.max_y < b.max_y {
        assert(row_clear(v, b.max_y - 1));
    }
    if b.max_y < a.max_y {
        assert(row_clear(v, a.max_y - 1));
    }
    if a.min_x < b.min_x {
        assert(column_clear(v, a.min_x as int));
    }
    if b.min_x < a.min_x {
        assert(column_clear(v, b.min_x as int));
    }
    if a.max_x < b.max_x {
        assert(column_clear(v, b.max_x - 1));
    }
    if b.max_x < a.max_x {
        assert(column_clear(v, a.max_x - 1));
    }
}

/// A bounding box exists exactly when some pixel is opaque.
proof fn lemma_bounds_need_opaque(v: BitmapView, r: Rect)
    requires
        bounds_opaque(v, r),
    ensures
        has_opaque(v),
{
    let x = choose|x: int| 0 <= x < v.width && !!v.opaque(x, r.min_y as int);
    assert(v.opaque(x, r.min_y as int));
}

/// A bounding box is the crop rectangle.
pub proof fn lemma_crop_rect_is_bounds(v: BitmapView, r: Rect)
    requires
        bounds_opaque(v, r),
    ensures
        crop_rect_of(v) == r,
{
    let c = choose|c: Rect| bounds_opaque(v, c);
    lemma_bounds_unique(v, c, r);
}

/// Without an opaque pixel the crop rectangle is the whole bitmap.
pub proof fn lemma_crop_rect_without_opaque(v: BitmapView)
    requires
        !has_opaque(v),
    ensures
        crop_rect_of(v) == v.full_rect(),
{
    if exists|r: Rect| bounds_opaque(v, r) {
        let r = choose|r: Rect| bounds_opaque(v, r);
        lemma_bounds_need_opaque(v, r);
    }
}

/// Below any index that satisfies `p` lies a first one.
proof fn lemma_first(p: spec_fn(int) -> bool, lo: int, i: int)
    requires
        lo <= i,
        p(i),
    ensures
        exists|j: int| lo <= j <= i && #[trigger] p(j) && forall|k: int| lo <= k < j ==> !#[trigger] p(k),
    decreases i - lo,
{
    if exists|k: int| lo <= k < i && #[trigger] p(k) {
        let k = choose|k: int| lo <= k < i && #[trigger] p(k);
        lemma_first(p, lo, k);
        let j = choose|j: int| lo <= j <= k && #[trigger] p(j) && forall|m: int| lo <= m < j ==> !#[trigger] p(m);
        assert(lo <= j <= i && p(j));
    } else {
        assert(forall|k: int| lo <= k < i ==> !#[trigger] p(k));
    }
}

/// Above any index below `hi` that satisfies `p` lies a last one.
proof fn lemma_last(p: spec_fn(int) -> bool, hi: int, i: int)
    requires
        i < hi,
        p(i),
    ensures
        exists|j: int| i <= j < hi && #[trigger] p(j) && forall|k: int| j < k < hi ==> !#[trigger] p(k),
    decreases hi - i,
{
    if exists|k: int| i < k < hi && #[trigger] p(k) {
        let k = choose|k: int| i < k < hi && #[trigger] p(k);
        lemma_last(p, hi, k);
        let j = choose|j: int| k <= j < hi && #[trigger] p(j) && forall|m: int| j < m < hi ==> !#[trigger] p(m);
        assert(i <= j < hi && p(j));
    } else {
        assert(forall|k: int| i < k < hi ==> !#[trigger] p(k));
    }
}

/// Where some pixel is opaque, a bounding box exists.
#[verifier::rlimit(40)]
pub proof fn lemma_bounds_exist(v: BitmapView)
    requires
        has_opaque(v),
    ensures
        exists|r: Rect| bounds_opaque(v, r),
{
    let (ox, oy) = choose|x: int, y: int| 0 <= x < v.width && 0 <= y < v.height && #[trigger] v.opaque(x, y);
    let rows = |y: int| !row_clear(v, y);
    let cols = |x: int| !column_clear(v, x);
    assert(rows(oy));
    assert(cols(ox));
    lemma_first(rows, 0, oy);
    lemma_last(rows, v.height as int, oy);
    lemma_first(cols, 0, ox);
    lemma_last(cols, v.width as int, ox);
    let y0 = choose|j: int| 0 <= j <= oy && #[trigger] rows(j) && forall|k: int| 0 <= k < j ==> !#[trigger] rows(k);
    let y1 = choose|j: int| oy <= j < v.height && #[trigger] rows(j) && forall|k: int| j < k < v.height ==> !#[trigger] rows(k);
    let x0 = choose|j: int| 0 <= j <= ox && #[trigger] cols(j) && forall|k: int| 0 <= k < j ==> !#[trigger] cols(k);
    let x1 = choose|j: int| ox <= j < v.width && #[trigger] cols(j) && forall|k: int| j < k < v.width ==> !#[trigger] cols(k);
    let r = Rect { min_x: x0 as u32, min_y: y0 as u32, max_x: (x1 + 1) as u32, max_y: (y1 + 1) as u32 };
    assert forall|y: int| 0 <= y < r.min_y implies #[trigger] row_clear(v, y) by {
        assert(!rows(y));
    }
    assert forall|y: int| r.max_y <= y < v.height implies #[trigger] row_clear(v, y) by {
        assert(!rows(y));
    }
    assert forall|x: int| 0 <= x < r.min_x implies #[trigger] column_clear(v, x) by {
        assert(!cols(x));
    }
    assert forall|x: int| r.max_x <= x < v.width implies #[trigger] column_clear(v, x) by {
        assert(!cols(x));
    }
    assert(bounds_opaque(v, r));
}

/// A pixel of a part of a bitmap is the pixel of the bitmap at the part's
/// offset.
pub proof fn lemma_sub_view_opaque(v: BitmapView, r: Rect, x: int, y: int)
    requires
        v.wf(),
        v.contains_rect(r),
        0 <= x < r.width(),
        0 <= y < r.height(),
    ensures
        v.sub_view(r).opaque(x, y) == v.opaque(r.min_x + x, r.min_y + y),
{
    let s = v.sub_view(r);
    let c = v.format.channels() as int;
    let w = v.width as int;
    let rw = r.width();
    let rh = r.height();
    let cols = rw * c;
    let k = (y * rw + x) * c + c - 1;
    let m = x * c + c - 1;
    assert(c >= 1);
    assert(k == y * cols + m) by (nonlinear_arith)
        requires k == (y * rw + x) * c + c - 1, cols == rw * c, m == x * c + c - 1;
    assert(0 <= m < cols) by (nonlinear_arith)
        requires m == x * c + c - 1, cols == rw * c, 0 <= x < rw, c >= 1;
    vstd::arithmetic::div_mod::lemma_fundamental_div_mod_converse(k, cols, y, m);
    assert(0 <= k < cols * rh) by (nonlinear_arith)
        requires k == y * cols + m, 0 <= m < cols, 0 <= y < rh;
    assert(s.samples.len() == cols * rh);
    assert(s.index(x, y, c - 1) == k);
    let at = (r.min_y + y) * (w * c) + r.min_x * c + m;
    assert(at == v.index(r.min_x + x, r.min_y + y, c - 1)) by (nonlinear_arith)
        requires at == (r.min_y + y) * (w * c) + r.min_x * c + m, m == x * c + c - 1, w == v.width,
            c == v.format.channels();
    assert(s.samples[k] == v.samples[at]);
}

/// A fully opaque bitmap crops to its whole extent.
pub proof fn lemma_crop_opaque_is_full(v: BitmapView)
    requires
        forall|x: int, y: int| 0 <= x < v.width && 0 <= y < v.height ==> #[trigger] v.opaque(x, y),
    ensures
        crop_rect_of(v) == v.full_rect(),
{
    if v.width > 0 && v.height > 0 {
        let f = v.full_rect();
        assert(v.opaque(0, 0));
        assert(v.opaque(0, v.height - 1));
        assert(v.opaque(v.width - 1, 0));
        assert(!row_clear(v, 0));
        assert(!row_clear(v, v.height - 1));
        assert(!column_clear(v, 0));
        assert(!column_clear(v, v.width - 1));
        assert(bounds_opaque(v, f));
        lemma_crop_rect_is_bounds(v, f);
    } else {
        lemma_crop_rect_without_opaque(v);
    }
}

/// A fully transparent bitmap crops to its whole extent, not to an empty
/// rectangle.
pub proof fn lemma_crop_transparent_is_full(v: BitmapView)
    requires
        forall|x: int, y: int| 0 <= x < v.width && 0 <= y < v.height ==> !#[trigger] v.opaque(x, y),
    ensures
        crop_rect_of(v) == v.full_rect(),
{
    lemma_crop_rect_without_opaque(v);
}

/// Cropping is idempotent: the part of a bitmap inside its crop rectangle has
/// the size of that rectangle, and crops to its own whole extent.
pub proof fn lemma_crop_idempotent(v: BitmapView)
    requires
        v.wf(),
    ensures
        v.contains_rect(crop_rect_of(v)),
        v.sub_view(crop_rect_of(v)).width == crop_rect_of(v).width(),
        v.sub_view(crop_rect_of(v)).height == crop_rect_of(v).height(),
        crop_rect_of(crop_rect_of_sub(v)) == crop_rect_of_sub(v).full_rect(),
{
    let r = crop_rect_of(v);
    let s = v.sub_view(r);
    if exists|b: Rect| bounds_opaque(v, b) {
        assert(bounds_opaque(v, r));
        let rw = r.width();
        let rh = r.height();
        // an opaque pixel on each edge of the rectangle lies inside it
        let xa = choose|x: int| 0 <= x < v.width && !!v.opaque(x, r.min_y as int);
        let xb = choose|x: int| 0 <= x < v.width && !!#[trigger] v.opaque(x, r.max_y - 1);
        let ya = choose|y: int| 0 <= y < v.height && !!v.opaque(r.min_x as int, y);
        let yb = choose|y: int| 0 <= y < v.height && !!#[trigger] v.opaque(r.max_x - 1, y);
        assert(v.opaque(xa, r.min_y as int));
        assert(v.opaque(xb, r.max_y - 1));
        assert(v.opaque(r.min_x as int, ya));
        assert(v.opaque(r.max_x - 1, yb));
        if xa < r.min_x { assert(column_clear(v, xa)); }
        if xa >= r.max_x { assert(column_clear(v, xa)); }
        if xb < r.min_x { assert(column_clear(v, xb)); }
        if xb >= r.max_x { assert(column_clear(v, xb)); }
        if ya < r.min_y { assert(row_clear(v, ya)); }
        if ya >= r.max_y { assert(row_clear(v, ya)); }
        if yb < r.min_y { assert(row_clear(v, yb)); }
        if yb >= r.max_y { assert(row_clear(v, yb)); }
        lemma_sub_view_opaque(v, r, xa - r.min_x, 0);
        lemma_sub_view_opaque(v, r, xb - r.min_x, rh - 1);
        lemma_sub_view_opaque(v, r, 0, ya - r.min_y);
        lemma_sub_view_opaque(v, r, rw - 1, yb - r.min_y);
        assert(s.opaque(xa - r.min_x, 0));
        assert(s.opaque(xb - r.min_x, rh - 1));
        assert(s.opaque(0, ya - r.min_y));
        assert(s.opaque(rw - 1, yb - r.min_y));
        assert(!row_clear(s, 0));
        assert(!row_clear(s, rh - 1));
        assert(!column_clear(s, 0));
        assert(!column_clear(s, rw - 1));
        assert(bounds_opaque(s, s.full_rect()));
        lemma_crop_rect_is_bounds(s, s.full_rect());
    } else {
        if has_opaque(v) {
            lemma_bounds_exist(v);
        }
        assert(r == v.full_rect());
        assert forall|x: int, y: int| 0 <= x < s.width && 0 <= y < s.height implies !#[trigger] s.opaque(x, y) by {
            lemma_sub_view_opaque(v, r, x, y);
            if v.opaque(x, y) {
                assert(has_opaque(v));
            }
        }
        lemma_crop_rect_without_opaque(s);
    }
}

/// The part of a bitmap inside its crop rectangle.
pub open spec fn crop_rect_of_sub(v: BitmapView) -> BitmapView {
    v.sub_view(crop_rect_of(v))
}

/// Whether row `y` holds no opaque pixel.
fn row_is_clear(b: &Bitmap, y: u32) -> (r: bool)
    requires
        b@.wf(),
        y < b.height,
    ensures
        r == row_clear(b@, y as int),
{
    let mut x: u32 = 0;
    while x < b.width
        invariant
            b@.wf(),
            y < b.height,
            x <= b.width,
            forall|i: int| 0 <= i < x ==> !#[trigger] b@.opaque(i, y as int),
        decreases b.width - x,
    {
        if b.alpha_is_non_zero(x, y) {
            return false;
        }
        x = x + 1;
    }
    true
}

/// Whether column `x` holds no opaque pixel: a strided walk down the rows.
fn column_is_clear(b: &Bitmap, x: u32) -> (r: bool)
    requires
        b@.wf(),
        x < b.width,
    ensures
        r == column_clear(b@, x as int),
{
    let mut y: u32 = 0;
    while y < b.height
        invariant
            b@.wf(),
            x < b.width,
            y <= b.height,
            forall|i: int| 0 <= i < y ==> !#[trigger] b@.opaque(x as int, i),
        decreases b.height - y,
    {
        if b.alpha_is_non_zero(x, y) {
            return false;
        }
        y = y + 1;
    }
    true
}

/// The tight bounding box of the opaque pixels, found by scanning rows from
/// the top and from the bottom, then columns from the left and from the right;
/// `None` when no pixel is opaque.
pub fn find_crop_rect(b: &Bitmap) -> (r: Option<Rect>)
    requires
        b@.wf(),
    ensures
        match r {
            Some(rect) => bounds_opaque(b@, rect),
            None => !has_opaque(b@),
        },
{
    let ghost v = b@;
    // the first row that has a pixel with non-zero alpha
    let mut min_y: u32 = 0;
    while min_y < b.height && row_is_clear(b, min_y)
        invariant
            v == b@,
            b@.wf(),
            min_y <= b.height,
            forall|y: int| 0 <= y < min_y ==> #[trigger] row_clear(v, y),
        decreases b.height - min_y,
    {
        min_y = min_y + 1;
    }
    if min_y == b.height {
        assert forall|x: int, y: int|
            0 <= x < v.width && 0 <= y < v.height implies !#[trigger] v.opaque(x, y) by {
            assert(row_clear(v, y));
        }
        return None;
    }
    // the last such row
    let mut max_y: u32 = b.height;
    while row_is_clear(b, max_y - 1)
        invariant
            v == b@,
            b@.wf(),
            min_y < max_y <= b.height,
            !row_clear(v, min_y as int),
            forall|y: int| max_y <= y < v.height ==> #[trigger] row_clear(v, y),
        decreases max_y,
    {
        max_y = max_y - 1;
    }
    let ghost ox = choose|x: int| 0 <= x < v.width && !!v.opaque(x, min_y as int);
    assert(v.opaque(ox, min_y as int));
    assert(!column_clear(v, ox));
    // the first column that has a pixel with non-zero alpha
    let mut min_x: u32 = 0;
    while column_is_clear(b, min_x)
        invariant
            v == b@,
            b@.wf(),
            0 <= ox < v.width,
            !column_clear(v, ox),
            min_x <= ox,
            forall|x: int| 0 <= x < min_x ==> #[trigger] column_clear(v, x),
        decreases b.width - min_x,
    {
        min_x = min_x + 1;
    }
    // the last such column
    let mut max_x: u32 = b.width;
    while column_is_clear(b, max_x - 1)
        invariant
            v == b@,
            b@.wf(),
            0 <= ox < v.width,
            !column_clear(v, ox),
            ox < max_x <= b.width,
            forall|x: int| max_x <= x < v.width ==> #[trigger] column_clear(v, x),
        decreases max_x,
    {
        max_x = max_x - 1;
    }
    Some(Rect { min_x, min_y, max_x, max_y })
}

/// The crop rectangle of a bitmap: the bounding box of its opaque pixels, or
/// the whole bitmap when no pixel is opaque, so never an empty rectangle of a
/// bitmap that has pixels.
pub fn crop_rect(b: &Bitmap) -> (r: Rect)
    requires
        b@.wf(),
    ensures
        r == crop_rect_of(b@),
{
    match find_crop_rect(b) {
        Some(rect) => {
            proof {
                lemma_crop_rect_is_bounds(b@, rect);
            }
            rect
        },
        None => {
            proof {
                lemma_crop_rect_without_opaque(b@);
            }
            Rect { min_x: 0, min_y: 0, max_x: b.width, max_y: b.height }
        },
    }
}

/// The size of a bitmap.
#[derive(Clone, Copy, Debug, PartialEq, Eq, Structural)]
pub struct Size {
    pub width: u32,
    pub height: u32,
}

/// The outcome of cropping a source bitmap: the bitmap to draw, the crop
/// rectangle within the source, and the source's full size. A caller that
/// places the trimmed bitmap moves it by `rect.min`, scaled from `full_size`
/// to the size it draws the whole sprite at.
#[derive(Clone, Copy, Debug, PartialEq, Eq, Structural)]
pub struct Cropped {
    pub handle: Handle,
    pub rect: Rect,
    pub full_size: Size,
}

/// Whether `c` is the crop of bitmap `source` of the store: its rectangle is
/// the crop rectangle, and its handle names the source itself when nothing is
/// trimmed, or else a bitmap holding exactly the part inside the rectangle.
pub open spec fn cropped_for(images: Seq<BitmapView>, source: u64, c: Cropped) -> bool {
    &&& source < images.len()
    &&& c.rect == crop_rect_of(images[source as int])
    &&& c.full_size == Size { width: images[source as int].width, height: images[source as int].height }
    &&& c.handle.id < images.len()
    &&& if c.rect == images[source as int].full_rect() {
        c.handle.id == source
    } else {
        images[c.handle.id as int] == images[source as int].sub_view(c.rect)
    }
}

/// The crops made so far, by source handle.
pub struct CropCache {
    entries: HashMap<u64, Cropped>,
}

impl View for CropCache {
    type V = Map<u64, Cropped>;

    closed spec fn view(&self) -> Map<u64, Cropped> {
        self.entries@
    }
}

impl CropCache {
    /// Every entry is the crop of its source in `images`.
    pub open spec fn wf(&self, images: Seq<BitmapView>) -> bool {
        forall|k: u64| #[trigger] self@.contains_key(k) ==> cropped_for(images, k, self@[k])
    }

    /// An empty cache.
    pub fn new() -> (r: CropCache)
        ensures
            r@ == Map::<u64, Cropped>::empty(),
    {
        CropCache { entries: HashMap::new() }
    }
}

/// A crop stays valid when the store only grows.
proof fn lemma_cropped_for_grows(images: Seq<BitmapView>, more: Seq<BitmapView>, k: u64, c: Cropped)
    requires
        cropped_for(images, k, c),
        images.len() <= more.len(),
        images == more.subrange(0, images.len() as int),
    ensures
        cropped_for(more, k, c),
{
    assert(more[k as int] == images[k as int]);
    assert(more[c.handle.id as int] == images[c.handle.id as int]);
}

/// Crops the bitmap of `image`: the cached crop when there is one; otherwise
/// the bitmap's crop rectangle, with the source itself when nothing is trimmed
/// or a new bitmap of the part inside the rectangle, registered in the store.
/// The crop is cached either way.
pub fn image_crop(cache: &mut CropCache, images: &mut Images, image: Handle) -> (r: Result<
    Cropped,
    ImageError,
>)
    requires
        old(images).wf(),
        old(cache).wf(old(images)@),
    ensures
        final(images).wf(),
        final(cache).wf(final(images)@),
        old(images)@.len() <= final(images)@.len(),
        old(images)@ == final(images)@.subrange(0, old(images)@.len() as int),
        old(cache)@.contains_key(image.id) ==> r == Ok::<Cropped, ImageError>(old(cache)@[image.id])
            && final(images)@ == old(images)@ && final(cache)@ == old(cache)@,
        !old(cache)@.contains_key(image.id) && image.id >= old(images)@.len() ==> r == Err::<
            Cropped,
            ImageError,
        >(ImageError::ImageNotFound) && final(images)@ == old(images)@ && final(cache)@ == old(
            cache,
        )@,
        !old(cache)@.contains_key(image.id) && image.id < old(images)@.len() ==> match r {
            Ok(c) => {
                &&& cropped_for(final(images)@, image.id, c)
                &&& final(cache)@ == old(cache)@.insert(image.id, c)
                &&& c.rect == old(images)@[image.id as int].full_rect() ==> final(images)@ == old(
                    images,
                )@
                &&& c.rect != old(images)@[image.id as int].full_rect() ==> final(images)@ == old(
                    images,
                )@.push(old(images)@[image.id as int].sub_view(c.rect)) && c.handle.id == old(
                    images,
                )@.len()
            },
            Err(_) => false,
        },
{
    broadcast use vstd::std_specs::hash::group_hash_axioms;

    if let Some(cached) = cache.entries.get(&image.id) {
        proof {
            assert(old(images)@ =~= images@.subrange(0, old(images)@.len() as int));
        }
        return Ok(*cached);
    }
    let input = match images.get(image) {
        Some(b) => b,
        None => {
            proof {
                assert(old(images)@ =~= images@.subrange(0, old(images)@.len() as int));
            }
            return Err(ImageError::ImageNotFound);
        },
    };
    let ghost v = input@;
    assert(v.wf());
    let rect = crop_rect(input);
    proof {
        lemma_crop_idempotent(v);
    }
    let full_size = Size { width: input.width, height: input.height };
    let cropped = if rect.min_x == 0 && rect.min_y == 0 && rect.max_x == input.width && rect.max_y
        == input.height {
        Cropped { handle: image, rect, full_size }
    } else {
        let sub = input.sub_image(rect);
        let handle = images.add(sub);
        Cropped { handle, rect, full_size }
    };
    proof {
        assert(old(images)@ =~= images@.subrange(0, old(images)@.len() as int));
        assert forall|k: u64| #[trigger] old(cache)@.contains_key(k) implies cropped_for(
            images@,
            k,
            old(cache)@[k],
        ) by {
            lemma_cropped_for_grows(old(images)@, images@, k, old(cache)@[k]);
        }
        assert(images@[image.id as int] == v);
        assert(cropped_for(images@, image.id, cropped));
    }
    cache.entries.insert(image.id, cropped);
    proof {
        assert forall|k: u64| #[trigger] cache@.contains_key(k) implies cropped_for(
            images@,
            k,
            cache@[k],
        ) by {
            if k != image.id {
                assert(old(cache)@.contains_key(k));
            }
        }
    }
    Ok(cropped)
}

/// Where a trimmed layer goes when the whole sprite is drawn as a square of
/// side `2 × radius` centred on the origin, y pointing up: the layer's drawn
/// size and the position of its top-left corner.
#[derive(Clone, Copy, Debug, PartialEq, Eq, Structural)]
pub struct Placement {
    pub width: u64,
    pub height: u64,
    pub x: i64,
    pub y: i64,
}

/// `value` scaled from `full` to `drawn`, rounded down.
pub open spec fn scaled(value: int, drawn: int, full: int) -> int {
    value * drawn / full
}

/// A part scaled down stays within the whole.
proof fn lemma_scaled_bound(v: int, d: int, f: int)
    requires
        0 <= v <= f,
        f > 0,
        d >= 0,
    ensures
        0 <= v * d <= f * d,
        0 <= v * d / f <= d,
{
    assert(0 <= v * d <= f * d) by (nonlinear_arith)
        requires 0 <= v <= f, d >= 0;
    assert(v * d / f <= d) by (nonlinear_arith)
        requires 0 <= v * d <= f * d, f > 0, d >= 0;
    assert(0 <= v * d / f) by (nonlinear_arith)
        requires 0 <= v * d, f > 0;
}

impl Cropped {
    /// The rectangle lies within the full size.
    pub open spec fn wf(self) -> bool {
        self.rect.min_x <= self.rect.max_x <= self.full_size.width && self.rect.min_y
            <= self.rect.max_y <= self.full_size.height
    }
}

/// Places the trimmed layer of a sprite drawn `2 × radius` wide and high: its
/// size and its offset are the crop rectangle's, scaled from the full size to
/// the drawn size, the offset turned from image rows (y down) to a top-left
/// anchor (y up). `None` for a sprite without pixels.
pub fn placement(cropped: &Cropped, radius: u32) -> (r: Option<Placement>)
    requires
        cropped.wf(),
    ensures
        (cropped.full_size.width == 0 || cropped.full_size.height == 0) <==> r is None,
        r matches Some(p) ==> {
            let d = 2 * radius;
            let fw = cropped.full_size.width as int;
            let fh = cropped.full_size.height as int;
            &&& p.width == scaled(cropped.rect.width(), d, fw)
            &&& p.height == scaled(cropped.rect.height(), d, fh)
            &&& p.x == scaled(cropped.rect.min_x as int, d, fw) - radius
            &&& p.y == radius - scaled(cropped.rect.min_y as int, d, fh)
        },
{
    let fw = cropped.full_size.width as u128;
    let fh = cropped.full_size.height as u128;
    if fw == 0 || fh == 0 {
        return None;
    }
    let d = 2 * radius as u128;
    let r = &cropped.rect;
    let (w, h) = ((r.max_x - r.min_x) as u128, (r.max_y - r.min_y) as u128);
    let (x0, y0) = (r.min_x as u128, r.min_y as u128);
    proof {
        lemma_scaled_bound(w as int, d as int, fw as int);
        lemma_scaled_bound(h as int, d as int, fh as int);
        lemma_scaled_bound(x0 as int, d as int, fw as int);
        lemma_scaled_bound(y0 as int, d as int, fh as int);
        assert(fw * d <= 0xffff_ffff * 0x2_0000_0000) by (nonlinear_arith)
            requires fw <= 0xffff_ffff, d <= 0x2_0000_0000;
        assert(fh * d <= 0xffff_ffff * 0x2_0000_0000) by (nonlinear_arith)
            requires fh <= 0xffff_ffff, d <= 0x2_0000_0000;
    }
    let width = w * d / fw;
    let height = h * d / fh;
    let sx = x0 * d / fw;
    let sy = y0 * d / fh;
    Some(
        Placement {
            width: width as u64,
            height: height as u64,
            x: sx as i64 - radius as i64,
            y: radius as i64 - sy as i64,
        },
    )
}

} // verus!
