//! Bitmaps in a closed set of pixel formats, with the one accessor that the
//! crop engine and the shadow baker read: the alpha of a pixel.
use vstd::arithmetic::div_mod::lemma_fundamental_div_mod_converse;
use vstd::prelude::*;

verus! {

/// The pixel formats: grey, grey with alpha, RGB and RGBA, with 8-bit or
/// 16-bit integer channels, and RGB and RGBA with 32-bit float channels.
#[derive(Clone, Copy, Debug, PartialEq, Eq, Structural)]
pub enum Format {
    L8,
    La8,
    Rgb8,
    Rgba8,
    L16,
    La16,
    Rgb16,
    Rgba16,
    Rgb32F,
    Rgba32F,
}

impl Format {
    /// Channels per pixel.
    pub open spec fn channels(self) -> nat {
        match self {
            Format::L8 | Format::L16 => 1,
            Format::La8 | Format::La16 => 2,
            Format::Rgb8 | Format::Rgb16 | Format::Rgb32F => 3,
            Format::Rgba8 | Format::Rgba16 | Format::Rgba32F => 4,
        }
    }

    /// Whether the last channel of a pixel is its alpha.
    pub open spec fn has_alpha(self) -> bool {
        match self {
            Format::La8 | Format::Rgba8 | Format::La16 | Format::Rgba16 | Format::Rgba32F => true,
            _ => false,
        }
    }

    /// Whether the channels are 32-bit floats, held as their bit patterns.
    pub open spec fn is_float(self) -> bool {
        self == Format::Rgb32F || self == Format::Rgba32F
    }

    /// Whether the channels are 16-bit integers.
    pub open spec fn is_wide(self) -> bool {
        match self {
            Format::L16 | Format::La16 | Format::Rgb16 | Format::Rgba16 => true,
            _ => false,
        }
    }

    /// Channels per pixel.
    pub fn channel_count(self) -> (r: usize)
        ensures
            r == self.channels(),
    {
        match self {
            Format::L8 | Format::L16 => 1,
            Format::La8 | Format::La16 => 2,
            Format::Rgb8 | Format::Rgb16 | Format::Rgb32F => 3,
            Format::Rgba8 | Format::Rgba16 | Format::Rgba32F => 4,
        }
    }
}

/// Pixel storage, row-major, channel after channel; float channels are held as
/// their IEEE-754 bit patterns.
#[derive(Debug)]
pub enum Pixels {
    L8(Vec<u8>),
    La8(Vec<u8>),
    Rgb8(Vec<u8>),
    Rgba8(Vec<u8>),
    L16(Vec<u16>),
    La16(Vec<u16>),
    Rgb16(Vec<u16>),
    Rgba16(Vec<u16>),
    Rgb32F(Vec<u32>),
    Rgba32F(Vec<u32>),
}

/// A bitmap: its size and its pixels.
#[derive(Debug)]
pub struct Bitmap {
    pub width: u32,
    pub height: u32,
    pub pixels: Pixels,
}

/// A rectangle of pixels, `min` included and `max` excluded.
#[derive(Clone, Copy, Debug, PartialEq, Eq, Structural)]
pub struct Rect {
    pub min_x: u32,
    pub min_y: u32,
    pub max_x: u32,
    pub max_y: u32,
}

impl Rect {
    pub open spec fn width(self) -> int {
        self.max_x - self.min_x
    }

    pub open spec fn height(self) -> int {
        self.max_y - self.min_y
    }
}

/// What a bitmap is: its size, its format and every channel value, widened to
/// 32 bits.
pub struct BitmapView {
    pub width: u32,
    pub height: u32,
    pub format: Format,
    pub samples: Seq<u32>,
}

/// The samples of a window of a row-major grid: `rows` rows of `cols` values,
/// starting at column `x0` of row `y0`, in a grid whose rows are `stride` long.
pub open spec fn window<T>(data: Seq<T>, stride: int, x0: int, y0: int, cols: int, rows: int) -> Seq<T> {
    Seq::new(
        (cols * rows) as nat,
        |k: int| data[(y0 + k / cols) * stride + x0 + k % cols],
    )
}

/// The 8-bit value of a 16-bit channel: `round(c * 255 / 65535)`.
pub open spec fn narrow(c: u32) -> u8 {
    ((c + 128) / 257) as u8
}

impl BitmapView {
    /// The samples fill the pixels exactly, and a row can be addressed.
    pub open spec fn wf(self) -> bool {
        &&& self.samples.len() == self.width * self.height * self.format.channels()
        &&& self.width * self.format.channels() <= usize::MAX
    }

    /// The index of channel `ch` of pixel `(x, y)`.
    pub open spec fn index(self, x: int, y: int, ch: int) -> int {
        (y * self.width + x) * self.format.channels() + ch
    }

    /// The alpha channel's value at `(x, y)`.
    pub open spec fn alpha_sample(self, x: int, y: int) -> u32 {
        self.samples[self.index(x, y, self.format.channels() - 1)]
    }

    /// Whether pixel `(x, y)` has a non-zero alpha. A format without alpha is
    /// fully opaque; a float alpha is zero when it is `0.0` or `-0.0`.
    pub open spec fn opaque(self, x: int, y: int) -> bool {
        if !self.format.has_alpha() {
            true
        } else if self.format.is_float() {
            self.alpha_sample(x, y) % 0x8000_0000 != 0
        } else {
            self.alpha_sample(x, y) != 0
        }
    }

    /// The alpha of pixel `(x, y)` on the 8-bit scale, for an integer format:
    /// 255 where the format has no alpha.
    pub open spec fn alpha8(self, x: int, y: int) -> u8 {
        if !self.format.has_alpha() {
            255
        } else if self.format.is_wide() {
            narrow(self.alpha_sample(x, y))
        } else {
            self.alpha_sample(x, y) as u8
        }
    }

    /// The rectangle of the whole bitmap.
    pub open spec fn full_rect(self) -> Rect {
        Rect { min_x: 0, min_y: 0, max_x: self.width, max_y: self.height }
    }

    /// Whether `r` lies within the bitmap.
    pub open spec fn contains_rect(self, r: Rect) -> bool {
        r.min_x <= r.max_x <= self.width && r.min_y <= r.max_y <= self.height
    }

    /// The part of the bitmap inside `r`.
    pub open spec fn sub_view(self, r: Rect) -> BitmapView {
        let c = self.format.channels() as int;
        BitmapView {
            width: (r.max_x - r.min_x) as u32,
            height: (r.max_y - r.min_y) as u32,
            format: self.format,
            samples: window(
                self.samples,
                self.width * c,
                r.min_x * c,
                r.min_y as int,
                r.width() * c,
                r.height(),
            ),
        }
    }
}

pub open spec fn widen8(s: Seq<u8>) -> Seq<u32> {
    s.map_values(|v: u8| v as u32)
}

pub open spec fn widen16(s: Seq<u16>) -> Seq<u32> {
    s.map_values(|v: u16| v as u32)
}

impl View for Bitmap {
    type V = BitmapView;

    open spec fn view(&self) -> BitmapView {
        let (format, samples) = match &self.pixels {
            Pixels::L8(v) => (Format::L8, widen8(v@)),
            Pixels::La8(v) => (Format::La8, widen8(v@)),
            Pixels::Rgb8(v) => (Format::Rgb8, widen8(v@)),
            Pixels::Rgba8(v) => (Format::Rgba8, widen8(v@)),
            Pixels::L16(v) => (Format::L16, widen16(v@)),
            Pixels::La16(v) => (Format::La16, widen16(v@)),
            Pixels::Rgb16(v) => (Format::Rgb16, widen16(v@)),
            Pixels::Rgba16(v) => (Format::Rgba16, widen16(v@)),
            Pixels::Rgb32F(v) => (Format::Rgb32F, v@),
            Pixels::Rgba32F(v) => (Format::Rgba32F, v@),
        };
        BitmapView { width: self.width, height: self.height, format, samples }
    }
}

/// An index into a grid of `rows` rows of `stride` values stays inside it.
pub proof fn lemma_grid_index(i: int, j: int, stride: int, rows: int)
    requires
        0 <= i < rows,
        0 <= j < stride,
    ensures
        0 <= i * stride <= i * stride + j < rows * stride,
{
    assert(0 <= i * stride) by (nonlinear_arith)
        requires 0 <= i, 0 <= stride;
    assert(i * stride + j < rows * stride) by (nonlinear_arith)
        requires 0 <= i < rows, 0 <= j < stride;
}

/// The channel index of a pixel stays inside the samples.
pub proof fn lemma_sample_index(v: BitmapView, x: int, y: int, ch: int)
    requires
        v.wf(),
        0 <= x < v.width,
        0 <= y < v.height,
        0 <= ch < v.format.channels(),
    ensures
        0 <= (y * v.width + x) * v.format.channels() <= v.index(x, y, ch) < v.samples.len(),
        0 <= y * v.width + x < v.width * v.height,
{
    let c = v.format.channels() as int;
    lemma_grid_index(y, x, v.width as int, v.height as int);
    lemma_grid_index(y * v.width + x, ch, c, v.width * v.height);
    assert(v.width * v.height * c == (v.width * v.height) * c) by (nonlinear_arith);
    assert(v.height * v.width == v.width * v.height) by (nonlinear_arith);
}

/// Copies `rows` rows of `cols` values, starting at column `x0` of row `y0`,
/// out of a row-major grid whose rows are `stride` long.
pub fn copy_window<T: Copy>(
    data: &Vec<T>,
    stride: usize,
    x0: usize,
    y0: usize,
    cols: usize,
    rows: usize,
) -> (r: Vec<T>)
    requires
        x0 + cols <= stride,
        y0 + rows <= usize::MAX,
        (y0 + rows) * stride <= data@.len(),
    ensures
        r@ == window(data@, stride as int, x0 as int, y0 as int, cols as int, rows as int),
{
    let n = data.len();
    let mut out: Vec<T> = Vec::new();
    let mut i: usize = 0;
    proof {
        assert(0 <= y0 * stride) by (nonlinear_arith)
            requires 0 <= y0, 0 <= stride;
    }
    while i < rows
        invariant
            0 <= i <= rows,
            y0 + rows <= usize::MAX,
            n == data@.len(),
            x0 + cols <= stride,
            (y0 + rows) * stride <= data@.len(),
            out@ =~= window(data@, stride as int, x0 as int, y0 as int, cols as int, i as int),
        decreases rows - i,
    {
        proof {
            assert(0 <= (y0 + i) * stride + x0 + cols <= (y0 + rows) * stride) by (nonlinear_arith)
                requires i < rows, x0 + cols <= stride, 0 <= x0;
            assert((y0 + i) * stride <= n);
        }
        let row = y0 + i;
        let base = row * stride + x0;
        let mut j: usize = 0;
        while j < cols
            invariant
                0 <= i < rows,
                0 <= j <= cols,
                n == data@.len(),
                x0 + cols <= stride,
                (y0 + rows) * stride <= data@.len(),
                base == (y0 + i) * stride + x0,
                base + cols <= data@.len(),
                out@ =~= Seq::new(
                    (i * cols + j) as nat,
                    |k: int| data@[(y0 + k / cols as int) * stride + x0 + k % cols as int],
                ),
            decreases cols - j,
        {
            proof {
                assert(i * cols + j < (i + 1) * cols) by (nonlinear_arith)
                    requires j < cols;
            }
            out.push(data[base + j]);
            proof {
                lemma_fundamental_div_mod_converse((i * cols + j) as int, cols as int, i as int, j as int);
                assert(out@ =~= Seq::new(
                    (i * cols + j + 1) as nat,
                    |k: int| data@[(y0 + k / cols as int) * stride + x0 + k % cols as int],
                ));
            }
            j = j + 1;
        }
        proof {
            assert((i * cols + cols) == (i + 1) * cols) by (nonlinear_arith);
        }
        i = i + 1;
    }
    proof {
        assert(i == rows);
    }
    out
}

/// The window of a mapped grid is the mapped window.
pub proof fn lemma_window_map<A, B>(
    data: Seq<A>,
    f: spec_fn(A) -> B,
    stride: int,
    x0: int,
    y0: int,
    cols: int,
    rows: int,
)
    requires
        0 <= x0,
        0 <= y0,
        0 <= cols,
        0 <= rows,
        x0 + cols <= stride,
        (y0 + rows) * stride <= data.len(),
    ensures
        window(data, stride, x0, y0, cols, rows).map_values(f) =~= window(
            data.map_values(f),
            stride,
            x0,
            y0,
            cols,
            rows,
        ),
{
    assert forall|k: int| 0 <= k < cols * rows implies 0 <= #[trigger] ((y0 + k / cols) * stride + x0
        + k % cols) < data.len() by {
        lemma_window_index(stride, x0, y0, cols, rows, k);
    }
}

/// Each index of a window falls inside the grid.
pub proof fn lemma_window_index(stride: int, x0: int, y0: int, cols: int, rows: int, k: int)
    requires
        0 <= x0,
        0 <= y0,
        0 <= cols,
        0 <= rows,
        x0 + cols <= stride,
        0 <= k < cols * rows,
    ensures
        0 <= k / cols < rows,
        0 <= k % cols < cols,
        0 <= (y0 + k / cols) * stride + x0 + k % cols < (y0 + rows) * stride,
{
    assert(cols > 0) by (nonlinear_arith)
        requires 0 <= k < cols * rows, 0 <= cols;
    vstd::arithmetic::div_mod::lemma_fundamental_div_mod(k, cols);
    vstd::arithmetic::div_mod::lemma_mod_bound(k, cols);
    vstd::arithmetic::div_mod::lemma_div_pos_is_pos(k, cols);
    let q = k / cols;
    let m = k % cols;
    assert(q < rows) by (nonlinear_arith)
        requires k == cols * q + m, 0 <= m, k < cols * rows, cols > 0;
    lemma_grid_index(y0 + q, x0 + m, stride, y0 + rows);
}

impl Bitmap {
    /// The pixel format.
    pub fn format(&self) -> (r: Format)
        ensures
            r == self@.format,
    {
        match &self.pixels {
            Pixels::L8(_) => Format::L8,
            Pixels::La8(_) => Format::La8,
            Pixels::Rgb8(_) => Format::Rgb8,
            Pixels::Rgba8(_) => Format::Rgba8,
            Pixels::L16(_) => Format::L16,
            Pixels::La16(_) => Format::La16,
            Pixels::Rgb16(_) => Format::Rgb16,
            Pixels::Rgba16(_) => Format::Rgba16,
            Pixels::Rgb32F(_) => Format::Rgb32F,
            Pixels::Rgba32F(_) => Format::Rgba32F,
        }
    }

    /// The number of channel values held.
    pub fn sample_count(&self) -> (r: usize)
        ensures
            r == self@.samples.len(),
    {
        match &self.pixels {
            Pixels::L8(v) | Pixels::La8(v) | Pixels::Rgb8(v) | Pixels::Rgba8(v) => v.len(),
            Pixels::L16(v) | Pixels::La16(v) | Pixels::Rgb16(v) | Pixels::Rgba16(v) => v.len(),
            Pixels::Rgb32F(v) | Pixels::Rgba32F(v) => v.len(),
        }
    }

    /// Whether the pixels fill the bitmap's size exactly.
    pub fn is_well_formed(&self) -> (r: bool)
        ensures
            r == self@.wf(),
    {
        let c = self.format().channel_count() as u128;
        let w = self.width as u128;
        let h = self.height as u128;
        let n = self.sample_count() as u128;
        assert(w * h * c <= 0xffff_ffff * 0xffff_ffff * 4) by (nonlinear_arith)
            requires w <= 0xffff_ffff, h <= 0xffff_ffff, c <= 4;
        assert(w * c <= 0xffff_ffff * 4) by (nonlinear_arith)
            requires w <= 0xffff_ffff, c <= 4;
        n == w * h * c && w * c <= usize::MAX as u128
    }

    /// The index of the last channel of pixel `(x, y)`.
    fn last_channel_index(&self, x: u32, y: u32) -> (r: usize)
        requires
            self@.wf(),
            x < self.width,
            y < self.height,
        ensures
            r == self@.index(x as int, y as int, self@.format.channels() - 1),
            r < self@.samples.len(),
    {
        let c = self.format().channel_count();
        let n = self.sample_count();
        proof {
            lemma_sample_index(self@, x as int, y as int, c - 1);
            let p = y * self.width + x;
            assert(0 <= y * self.width <= p <= p * c) by (nonlinear_arith)
                requires p == y * self.width + x, c >= 1, x >= 0, y >= 0, self.width >= 0;
        }
        let p = y as usize * self.width as usize + x as usize;
        p * c + (c - 1)
    }

    /// Whether pixel `(x, y)` has a non-zero alpha; a format without alpha is
    /// fully opaque.
    pub fn alpha_is_non_zero(&self, x: u32, y: u32) -> (r: bool)
        requires
            self@.wf(),
            x < self.width,
            y < self.height,
        ensures
            r == self@.opaque(x as int, y as int),
    {
        let i = self.last_channel_index(x, y);
        match &self.pixels {
            Pixels::La8(v) | Pixels::Rgba8(v) => v[i] != 0,
            Pixels::La16(v) | Pixels::Rgba16(v) => v[i] != 0,
            Pixels::Rgba32F(v) => v[i] % 0x8000_0000 != 0,
            _ => true,
        }
    }

    /// The alpha of pixel `(x, y)` on the 8-bit scale, for an integer format.
    pub fn alpha8(&self, x: u32, y: u32) -> (r: u8)
        requires
            self@.wf(),
            !self@.format.is_float(),
            x < self.width,
            y < self.height,
        ensures
            r == self@.alpha8(x as int, y as int),
    {
        let i = self.last_channel_index(x, y);
        match &self.pixels {
            Pixels::La8(v) | Pixels::Rgba8(v) => v[i],
            Pixels::La16(v) | Pixels::Rgba16(v) => ((v[i] as u32 + 128) / 257) as u8,
            _ => 255,
        }
    }

    /// The part of the bitmap inside `r`, as a bitmap of its own.
    pub fn sub_image(&self, r: Rect) -> (s: Bitmap)
        requires
            self@.wf(),
            self@.contains_rect(r),
        ensures
            s@ == self@.sub_view(r),
            s@.wf(),
    {
        let c = self.format().channel_count();
        proof {
            assert(r.min_x * c <= self.width * c && (r.max_x - r.min_x) * c <= self.width * c) by (nonlinear_arith)
                requires r.min_x <= r.max_x <= self.width, c >= 0;
        }
        let stride = self.width as usize * c;
        let x0 = r.min_x as usize * c;
        let y0 = r.min_y as usize;
        let cols = (r.max_x - r.min_x) as usize * c;
        let rows = (r.max_y - r.min_y) as usize;
        let ghost v = self@;
        proof {
            assert(x0 + cols <= stride) by (nonlinear_arith)
                requires x0 == r.min_x * c, cols == (r.max_x - r.min_x) * c, stride == self.width * c,
                    r.max_x <= self.width, c >= 0;
            assert((y0 + rows) * stride <= v.samples.len()) by (nonlinear_arith)
                requires y0 + rows <= self.height, stride == self.width * c,
                    v.samples.len() == self.width * self.height * c, stride >= 0;
            assert(v.sub_view(r).samples.len() == (r.max_x - r.min_x) * (r.max_y - r.min_y) * c) by (nonlinear_arith)
                requires v.sub_view(r).samples.len() == cols * rows, cols == (r.max_x - r.min_x) * c,
                    rows == r.max_y - r.min_y;
        }
        let pixels = match &self.pixels {
            Pixels::L8(d) => Pixels::L8(copy_window(d, stride, x0, y0, cols, rows)),
            Pixels::La8(d) => Pixels::La8(copy_window(d, stride, x0, y0, cols, rows)),
            Pixels::Rgb8(d) => Pixels::Rgb8(copy_window(d, stride, x0, y0, cols, rows)),
            Pixels::Rgba8(d) => Pixels::Rgba8(copy_window(d, stride, x0, y0, cols, rows)),
            Pixels::L16(d) => Pixels::L16(copy_window(d, stride, x0, y0, cols, rows)),
            Pixels::La16(d) => Pixels::La16(copy_window(d, stride, x0, y0, cols, rows)),
            Pixels::Rgb16(d) => Pixels::Rgb16(copy_window(d, stride, x0, y0, cols, rows)),
            Pixels::Rgba16(d) => Pixels::Rgba16(copy_window(d, stride, x0, y0, cols, rows)),
            Pixels::Rgb32F(d) => Pixels::Rgb32F(copy_window(d, stride, x0, y0, cols, rows)),
            Pixels::Rgba32F(d) => Pixels::Rgba32F(copy_window(d, stride, x0, y0, cols, rows)),
        };
        let s = Bitmap { width: r.max_x - r.min_x, height: r.max_y - r.min_y, pixels };
        proof {
            match &self.pixels {
                Pixels::L8(d) | Pixels::La8(d) | Pixels::Rgb8(d) | Pixels::Rgba8(d) => {
                    lemma_window_map(d@, |v: u8| v as u32, stride as int, x0 as int, y0 as int, cols as int, rows as int);
                },
                Pixels::L16(d) | Pixels::La16(d) | Pixels::Rgb16(d) | Pixels::Rgba16(d) => {
                    lemma_window_map(d@, |v: u16| v as u32, stride as int, x0 as int, y0 as int, cols as int, rows as int);
                },
                _ => {},
            }
            assert(s@.samples =~= v.sub_view(r).samples);
        }
        s
    }
}

} // verus!
