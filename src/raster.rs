//! A decoded image as a dense RGBA8 grid, and the exact pixel operations on it.
//!
//! Pixels are stored row by row, four bytes each (red, green, blue, alpha):
//! channel `c` of the pixel at column `x` and row `y` sits at byte
//! `4 * (y * width + x) + c`.
use vstd::prelude::*;
use vstd::arithmetic::div_mod::lemma_fundamental_div_mod_converse;
use crate::types::{Error, FlipMode, Rgb};

verus! {

/// The mathematical value of a [`Raster`].
pub struct Picture {
    pub width: u32,
    pub height: u32,
    pub pixels: Seq<u8>,
}

impl Picture {
    /// The byte count matches the dimensions.
    pub open spec fn wf(self) -> bool {
        self.pixels.len() == 4 * (self.width * self.height)
    }

    /// Every pixel has full alpha.
    pub open spec fn opaque(self) -> bool {
        forall|i: int| 0 <= i < self.pixels.len() && i % 4 == 3 ==> self.pixels[i] == 255
    }
}

/// A decoded image: width, height and RGBA8 bytes.
pub struct Raster {
    pub width: u32,
    pub height: u32,
    pub pixels: Vec<u8>,
}

impl View for Raster {
    type V = Picture;

    open spec fn view(&self) -> Picture {
        Picture { width: self.width, height: self.height, pixels: self.pixels@ }
    }
}

impl Raster {
    pub open spec fn wf(&self) -> bool {
        self@.wf()
    }

    /// A fully transparent raster of the given size.
    pub fn blank(width: u32, height: u32) -> (r: Option<Raster>)
        ensures
            r is Some <==> 4 * (width * height) <= usize::MAX,
            r matches Some(v) ==> v@ == blank_picture(width, height),
    {
        proof {
            lemma_area_fits(width, height);
        }
        let area = (width as u64) * (height as u64);
        if area <= (usize::MAX / 4) as u64 {
            let n: usize = 4 * (area as usize);
            let mut pixels: Vec<u8> = Vec::with_capacity(n);
            let mut i: usize = 0;
            while i < n
                invariant
                    i <= n,
                    pixels@.len() == i,
                    forall|j: int| 0 <= j < i ==> pixels@[j] == 0,
                decreases n - i,
            {
                pixels.push(0);
                i += 1;
            }
            proof {
                assert(pixels@ =~= blank_picture(width, height).pixels);
            }
            Some(Raster { width, height, pixels })
        } else {
            None
        }
    }
}

/// A fully transparent picture.
pub open spec fn blank_picture(width: u32, height: u32) -> Picture {
    Picture { width, height, pixels: Seq::new((4 * (width * height)) as nat, |i: int| 0u8) }
}

/// The area of a `u32` by `u32` grid fits in a `u64`.
pub proof fn lemma_area_fits(w: u32, h: u32)
    ensures
        w * h <= 0xffff_fffe_0000_0001,
{
    assert(w * h <= 0xffff_ffff * 0xffff_ffff) by (nonlinear_arith)
        requires w <= 0xffff_ffff, h <= 0xffff_ffff;
}

/// The cell `(x, y)` of a `w`-wide grid lies before the end of a `w * h` grid.
pub proof fn lemma_cell_in_grid(w: int, h: int, x: int, y: int)
    requires
        0 <= x < w,
        0 <= y < h,
    ensures
        0 <= y * w + x < w * h,
        4 * (y * w + x) + 3 < 4 * (w * h),
{
    assert(0 <= y * w + x < w * h) by (nonlinear_arith)
        requires 0 <= x < w, 0 <= y < h;
}

/// Column and row of cell `k` of a `w`-wide grid of `w * h` cells.
pub proof fn lemma_cell_coords(w: int, h: int, k: int)
    requires
        0 <= k < w * h,
        0 <= w,
        0 <= h,
    ensures
        w > 0,
        0 <= k % w < w,
        0 <= k / w < h,
        k == (k / w) * w + k % w,
{
    assert(w > 0) by (nonlinear_arith)
        requires 0 <= k < w * h, 0 <= w, 0 <= h;
    assert(0 <= k / w < h) by (nonlinear_arith)
        requires 0 <= k < w * h, w > 0;
    assert(k == (k / w) * w + k % w) by (nonlinear_arith)
        requires w > 0;
}

/// Splitting the byte index of cell `(x, y)` gives back `x`, `y` and the channel.
pub proof fn lemma_byte_coords(w: int, x: int, y: int, c: int)
    requires
        0 <= x < w,
        0 <= y,
        0 <= c < 4,
    ensures
        (4 * (y * w + x) + c) / 4 == y * w + x,
        (4 * (y * w + x) + c) % 4 == c,
        (y * w + x) % w == x,
        (y * w + x) / w == y,
{
    assert(0 <= y * w) by (nonlinear_arith)
        requires 0 <= y, 0 <= x < w;
    lemma_fundamental_div_mod_converse(4 * (y * w + x) + c, 4, y * w + x, c);
    lemma_fundamental_div_mod_converse(y * w + x, w, y, x);
}

// ---------------------------------------------------------------- flip

/// Byte of the source that lands at byte `i` of a flipped `w` by `h` picture.
pub open spec fn flip_source(w: int, h: int, mode: FlipMode, i: int) -> int {
    let k = i / 4;
    let x = k % w;
    let y = k / w;
    match mode {
        FlipMode::Horizontal => 4 * (y * w + (w - 1 - x)) + i % 4,
        FlipMode::Vertical => 4 * ((h - 1 - y) * w + x) + i % 4,
    }
}

/// The picture mirrored about the given axis.
pub open spec fn flip_picture(p: Picture, mode: FlipMode) -> Picture {
    Picture {
        width: p.width,
        height: p.height,
        pixels: Seq::new(
            p.pixels.len(),
            |i: int| p.pixels[flip_source(p.width as int, p.height as int, mode, i)],
        ),
    }
}

proof fn lemma_flip_source(w: int, h: int, mode: FlipMode, i: int)
    requires
        0 <= w,
        0 <= h,
        0 <= i < 4 * (w * h),
    ensures
        0 <= flip_source(w, h, mode, i) < 4 * (w * h),
        flip_source(w, h, mode, flip_source(w, h, mode, i)) == i,
{
    let k = i / 4;
    let c = i % 4;
    assert(0 <= k < w * h);
    lemma_cell_coords(w, h, k);
    let x = k % w;
    let y = k / w;
    let (x2, y2) = match mode {
        FlipMode::Horizontal => (w - 1 - x, y),
        FlipMode::Vertical => (x, h - 1 - y),
    };
    lemma_cell_in_grid(w, h, x2, y2);
    lemma_byte_coords(w, x2, y2, c);
    assert(flip_source(w, h, mode, i) == 4 * (y2 * w + x2) + c);
    assert(i == 4 * (y * w + x) + c);
}

/// Mirrors a raster about the given axis.
pub fn flip_raster(r: &Raster, mode: FlipMode) -> (out: Raster)
    requires
        r.wf(),
    ensures
        out@ == flip_picture(r@, mode),
        out.wf(),
{
    let n = r.pixels.len();
    let w = r.width as usize;
    let h = r.height as usize;
    let mut pixels: Vec<u8> = Vec::with_capacity(n);
    let mut i: usize = 0;
    while i < n
        invariant
            n == r.pixels@.len(),
            n == 4 * (w * h),
            w == r.width,
            h == r.height,
            i <= n,
            pixels@.len() == i,
            forall|j: int|
                0 <= j < i ==> pixels@[j] == r.pixels@[flip_source(w as int, h as int, mode, j)],
        decreases n - i,
    {
        proof {
            lemma_flip_source(w as int, h as int, mode, i as int);
            lemma_cell_coords(w as int, h as int, i as int / 4);
        }
        let k = i / 4;
        let x = k % w;
        let y = k / w;
        let src = match mode {
            FlipMode::Horizontal => 4 * (y * w + (w - 1 - x)) + i % 4,
            FlipMode::Vertical => 4 * ((h - 1 - y) * w + x) + i % 4,
        };
        pixels.push(r.pixels[src]);
        i += 1;
    }
    let out = Raster { width: r.width, height: r.height, pixels };
    proof {
        assert(out@.pixels =~= flip_picture(r@, mode).pixels);
    }
    out
}

/// Flipping twice about the same axis gives back the picture unchanged.
pub proof fn lemma_flip_twice(p: Picture, mode: FlipMode)
    requires
        p.wf(),
    ensures
        flip_picture(flip_picture(p, mode), mode) == p,
{
    let w = p.width as int;
    let h = p.height as int;
    let q = flip_picture(flip_picture(p, mode), mode);
    assert forall|i: int| 0 <= i < p.pixels.len() implies q.pixels[i] == p.pixels[i] by {
        lemma_flip_source(w, h, mode, i);
    }
    assert(q.pixels =~= p.pixels);
}

} // verus!

verus! {

// ---------------------------------------------------------------- crop

/// The rectangle lies inside the picture.
pub open spec fn crop_fits(p: Picture, left: u32, top: u32, width: u32, height: u32) -> bool {
    left + width <= p.width && top + height <= p.height
}

/// The `width` by `height` sub-rectangle whose top-left pixel is `(left, top)`.
pub open spec fn crop_picture(p: Picture, left: u32, top: u32, width: u32, height: u32) -> Picture {
    Picture {
        width,
        height,
        pixels: Seq::new(
            (4 * (width * height)) as nat,
            |i: int|
                p.pixels[4 * ((top + (i / 4) / (width as int)) * p.width + left + (i / 4) % (
                width as int)) + i % 4],
        ),
    }
}

/// Cuts a sub-rectangle out of a raster, without resampling.
pub fn crop_raster(r: &Raster, left: u32, top: u32, width: u32, height: u32) -> (out: Result<
    Raster,
    Error,
>)
    requires
        r.wf(),
    ensures
        out is Err <==> !crop_fits(r@, left, top, width, height),
        out matches Err(e) ==> e == Error::Bounds,
        out matches Ok(v) ==> v@ == crop_picture(r@, left, top, width, height) && v.wf(),
{
    if left as u64 + width as u64 > r.width as u64 || top as u64 + height as u64 > r.height as u64 {
        return Err(Error::Bounds);
    }
    let len = r.pixels.len();
    let w = r.width as usize;
    let h = r.height as usize;
    proof {
        assert(width * height <= w * h) by (nonlinear_arith)
            requires width <= w, height <= h;
    }
    let cw = width as usize;
    let n = 4 * (cw * height as usize);
    let mut pixels: Vec<u8> = Vec::with_capacity(n);
    let mut i: usize = 0;
    while i < n
        invariant
            r.pixels@.len() == 4 * (w * h),
            len == r.pixels@.len(),
            w == r.width,
            h == r.height,
            cw == width,
            n == 4 * (width * height),
            left + width <= w,
            top + height <= h,
            i <= n,
            pixels@.len() == i,
            forall|j: int|
                0 <= j < i ==> pixels@[j] == crop_picture(r@, left, top, width, height).pixels[j],
        decreases n - i,
    {
        proof {
            lemma_cell_coords(width as int, height as int, i as int / 4);
            lemma_cell_in_grid(
                w as int,
                h as int,
                left + (i as int / 4) % (cw as int),
                top + (i as int / 4) / (cw as int),
            );
        }
        let k = i / 4;
        let src = 4 * ((top as usize + k / cw) * w + left as usize + k % cw) + i % 4;
        pixels.push(r.pixels[src]);
        i += 1;
    }
    let out = Raster { width, height, pixels };
    proof {
        assert(out@.pixels =~= crop_picture(r@, left, top, width, height).pixels);
    }
    Ok(out)
}

// ---------------------------------------------------------------- per-pixel maps

/// Index of the first byte of the pixel that holds byte `i`.
pub open spec fn pixel_base(i: int) -> int {
    i - i % 4
}

/// Each colour channel replaced by its complement; alpha kept.
pub open spec fn invert_picture(p: Picture) -> Picture {
    Picture {
        width: p.width,
        height: p.height,
        pixels: Seq::new(
            p.pixels.len(),
            |i: int|
                if i % 4 == 3 {
                    p.pixels[i]
                } else {
                    (255 - p.pixels[i]) as u8
                },
        ),
    }
}

/// Complements red, green and blue of every pixel.
pub fn invert_raster(r: &Raster) -> (out: Raster)
    requires
        r.wf(),
    ensures
        out@ == invert_picture(r@),
        out.wf(),
{
    let n = r.pixels.len();
    let mut pixels: Vec<u8> = Vec::with_capacity(n);
    let mut i: usize = 0;
    while i < n
        invariant
            n == r.pixels@.len(),
            i <= n,
            pixels@.len() == i,
            forall|j: int| 0 <= j < i ==> pixels@[j] == invert_picture(r@).pixels[j],
        decreases n - i,
    {
        let v = r.pixels[i];
        if i % 4 == 3 {
            pixels.push(v);
        } else {
            pixels.push(255 - v);
        }
        i += 1;
    }
    let out = Raster { width: r.width, height: r.height, pixels };
    proof {
        assert(out@.pixels =~= invert_picture(r@).pixels);
    }
    out
}

/// Luma of a colour: the sRGB weights 0.2126, 0.7152 and 0.0722, rounded down.
pub open spec fn luma(r: u8, g: u8, b: u8) -> u8 {
    ((2126 * r + 7152 * g + 722 * b) / 10000) as u8
}

/// Every pixel replaced by its luma in red, green and blue; alpha kept.
pub open spec fn grayscale_picture(p: Picture) -> Picture {
    Picture {
        width: p.width,
        height: p.height,
        pixels: Seq::new(
            p.pixels.len(),
            |i: int|
                if i % 4 == 3 {
                    p.pixels[i]
                } else {
                    luma(
                        p.pixels[pixel_base(i)],
                        p.pixels[pixel_base(i) + 1],
                        p.pixels[pixel_base(i) + 2],
                    )
                },
        ),
    }
}

/// Converts every pixel to gray, keeping alpha.
pub fn grayscale_raster(r: &Raster) -> (out: Raster)
    requires
        r.wf(),
    ensures
        out@ == grayscale_picture(r@),
        out.wf(),
{
    let n = r.pixels.len();
    let mut pixels: Vec<u8> = Vec::with_capacity(n);
    let mut i: usize = 0;
    while i < n
        invariant
            n == r.pixels@.len(),
            n % 4 == 0,
            i <= n,
            pixels@.len() == i,
            forall|j: int| 0 <= j < i ==> pixels@[j] == grayscale_picture(r@).pixels[j],
        decreases n - i,
    {
        let v = r.pixels[i];
        if i % 4 == 3 {
            pixels.push(v);
        } else {
            let base = i - i % 4;
            let l = crate::codec::to_luma(r.pixels[base], r.pixels[base + 1], r.pixels[base + 2]);
            pixels.push(l);
        }
        i += 1;
    }
    let out = Raster { width: r.width, height: r.height, pixels };
    proof {
        assert(out@.pixels =~= grayscale_picture(r@).pixels);
    }
    out
}

/// Gray is a fixed point of the luma: converting a gray picture again changes nothing.
pub proof fn lemma_grayscale_idempotent(p: Picture)
    requires
        p.wf(),
    ensures
        grayscale_picture(grayscale_picture(p)) == grayscale_picture(p),
{
    let g = grayscale_picture(p);
    let q = grayscale_picture(g);
    assert forall|i: int| 0 <= i < g.pixels.len() implies q.pixels[i] == g.pixels[i] by {
        if i % 4 != 3 {
            let b = pixel_base(i);
            assert(b % 4 == 0 && (b + 1) % 4 == 1 && (b + 2) % 4 == 2);
            assert(pixel_base(b) == b && pixel_base(b + 1) == b && pixel_base(b + 2) == b);
            let v = g.pixels[b];
            assert(g.pixels[b + 1] == v && g.pixels[b + 2] == v);
            assert(luma(v, v, v) == v);
        }
    }
    assert(q.pixels =~= g.pixels);
}

/// A tint channel blended at half the pixel's alpha:
/// `round(t * a / 510 + s * (1 - a / 510))`, halves rounded up.
pub open spec fn tint_channel(t: u8, s: u8, a: u8) -> u8 {
    ((2 * (t * a + s * (510 - a)) + 510) / 1020) as u8
}

/// Every pixel tinted with `rgb` at half its alpha; alpha kept.
pub open spec fn color_mask_picture(p: Picture, rgb: Rgb) -> Picture {
    Picture {
        width: p.width,
        height: p.height,
        pixels: Seq::new(
            p.pixels.len(),
            |i: int|
                if i % 4 == 3 {
                    p.pixels[i]
                } else {
                    tint_channel(rgb.0[i % 4], p.pixels[i], p.pixels[pixel_base(i) + 3])
                },
        ),
    }
}

fn tint(t: u8, s: u8, a: u8) -> (r: u8)
    ensures
        r == tint_channel(t, s, a),
{
    let (t, s, a) = (t as u32, s as u32, a as u32);
    proof {
        assert(t * a + s * (510 - a) <= 255 * 510) by (nonlinear_arith)
            requires t <= 255, s <= 255, a <= 255;
    }
    ((2 * (t * a + s * (510 - a)) + 510) / 1020) as u8
}

/// Blends a flat tint into every pixel at half the pixel's alpha.
pub fn color_mask_raster(r: &Raster, rgb: Rgb) -> (out: Raster)
    requires
        r.wf(),
    ensures
        out@ == color_mask_picture(r@, rgb),
        out.wf(),
{
    let n = r.pixels.len();
    let mut pixels: Vec<u8> = Vec::with_capacity(n);
    let mut i: usize = 0;
    while i < n
        invariant
            n == r.pixels@.len(),
            n % 4 == 0,
            i <= n,
            pixels@.len() == i,
            forall|j: int| 0 <= j < i ==> pixels@[j] == color_mask_picture(r@, rgb).pixels[j],
        decreases n - i,
    {
        let v = r.pixels[i];
        let c = i % 4;
        if c == 3 {
            pixels.push(v);
        } else {
            let a = r.pixels[i - c + 3];
            pixels.push(tint(rgb.0[c], v, a));
        }
        i += 1;
    }
    let out = Raster { width: r.width, height: r.height, pixels };
    proof {
        assert(out@.pixels =~= color_mask_picture(r@, rgb).pixels);
    }
    out
}

} // verus!

verus! {

// ---------------------------------------------------------------- mirage

/// Luminance scaled by 1000: `1000 * (0.299 r + 0.587 g + 0.114 b)`.
pub open spec fn weighted_luminance(r: u8, g: u8, b: u8) -> int {
    299 * r + 587 * g + 114 * b
}

/// The composite alpha scaled by 2000, that is
/// `2000 * clamp(255 - wc + bc, 0, 255)` with `wc = lw / 1000` the visible
/// luminance and `bc = lh / 2000` the hidden luminance at half light.
pub open spec fn mirage_alpha_scaled(lw: int, lh: int) -> int {
    let v = 510000 - 2 * lw + lh;
    if v < 0 {
        0
    } else if v > 510000 {
        510000
    } else {
        v
    }
}

/// The composite alpha `clamp(255 - wc + bc, 0, 255)`, rounded to nearest.
pub open spec fn mirage_alpha(lw: int, lh: int) -> u8 {
    ((mirage_alpha_scaled(lw, lh) + 1000) / 2000) as u8
}

/// The composite gray `min(255, bc / a * 255)`, rounded to nearest, or 0 where
/// the alpha `a` is 0.
pub open spec fn mirage_gray(lw: int, lh: int) -> u8 {
    let a = mirage_alpha_scaled(lw, lh);
    if a > 0 {
        let g = (510 * lh + a) / (2 * a);
        if g > 255 {
            255
        } else {
            g as u8
        }
    } else {
        0
    }
}

/// Luminance of the pixel holding byte `i`.
pub open spec fn luminance_at(p: Seq<u8>, i: int) -> int {
    weighted_luminance(p[pixel_base(i)], p[pixel_base(i) + 1], p[pixel_base(i) + 2])
}

/// The mirage composite of two pictures of the same size: a gray pixel
/// `(g, g, g, a)` at each position, from the visible and the hidden luminance.
pub open spec fn mirage_picture(visible: Picture, hidden: Picture) -> Picture {
    Picture {
        width: visible.width,
        height: visible.height,
        pixels: Seq::new(
            visible.pixels.len(),
            |i: int|
                if i % 4 == 3 {
                    mirage_alpha(luminance_at(visible.pixels, i), luminance_at(hidden.pixels, i))
                } else {
                    mirage_gray(luminance_at(visible.pixels, i), luminance_at(hidden.pixels, i))
                },
        ),
    }
}

fn luminance(p: &Vec<u8>, base: usize) -> (l: u64)
    requires
        base + 2 < p@.len(),
    ensures
        l == weighted_luminance(p@[base as int], p@[base + 1], p@[base + 2]),
        l <= 255000,
{
    let _len = p.len();
    299 * (p[base] as u64) + 587 * (p[base + 1] as u64) + 114 * (p[base + 2] as u64)
}

fn mirage_pixel(lw: u64, lh: u64) -> (r: (u8, u8))
    requires
        lw <= 255000,
        lh <= 255000,
    ensures
        r.0 == mirage_gray(lw as int, lh as int),
        r.1 == mirage_alpha(lw as int, lh as int),
{
    let v: u64 = 510000 + lh;
    let a: u64 = if v < 2 * lw {
        0
    } else if v - 2 * lw > 510000 {
        510000
    } else {
        v - 2 * lw
    };
    let alpha = ((a + 1000) / 2000) as u8;
    let gray = if a > 0 {
        let g = (510 * lh + a) / (2 * a);
        if g > 255 {
            255u8
        } else {
            g as u8
        }
    } else {
        0u8
    };
    (gray, alpha)
}

/// Combines a visible and a hidden raster of the same size into the mirage
/// composite.
pub fn mirage_raster(visible: &Raster, hidden: &Raster) -> (out: Raster)
    requires
        visible.wf(),
        hidden.wf(),
        visible.width == hidden.width,
        visible.height == hidden.height,
    ensures
        out@ == mirage_picture(visible@, hidden@),
        out.wf(),
{
    let n = visible.pixels.len();
    let mut pixels: Vec<u8> = Vec::with_capacity(n);
    let mut i: usize = 0;
    while i < n
        invariant
            n == visible.pixels@.len(),
            n == hidden.pixels@.len(),
            n % 4 == 0,
            i <= n,
            pixels@.len() == i,
            forall|j: int|
                0 <= j < i ==> pixels@[j] == mirage_picture(visible@, hidden@).pixels[j],
        decreases n - i,
    {
        let base = i - i % 4;
        let lw = luminance(&visible.pixels, base);
        let lh = luminance(&hidden.pixels, base);
        let (gray, alpha) = mirage_pixel(lw, lh);
        if i % 4 == 3 {
            pixels.push(alpha);
        } else {
            pixels.push(gray);
        }
        i += 1;
    }
    let out = Raster { width: visible.width, height: visible.height, pixels };
    proof {
        assert(out@.pixels =~= mirage_picture(visible@, hidden@).pixels);
    }
    out
}

/// The composite is a function of its two inputs: equal inputs give equal
/// composites, whatever run computes them.
pub proof fn lemma_mirage_deterministic(v1: Picture, h1: Picture, v2: Picture, h2: Picture)
    requires
        v1 == v2,
        h1 == h2,
    ensures
        mirage_picture(v1, h1) == mirage_picture(v2, h2),
{
}

} // verus!
