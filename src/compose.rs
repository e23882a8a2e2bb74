//! Spatial merge of several rasters into one.
use vstd::prelude::*;
use crate::codec::{overlaid_of, overlay, resize_exact, resized_of};
use crate::raster::{Picture, Raster, blank_picture, lemma_area_fits};
use crate::types::{Error, Filter, MergeMode};

verus! {

/// The smallest height among the pictures; 0 for none.
pub open spec fn min_height(s: Seq<Picture>) -> u32
    decreases s.len(),
{
    if s.len() == 0 {
        0
    } else if s.len() == 1 {
        s[0].height
    } else {
        let m = min_height(s.drop_last());
        if s.last().height < m {
            s.last().height
        } else {
            m
        }
    }
}

/// The largest width among the pictures; 0 for none.
pub open spec fn max_width(s: Seq<Picture>) -> u32
    decreases s.len(),
{
    if s.len() == 0 {
        0
    } else {
        let m = max_width(s.drop_last());
        if s.last().width > m {
            s.last().width
        } else {
            m
        }
    }
}

/// Width of `p` scaled so that its height becomes `h`, keeping the aspect
/// ratio, rounded down; 0 for a picture without rows.
pub open spec fn scaled_width(p: Picture, h: u32) -> int {
    if p.height == 0 {
        0
    } else {
        p.width * h / p.height as int
    }
}

/// Sum of the scaled widths.
pub open spec fn sum_scaled_widths(s: Seq<Picture>, h: u32) -> int
    decreases s.len(),
{
    if s.len() == 0 {
        0
    } else {
        sum_scaled_widths(s.drop_last(), h) + scaled_width(s.last(), h)
    }
}

/// Sum of the heights.
pub open spec fn sum_heights(s: Seq<Picture>) -> int
    decreases s.len(),
{
    if s.len() == 0 {
        0
    } else {
        sum_heights(s.drop_last()) + s.last().height
    }
}

/// The side-by-side canvas after the first `n` pictures were scaled to the
/// smallest height and laid down left to right.
pub open spec fn row_after(s: Seq<Picture>, n: int) -> Picture
    decreases n,
{
    let h = min_height(s);
    if n <= 0 {
        blank_picture(sum_scaled_widths(s, h) as u32, h)
    } else {
        let p = s[n - 1];
        overlaid_of(
            row_after(s, n - 1),
            resized_of(p, scaled_width(p, h) as u32, h, Filter::Triangle),
            sum_scaled_widths(s.take(n - 1), h) as i64,
            0,
        )
    }
}

/// The stacked canvas after the first `n` pictures were scaled to the
/// largest width (each keeping its own height) and laid down top to bottom.
pub open spec fn column_after(s: Seq<Picture>, n: int) -> Picture
    decreases n,
{
    let w = max_width(s);
    if n <= 0 {
        blank_picture(w, sum_heights(s) as u32)
    } else {
        let p = s[n - 1];
        overlaid_of(
            column_after(s, n - 1),
            resized_of(p, w, p.height, Filter::Triangle),
            0,
            sum_heights(s.take(n - 1)) as i64,
        )
    }
}

/// Whether a canvas of this size can be held in memory.
pub open spec fn canvas_fits(width: int, height: int) -> bool {
    width <= u32::MAX && height <= u32::MAX && 4 * (width * height) <= usize::MAX
}

/// The merge of the pictures in the given direction.
pub open spec fn merged(s: Seq<Picture>, mode: MergeMode) -> Result<Picture, Error> {
    if s.len() == 0 {
        Err(Error::Input)
    } else {
        match mode {
            MergeMode::Horizontal => if canvas_fits(sum_scaled_widths(s, min_height(s)), min_height(s) as int) {
                Ok(row_after(s, s.len() as int))
            } else {
                Err(Error::Encode)
            },
            MergeMode::Vertical => if canvas_fits(max_width(s) as int, sum_heights(s)) {
                Ok(column_after(s, s.len() as int))
            } else {
                Err(Error::Encode)
            },
        }
    }
}

/// The models of a sequence of rasters.
pub open spec fn pictures(s: Seq<Raster>) -> Seq<Picture> {
    s.map_values(|r: Raster| r@)
}

proof fn lemma_min_height_le(s: Seq<Picture>, i: int)
    requires
        0 <= i < s.len(),
    ensures
        min_height(s) <= s[i].height,
    decreases s.len(),
{
    if s.len() > 1 && i < s.len() - 1 {
        lemma_min_height_le(s.drop_last(), i);
    }
}

proof fn lemma_max_width_ge(s: Seq<Picture>, i: int)
    requires
        0 <= i < s.len(),
    ensures
        max_width(s) >= s[i].width,
    decreases s.len(),
{
    if i < s.len() - 1 {
        lemma_max_width_ge(s.drop_last(), i);
    }
}

proof fn lemma_scaled_width_le(p: Picture, h: u32)
    requires
        h <= p.height,
    ensures
        0 <= scaled_width(p, h) <= p.width,
{
    if p.height > 0 {
        assert(p.width * h / p.height as int <= p.width) by (nonlinear_arith)
            requires h <= p.height, p.height > 0;
        assert(p.width * h / p.height as int >= 0) by (nonlinear_arith)
            requires p.height > 0;
    }
}

proof fn lemma_prefix_sums(s: Seq<Picture>, i: int, h: u32)
    requires
        0 <= i < s.len(),
        forall|j: int| 0 <= j < s.len() ==> h <= #[trigger] s[j].height,
    ensures
        s.take(i + 1).drop_last() == s.take(i),
        sum_scaled_widths(s.take(i + 1), h) == sum_scaled_widths(s.take(i), h) + scaled_width(s[i], h),
        sum_heights(s.take(i + 1)) == sum_heights(s.take(i)) + s[i].height,
        sum_scaled_widths(s.take(i), h) + scaled_width(s[i], h) <= sum_scaled_widths(s, h),
        sum_heights(s.take(i)) + s[i].height <= sum_heights(s),
        0 <= sum_scaled_widths(s.take(i), h),
        0 <= sum_heights(s.take(i)),
    decreases s.len(),
{
    assert(s.take(i + 1).drop_last() =~= s.take(i));
    lemma_sums_nonneg(s.take(i), h);
    if i < s.len() - 1 {
        assert(s.drop_last().take(i) =~= s.take(i));
        lemma_prefix_sums(s.drop_last(), i, h);
        lemma_scaled_width_le(s.last(), h);
    } else {
        assert(s.take(i + 1) =~= s);
    }
}

proof fn lemma_sums_nonneg(s: Seq<Picture>, h: u32)
    ensures
        0 <= sum_scaled_widths(s, h),
        0 <= sum_heights(s),
    decreases s.len(),
{
    if s.len() > 0 {
        lemma_sums_nonneg(s.drop_last(), h);
        if s.last().height > 0 {
            assert(s.last().width * h / s.last().height as int >= 0) by (nonlinear_arith)
                requires s.last().height > 0;
        }
    }
}

proof fn lemma_sums_bound(s: Seq<Picture>, h: u32)
    requires
        forall|j: int| 0 <= j < s.len() ==> h <= #[trigger] s[j].height,
    ensures
        sum_scaled_widths(s, h) <= s.len() * u32::MAX,
        sum_heights(s) <= s.len() * u32::MAX,
    decreases s.len(),
{
    if s.len() > 0 {
        lemma_sums_bound(s.drop_last(), h);
        lemma_scaled_width_le(s.last(), h);
    }
}

/// Merges the rasters into one: side by side, all scaled to the smallest
/// height, or stacked, all scaled to the largest width.
pub fn merge_rasters(rasters: &Vec<Raster>, mode: MergeMode) -> (r: Result<Raster, Error>)
    requires
        forall|i: int| 0 <= i < rasters@.len() ==> #[trigger] rasters@[i].wf(),
    ensures
        r matches Ok(v) ==> merged(pictures(rasters@), mode) == Ok::<Picture, Error>(v@) && v.wf(),
        r matches Err(e) ==> merged(pictures(rasters@), mode) == Err::<Picture, Error>(e),
        rasters@.len() == 1 && mode == MergeMode::Horizontal && rasters@[0].height > 0 ==> (
        r matches Ok(v) && v.width == rasters@[0].width && v.height == rasters@[0].height),
        rasters@.len() == 1 && mode == MergeMode::Horizontal && rasters@[0]@.opaque()
            && rasters@[0].height > 0 ==> (r matches Ok(v) && v@ == rasters@[0]@),
{
    let ghost s = pictures(rasters@);
    let n = rasters.len();
    if n == 0 {
        return Err(Error::Input);
    }
    match mode {
        MergeMode::Horizontal => {
            let mut h: u32 = rasters[0].height;
            let mut i: usize = 1;
            while i < n
                invariant
                    n == rasters@.len(),
                    s == pictures(rasters@),
                    1 <= i <= n,
                    h == min_height(s.take(i as int)),
                decreases n - i,
            {
                proof {
                    assert(s.take(i as int + 1).drop_last() =~= s.take(i as int));
                }
                if rasters[i].height < h {
                    h = rasters[i].height;
                }
                i += 1;
            }
            proof {
                assert(s.take(n as int) =~= s);
                assert forall|j: int| 0 <= j < s.len() implies h <= #[trigger] s[j].height by {
                    lemma_min_height_le(s, j);
                }
                lemma_sums_bound(s, h);
                assert(n * u32::MAX <= usize::MAX * u32::MAX) by (nonlinear_arith)
                    requires n <= usize::MAX;
            }
            let mut total: u128 = 0;
            let mut i: usize = 0;
            while i < n
                invariant
                    n == rasters@.len(),
                    s == pictures(rasters@),
                    i <= n,
                    h == min_height(s),
                    forall|j: int| 0 <= j < s.len() ==> h <= #[trigger] s[j].height,
                    total == sum_scaled_widths(s.take(i as int), h),
                    sum_scaled_widths(s, h) <= n * u32::MAX,
                    n * u32::MAX <= usize::MAX * u32::MAX,
                decreases n - i,
            {
                proof {
                    lemma_prefix_sums(s, i as int, h);
                    lemma_scaled_width_le(s[i as int], h);
                }
                let sw = scale_width(&rasters[i], h);
                total = total + sw as u128;
                i += 1;
            }
            proof {
                assert(s.take(n as int) =~= s);
            }
            let ghost single = n == 1 && s[0].height > 0;
            let len0 = rasters[0].pixels.len();
            proof {
                if single {
                    let w0 = s[0].width;
                    assert(w0 * h / h as int == w0) by (nonlinear_arith)
                        requires h > 0;
                    assert(s.drop_last().len() == 0);
                    assert(s[0] == rasters@[0]@);
                    assert(h == s[0].height);
                    assert(s.last() == s[0]);
                    assert(scaled_width(s[0], h) == w0);
                    assert(sum_scaled_widths(s.drop_last(), h) == 0);
                    assert(sum_scaled_widths(s, h) == w0);
                    assert(rasters@[0].wf());
                    assert(rasters@[0].width == w0 && rasters@[0].height == h);
                    assert(len0 == 4 * (w0 * h));
                }
            }
            if total > u32::MAX as u128 {
                return Err(Error::Encode);
            }
            let width = total as u32;
            proof {
                lemma_area_fits(width, h);
            }
            let mut canvas = match Raster::blank(width, h) {
                Some(c) => c,
                None => return Err(Error::Encode),
            };
            let mut x: u64 = 0;
            let mut i: usize = 0;
            while i < n
                invariant
                    n == rasters@.len(),
                    s == pictures(rasters@),
                    forall|j: int| 0 <= j < rasters@.len() ==> #[trigger] rasters@[j].wf(),
                    i <= n,
                    h == min_height(s),
                    forall|j: int| 0 <= j < s.len() ==> h <= #[trigger] s[j].height,
                    width == sum_scaled_widths(s, h),
                    4 * (width * h) <= usize::MAX,
                    x == sum_scaled_widths(s.take(i as int), h),
                    canvas@ == row_after(s, i as int),
                    canvas.wf(),
                    canvas.width == width && canvas.height == h,
                    single ==> width == s[0].width && h == s[0].height && n == 1
                        && scaled_width(s[0], h) == s[0].width,
                    single && s[0].opaque() && i == 1 ==> canvas@ == s[0],
                decreases n - i,
            {
                proof {
                    lemma_prefix_sums(s, i as int, h);
                    lemma_scaled_width_le(s[i as int], h);
                }
                let sw = scale_width(&rasters[i], h);
                proof {
                    assert(4 * (sw * h) <= 4 * (width * h)) by (nonlinear_arith)
                        requires sw <= width;
                }
                let scaled = resize_exact(&rasters[i], sw, h, Filter::Triangle);
                proof {
                    if single {
                        assert(s[0] == rasters@[0]@);
                        assert(rasters@[0].wf());
                        assert(sw == s[0].width);
                        assert(scaled@.pixels.len() == s[0].pixels.len());
                        if sw > 0 {
                            assert(scaled@ == rasters@[0]@);
                        } else {
                            assert(sw * h == 0) by (nonlinear_arith)
                                requires sw == 0;
                            assert(scaled@.pixels.len() == 0);
                        }
                        assert(scaled@.pixels =~= s[0].pixels);
                    }
                }
                overlay(&mut canvas, &scaled, x as i64, 0);
                x = x + sw as u64;
                i += 1;
            }
            Ok(canvas)
        },
        MergeMode::Vertical => {
            let mut w: u32 = 0;
            let mut total: u128 = 0;
            let mut i: usize = 0;
            proof {
                lemma_sums_bound(s, 0);
                assert(n * u32::MAX <= usize::MAX * u32::MAX) by (nonlinear_arith)
                    requires n <= usize::MAX;
            }
            while i < n
                invariant
                    n == rasters@.len(),
                    s == pictures(rasters@),
                    i <= n,
                    w == max_width(s.take(i as int)),
                    total == sum_heights(s.take(i as int)),
                    sum_heights(s) <= n * u32::MAX,
                    n * u32::MAX <= usize::MAX * u32::MAX,
                decreases n - i,
            {
                proof {
                    lemma_prefix_sums(s, i as int, 0);
                }
                if rasters[i].width > w {
                    w = rasters[i].width;
                }
                total = total + rasters[i].height as u128;
                i += 1;
            }
            proof {
                assert(s.take(n as int) =~= s);
            }
            if total > u32::MAX as u128 {
                return Err(Error::Encode);
            }
            let height = total as u32;
            proof {
                lemma_area_fits(w, height);
            }
            let mut canvas = match Raster::blank(w, height) {
                Some(c) => c,
                None => return Err(Error::Encode),
            };
            let mut y: u64 = 0;
            let mut i: usize = 0;
            while i < n
                invariant
                    n == rasters@.len(),
                    s == pictures(rasters@),
                    forall|j: int| 0 <= j < rasters@.len() ==> #[trigger] rasters@[j].wf(),
                    i <= n,
                    w == max_width(s),
                    height == sum_heights(s),
                    4 * (w * height) <= usize::MAX,
                    y == sum_heights(s.take(i as int)),
                    canvas@ == column_after(s, i as int),
                    canvas.wf(),
                decreases n - i,
            {
                proof {
                    lemma_prefix_sums(s, i as int, 0);
                }
                let hi = rasters[i].height;
                proof {
                    assert(4 * (w * hi) <= 4 * (w * height)) by (nonlinear_arith)
                        requires hi <= height;
                }
                let scaled = resize_exact(&rasters[i], w, hi, Filter::Triangle);
                overlay(&mut canvas, &scaled, 0, y as i64);
                y = y + hi as u64;
                i += 1;
            }
            Ok(canvas)
        },
    }
}

/// The width of `r` scaled to height `h`, keeping the aspect ratio.
fn scale_width(r: &Raster, h: u32) -> (sw: u32)
    requires
        h <= r.height,
    ensures
        sw == scaled_width(r@, h),
{
    proof {
        lemma_scaled_width_le(r@, h);
    }
    if r.height == 0 {
        0
    } else {
        proof {
            lemma_area_fits(r.width, h);
        }
        ((r.width as u64 * h as u64) / r.height as u64) as u32
    }
}

} // verus!
