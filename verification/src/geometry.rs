use vstd::prelude::*;

use vstd::arithmetic::div_mod::{
    lemma_div_by_multiple, lemma_div_is_ordered, lemma_div_pos_is_pos,
    lemma_fundamental_div_mod_converse,
};

use crate::model::{FocalPoint, Mode};

verus! {

/// `num / den` rounded to the nearest integer, halves away from zero;
/// `den` must be positive.
pub open spec fn round_nearest(num: int, den: int) -> int
    recommends
        den > 0,
{
    if num >= 0 {
        (2 * num + den) / (2 * den)
    } else {
        -((2 * (-num) + den) / (2 * den))
    }
}

/// The target box clamped against the original size, per axis, before an
/// aspect-preserving resize: an axis on which the target exceeds the original
/// is pulled back to the original.
pub open spec fn limit_fit_view(target: (int, int), original: (int, int)) -> (int, int) {
    if target.0 > original.0 && target.1 > original.1 {
        original
    } else if target.0 > original.0 {
        (original.0, target.1)
    } else if target.1 > original.1 {
        (target.0, original.1)
    } else {
        target
    }
}

/// The fill size for a cropped sub-image: the target, unless it exceeds the
/// sub-image on either axis, in which case the sub-image's own size.
pub open spec fn limit_crop_view(target: (int, int), original: (int, int)) -> (int, int) {
    if target.0 > original.0 || target.1 > original.1 {
        original
    } else {
        target
    }
}

/// `x`, floored at one pixel.
pub open spec fn at_least_one(x: int) -> int {
    if x < 1 {
        1
    } else {
        x
    }
}

/// The size of a `w` by `h` image scaled by the largest ratio that keeps it
/// within `bw` by `bh`, each axis rounded to nearest and at least one pixel.
pub open spec fn fit_within_view(w: int, h: int, bw: int, bh: int) -> (int, int)
    recommends
        1 <= w && 1 <= h && 1 <= bw && 1 <= bh,
{
    if bw * h <= bh * w {
        (bw, at_least_one(round_nearest(h * bw, w)))
    } else {
        (at_least_one(round_nearest(w * bh, h)), bh)
    }
}

/// The pixel size of a `Fit` thumbnail: the target clamped against the
/// original, then an aspect-preserving fit of the original into that box.
pub open spec fn fit_thumbnail_view(target: (int, int), original: (int, int)) -> (int, int) {
    let b = limit_fit_view(target, original);
    fit_within_view(original.0, original.1, b.0, b.1)
}

/// The unrounded crop size as two fractions
/// `(cw_num, cw_den, ch_num, ch_den)`: the largest sub-rectangle of the
/// original with the target's aspect ratio.
pub open spec fn crop_frac(w: int, h: int, tw: int, th: int) -> (int, int, int, int) {
    if w * th > tw * h {
        (tw * h, th, h, 1)
    } else if w * th < tw * h {
        (w, 1, w * th, tw)
    } else {
        (w, 1, h, 1)
    }
}

/// The crop offset on one axis: `round(dim·f/1000 − crop/2)`, clamped into
/// `[0, dim − crop]` against the unrounded crop `cn/cd`, and kept below `dim`.
pub open spec fn axis_offset(dim: int, f: int, cn: int, cd: int) -> int
    recommends
        1 <= dim && 0 <= f <= 1000 && 1 <= cn && 1 <= cd,
{
    let r = round_nearest(2 * dim * f * cd - 1000 * cn, 2000 * cd);
    let o = if r < 0 {
        0
    } else if r * cd > dim * cd - cn {
        dim - cn / cd
    } else {
        r
    };
    if o > dim - 1 {
        dim - 1
    } else {
        o
    }
}

/// The crop length on one axis: the rounded crop `cn/cd`, kept within the
/// image past the offset and at least one pixel.
pub open spec fn axis_len(dim: int, off: int, cn: int, cd: int) -> int
    recommends
        1 <= dim && 0 <= off < dim && 1 <= cn && 1 <= cd,
{
    let r = round_nearest(cn, cd);
    let m = if r > dim - off {
        dim - off
    } else {
        r
    };
    if m < 1 {
        1
    } else {
        m
    }
}

/// The focal-point crop rectangle `(x, y, w, h)` of a `w`×`h` original for
/// the given target size and focal point, rounded and re-clamped so that it
/// never leaves the original's bounds.
pub open spec fn crop_rect_view(w: int, h: int, tw: int, th: int, fx: int, fy: int) -> (
    int,
    int,
    int,
    int,
) {
    let (cwn, cwd, chn, chd) = crop_frac(w, h, tw, th);
    let x = axis_offset(w, fx, cwn, cwd);
    let y = axis_offset(h, fy, chn, chd);
    (x, y, axis_len(w, x, cwn, cwd), axis_len(h, y, chn, chd))
}

/// The pixel size of one thumbnail: `Fit` clamps the target box and fits the
/// image into it; `Crop` crops to the target's aspect ratio at the focal
/// point and fills to the target unless that would upscale the sub-image.
pub open spec fn thumb_size_view(
    mode: Mode,
    target: (int, int),
    original: (int, int),
    fx: int,
    fy: int,
) -> (int, int) {
    match mode {
        Mode::Fit => fit_thumbnail_view(target, original),
        Mode::Crop => {
            let r = crop_rect_view(original.0, original.1, target.0, target.1, fx, fy);
            limit_crop_view(target, (r.2, r.3))
        },
    }
}

proof fn lemma_mul_le(x: int, y: int, xb: int, yb: int)
    requires
        0 <= x <= xb,
        0 <= y <= yb,
    ensures
        x * y <= xb * yb,
{
    assert(x * y <= xb * yb) by (nonlinear_arith)
        requires
            0 <= x <= xb,
            0 <= y <= yb,
    ;
}

/// `(2n + d) / (2d)`, the nonnegative case of `round_nearest`.
fn round_div_u128(n: u128, d: u128) -> (r: u128)
    requires
        1 <= d <= 0x1_0000_0000_0000_0000_0000,
        n <= 0x1_0000_0000_0000_0000_0000_0000_0000,
    ensures
        r == round_nearest(n as int, d as int),
        r <= n,
{
    proof {
        // (2n + d) / (2d) <= (2dn + d) / (2d) == n
        lemma_mul_le(2, n as int, 2, 0x1_0000_0000_0000_0000_0000_0000_0000);
        assert(2 * n + d <= 2 * d * n + d) by (nonlinear_arith)
            requires
                1 <= d,
                0 <= n,
        ;
        lemma_div_is_ordered(2 * n + d, 2 * d * n + d, 2 * d);
        lemma_fundamental_div_mod_converse(2 * d * n + d, 2 * d, n as int, d as int);
    }
    (2 * n + d) / (2 * d)
}

/// One axis of the crop rectangle: the clamped offset and length.
fn axis_crop(dim: u32, f: u32, cn: u64, cd: u64) -> (r: (u32, u32))
    requires
        1 <= dim,
        f <= 1000,
        1 <= cn,
        1 <= cd,
        cn <= dim * cd,
    ensures
        r.0 == axis_offset(dim as int, f as int, cn as int, cd as int),
        r.1 == axis_len(dim as int, r.0 as int, cn as int, cd as int),
        r.0 < dim,
        r.0 + r.1 <= dim,
        1 <= r.1,
{
    proof {
        lemma_mul_le(2 * (dim as int), f as int, 0x2_0000_0000, 1000);
        lemma_mul_le(2 * (dim as int) * (f as int), cd as int, 0x7d0_0000_0000, 0xffff_ffff_ffff_ffff);
    }
    let a: u128 = 2 * (dim as u128) * (f as u128) * (cd as u128);
    let b: u128 = 1000 * (cn as u128);
    let den: u128 = 2000 * (cd as u128);
    let ghost num: int = 2 * (dim as int) * (f as int) * (cd as int) - 1000 * (cn as int);
    let ghost sr: int = round_nearest(num, den as int);

    let floor_c: u64 = cn / cd;
    proof {
        lemma_div_is_ordered(cn as int, dim as int * cd as int, cd as int);
        lemma_div_by_multiple(dim as int, cd as int);
        assert(floor_c <= dim);
    }

    let o_unclamped: u32 = if a >= b {
        let r = round_div_u128(a - b, den);
        proof {
            assert((a - b) as int == num);
            assert(r == sr);
        }
        if r > dim as u128 {
            proof {
                assert(sr * cd > dim as int * cd - cn) by (nonlinear_arith)
                    requires
                        sr > dim as int,
                        1 <= cd,
                        1 <= cn,
                        dim >= 1,
                ;
            }
            dim - (floor_c as u32)
        } else {
            proof {
                lemma_mul_le(r as int, cd as int, 0xffff_ffff, 0xffff_ffff_ffff_ffff);
                lemma_mul_le(dim as int, cd as int, 0xffff_ffff, 0xffff_ffff_ffff_ffff);
            }
            let rcd: u128 = r * (cd as u128);
            let dimcd: u128 = (dim as u128) * (cd as u128);
            if rcd > dimcd - (cn as u128) {
                dim - (floor_c as u32)
            } else {
                r as u32
            }
        }
    } else {
        let m = round_div_u128(b - a, den);
        proof {
            assert((b - a) as int == -num);
            assert(sr == -(m as int));
            if m == 0 {
                // the rounded offset is zero and the crop does not exceed the
                // image, so the unclamped branch of the spec also yields zero
                assert(0 * (cd as int) == 0) by (nonlinear_arith);
            }
        }
        0
    };
    let x: u32 = if o_unclamped > dim - 1 {
        dim - 1
    } else {
        o_unclamped
    };

    let rl: u128 = round_div_u128(cn as u128, cd as u128);
    let rem: u32 = dim - x;
    let m2: u128 = if rl > rem as u128 {
        rem as u128
    } else {
        rl
    };
    let len: u32 = if m2 < 1 {
        1
    } else {
        m2 as u32
    };
    (x, len)
}

proof fn lemma_axis_full(dim: int, f: int)
    requires
        1 <= dim,
        0 <= f <= 1000,
    ensures
        axis_offset(dim, f, dim, 1) == 0,
        axis_len(dim, 0, dim, 1) == dim,
{
    assert(dim * 1 == dim);
    lemma_div_by_multiple(dim, 1);
    let r = round_nearest(2 * dim * f * 1 - 1000 * dim, 2000int * 1);
    assert(r * 1 == r);
    // the offset clamps to [0, dim - dim] = [0, 0] whatever the focal point
    lemma_fundamental_div_mod_converse(2 * dim + 1, 2, dim, 1);
    assert(round_nearest(dim, 1) == dim);
}

/// A target with the original's aspect ratio crops nothing: the crop
/// rectangle is the whole image, at every focal point.
pub proof fn lemma_equal_aspect_no_crop(w: int, h: int, tw: int, th: int, fx: int, fy: int)
    requires
        1 <= w,
        1 <= h,
        1 <= tw,
        1 <= th,
        0 <= fx <= 1000,
        0 <= fy <= 1000,
        w * th == tw * h,
    ensures
        crop_rect_view(w, h, tw, th, fx, fy) == (0int, 0int, w, h),
{
    lemma_axis_full(w, fx);
    lemma_axis_full(h, fy);
}

proof fn lemma_axis_bounds(dim: int, f: int, cn: int, cd: int)
    requires
        1 <= dim,
        0 <= f <= 1000,
        1 <= cn,
        1 <= cd,
        cn <= dim * cd,
    ensures
        0 <= axis_offset(dim, f, cn, cd) <= dim - 1,
        1 <= axis_len(dim, axis_offset(dim, f, cn, cd), cn, cd),
        axis_offset(dim, f, cn, cd) + axis_len(dim, axis_offset(dim, f, cn, cd), cn, cd) <= dim,
{
    lemma_div_pos_is_pos(cn, cd);
    lemma_div_is_ordered(cn, dim * cd, cd);
    lemma_div_by_multiple(dim, cd);
    lemma_div_pos_is_pos(2 * cn + cd, 2 * cd);
}

/// The crop rectangle always lies within the original image and has at least
/// one pixel on each axis.
pub proof fn lemma_crop_rect_in_bounds(w: int, h: int, tw: int, th: int, fx: int, fy: int)
    requires
        1 <= w,
        1 <= h,
        1 <= tw,
        1 <= th,
        0 <= fx <= 1000,
        0 <= fy <= 1000,
    ensures
        ({
            let r = crop_rect_view(w, h, tw, th, fx, fy);
            &&& 0 <= r.0 && 0 <= r.1
            &&& 1 <= r.2 && 1 <= r.3
            &&& r.0 + r.2 <= w
            &&& r.1 + r.3 <= h
        }),
{
    let (cwn, cwd, chn, chd) = crop_frac(w, h, tw, th);
    assert(1 <= cwn && cwn <= w * cwd && 1 <= cwd && 1 <= chn && chn <= h * chd && 1 <= chd)
        by (nonlinear_arith)
        requires
            1 <= w,
            1 <= h,
            1 <= tw,
            1 <= th,
            (cwn, cwd, chn, chd) == crop_frac(w, h, tw, th),
    ;
    lemma_axis_bounds(w, fx, cwn, cwd);
    lemma_axis_bounds(h, fy, chn, chd);
}

/// A `Crop` thumbnail never upscales: its size stays within the original's
/// size on both axes, whatever the focal point.
pub proof fn lemma_crop_never_upscales(target: (int, int), original: (int, int), fx: int, fy: int)
    requires
        1 <= target.0,
        1 <= target.1,
        1 <= original.0,
        1 <= original.1,
        0 <= fx <= 1000,
        0 <= fy <= 1000,
    ensures
        1 <= thumb_size_view(Mode::Crop, target, original, fx, fy).0 <= original.0,
        1 <= thumb_size_view(Mode::Crop, target, original, fx, fy).1 <= original.1,
{
    lemma_crop_rect_in_bounds(original.0, original.1, target.0, target.1, fx, fy);
}

/// A `Fit` thumbnail never upscales: its size stays within the target size
/// and within the original size, on both axes.
pub proof fn lemma_fit_never_upscales(target: (int, int), original: (int, int))
    requires
        1 <= target.0,
        1 <= target.1,
        1 <= original.0,
        1 <= original.1,
    ensures
        1 <= fit_thumbnail_view(target, original).0 <= target.0,
        fit_thumbnail_view(target, original).0 <= original.0,
        1 <= fit_thumbnail_view(target, original).1 <= target.1,
        fit_thumbnail_view(target, original).1 <= original.1,
{
    let b = limit_fit_view(target, original);
    lemma_fit_within_bounds(original.0, original.1, b.0, b.1);
}

/// A crop rectangle within an image: offset and size in pixels.
#[derive(Debug, Clone, Copy, PartialEq, Eq, Structural)]
pub struct Rect {
    pub x: u32,
    pub y: u32,
    pub w: u32,
    pub h: u32,
}

/// Clamps the target box against the original size before an
/// aspect-preserving resize, so that `Fit` never upscales.
pub fn limit_size_fit(target_size: (u32, u32), original_size: (u32, u32)) -> (r: (u32, u32))
    ensures
        (r.0 as int, r.1 as int) == limit_fit_view(
            (target_size.0 as int, target_size.1 as int),
            (original_size.0 as int, original_size.1 as int),
        ),
{
    if target_size.0 > original_size.0 && target_size.1 > original_size.1 {
        original_size
    } else if target_size.0 > original_size.0 {
        (original_size.0, target_size.1)
    } else if target_size.1 > original_size.1 {
        (target_size.0, original_size.1)
    } else {
        target_size
    }
}

/// The fill size for a cropped sub-image: the target, unless that would
/// upscale the sub-image on either axis.
pub fn limit_size_crop(target_size: (u32, u32), original_size: (u32, u32)) -> (r: (u32, u32))
    ensures
        (r.0 as int, r.1 as int) == limit_crop_view(
            (target_size.0 as int, target_size.1 as int),
            (original_size.0 as int, original_size.1 as int),
        ),
{
    if target_size.0 > original_size.0 || target_size.1 > original_size.1 {
        original_size
    } else {
        target_size
    }
}

/// The focal-point crop rectangle: the largest sub-rectangle of the original
/// with the target's aspect ratio, centred as near the focal point as the
/// image allows, rounded to whole pixels and kept within the image.
pub fn crop_rect(original: (u32, u32), target: (u32, u32), focal: FocalPoint) -> (r: Rect)
    requires
        1 <= original.0,
        1 <= original.1,
        1 <= target.0,
        1 <= target.1,
        focal.wf(),
    ensures
        (r.x as int, r.y as int, r.w as int, r.h as int) == crop_rect_view(
            original.0 as int,
            original.1 as int,
            target.0 as int,
            target.1 as int,
            focal.x_per_mille as int,
            focal.y_per_mille as int,
        ),
        r.x + r.w <= original.0,
        r.y + r.h <= original.1,
        1 <= r.w,
        1 <= r.h,
{
    let (w, h) = original;
    let (tw, th) = target;
    proof {
        lemma_mul_le(w as int, th as int, 0xffff_ffff, 0xffff_ffff);
        lemma_mul_le(tw as int, h as int, 0xffff_ffff, 0xffff_ffff);
    }
    let wth: u64 = w as u64 * th as u64;
    let twh: u64 = tw as u64 * h as u64;
    let (cwn, cwd): (u64, u64) = if wth > twh {
        (twh, th as u64)
    } else {
        (w as u64, 1)
    };
    let (chn, chd): (u64, u64) = if wth > twh {
        (h as u64, 1)
    } else if wth < twh {
        (wth, tw as u64)
    } else {
        (h as u64, 1)
    };
    proof {
        assert(w as int * 1 == w as int);
        assert(h as int * 1 == h as int);
        assert(1 <= cwn && 1 <= chn) by (nonlinear_arith)
            requires
                1 <= w,
                1 <= h,
                1 <= tw,
                1 <= th,
                cwn == if wth > twh { tw as int * h as int } else { w as int },
                chn == if wth > twh { h as int } else if wth < twh { w as int * th as int } else { h as int },
                wth == w as int * th as int,
                twh == tw as int * h as int,
        ;
    }
    let (x, rw) = axis_crop(w, focal.x_per_mille, cwn, cwd);
    let (y, rh) = axis_crop(h, focal.y_per_mille, chn, chd);
    Rect { x, y, w: rw, h: rh }
}

proof fn lemma_fit_within_bounds(w: int, h: int, bw: int, bh: int)
    requires
        1 <= w,
        1 <= h,
        1 <= bw <= w,
        1 <= bh <= h,
    ensures
        1 <= fit_within_view(w, h, bw, bh).0 <= bw,
        1 <= fit_within_view(w, h, bw, bh).1 <= bh,
{
    if bw * h <= bh * w {
        let n = h * bw;
        assert(0 <= n && n == bw * h) by (nonlinear_arith)
            requires
                1 <= h,
                1 <= bw,
                n == h * bw,
        ;
        lemma_div_is_ordered(2 * n + w, 2 * (bh * w) + w, 2 * w);
        assert(2 * (bh * w) + w == bh * (2 * w) + w) by (nonlinear_arith);
        lemma_fundamental_div_mod_converse(bh * (2 * w) + w, 2 * w, bh, w);
    } else {
        let n = w * bh;
        assert(0 <= n && n == bh * w && n <= bw * h) by (nonlinear_arith)
            requires
                1 <= w,
                1 <= bh,
                n == w * bh,
                bw * h > bh * w,
        ;
        lemma_div_is_ordered(2 * n + h, 2 * (bw * h) + h, 2 * h);
        assert(2 * (bw * h) + h == bw * (2 * h) + h) by (nonlinear_arith);
        lemma_fundamental_div_mod_converse(bw * (2 * h) + h, 2 * h, bw, h);
    }
}

/// The size of the aspect-preserving resize of a `w`×`h` image into the box
/// `bw`×`bh`, which must not exceed the image.
pub fn fit_within(w: u32, h: u32, bw: u32, bh: u32) -> (r: (u32, u32))
    requires
        1 <= w,
        1 <= h,
        1 <= bw <= w,
        1 <= bh <= h,
    ensures
        (r.0 as int, r.1 as int) == fit_within_view(w as int, h as int, bw as int, bh as int),
        1 <= r.0 <= bw,
        1 <= r.1 <= bh,
{
    proof {
        lemma_mul_le(bw as int, h as int, 0xffff_ffff, 0xffff_ffff);
        lemma_mul_le(bh as int, w as int, 0xffff_ffff, 0xffff_ffff);
        lemma_mul_le(h as int, bw as int, 0xffff_ffff, 0xffff_ffff);
        lemma_mul_le(w as int, bh as int, 0xffff_ffff, 0xffff_ffff);
        lemma_fit_within_bounds(w as int, h as int, bw as int, bh as int);
    }
    let a: u64 = bw as u64 * h as u64;
    let b: u64 = bh as u64 * w as u64;
    if a <= b {
        let n: u64 = h as u64 * bw as u64;
        let rl = round_div_u128(n as u128, w as u128);
        proof {
            assert(h as int * bw as int == bw as int * h as int) by (nonlinear_arith);
        }
        let nh: u32 = if rl < 1 {
            1
        } else {
            rl as u32
        };
        (bw, nh)
    } else {
        let n: u64 = w as u64 * bh as u64;
        let rl = round_div_u128(n as u128, h as u128);
        proof {
            assert(w as int * bh as int == bh as int * w as int) by (nonlinear_arith);
        }
        let nw: u32 = if rl < 1 {
            1
        } else {
            rl as u32
        };
        (nw, bh)
    }
}

} // verus!
