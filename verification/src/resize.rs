//! Downscaling: the aspect-preserving target dimensions, verified, and
//! the resampling step through the imaging crate.

use vstd::prelude::*;
use crate::codec::{lanczos_resize_gray, lanczos_resize_rgb, lanczos_resize_rgba};
use crate::pixels::PixelBuffer;

verus! {

/// `a * m / b`, rounded half up; zero where `b` is zero.
pub open spec fn scale_round(a: nat, m: nat, b: nat) -> nat {
    if b == 0 {
        0
    } else {
        (2 * a * m + b) / (2 * b)
    }
}

/// At least one.
pub open spec fn clamp_pos(x: nat) -> nat {
    if x == 0 {
        1
    } else {
        x
    }
}

/// The target of a downscale to bound `m`: the larger side becomes the
/// bound, the other follows the aspect ratio, and neither is zero.
pub open spec fn resize_target(w: nat, h: nat, m: nat) -> (nat, nat) {
    if h <= w {
        (clamp_pos(m), clamp_pos(scale_round(h, m, w)))
    } else {
        (clamp_pos(scale_round(w, m, h)), clamp_pos(m))
    }
}

/// Division bounds for the rounded scale.
proof fn lemma_scale_round_bounds(a: nat, m: nat, b: nat)
    requires
        b >= 1,
        a <= b,
    ensures
        scale_round(a, m, b) <= m,
        2 * b * scale_round(a, m, b) <= 2 * a * m + b,
        2 * b * (scale_round(a, m, b) + 1) > 2 * a * m + b,
{
    let x = scale_round(a, m, b);
    assert(x == (2 * a * m + b) / (2 * b));
    assert(2 * b * x <= 2 * a * m + b && 2 * b * (x + 1) > 2 * a * m + b) by (nonlinear_arith)
        requires
            b >= 1,
            x == (2 * a * m + b) / (2 * b),
    ;
    assert(x <= m) by (nonlinear_arith)
        requires
            b >= 1,
            a <= b,
            2 * b * x <= 2 * a * m + b,
    ;
}

/// A downscale hits the bound exactly on the larger side, never yields a
/// zero side, never exceeds the bound, and keeps the aspect ratio within
/// one pixel: the scaled smaller side differs from the exact ratio by at
/// most one pixel's worth.
pub proof fn lemma_resize_target_bounds(w: nat, h: nat, m: nat)
    requires
        w >= 1,
        h >= 1,
        m >= 1,
        w > m || h > m,
    ensures
        ({
            let (nw, nh) = resize_target(w, h, m);
            &&& 1 <= nw <= m
            &&& 1 <= nh <= m
            &&& (if h <= w {
                nw == m
            } else {
                nh == m
            })
            &&& (h <= w ==> -(w as int) <= nh * w - h * m <= w as int)
            &&& (h > w ==> -(h as int) <= nw * h - w * m <= h as int)
        }),
{
    if h <= w {
        let x = scale_round(h, m, w);
        lemma_scale_round_bounds(h, m, w);
        let nh = clamp_pos(x);
        if x == 0 {
            assert(2 * w * 1 > 2 * h * m + w - 2 * w);
            assert(-(w as int) <= nh * w - h * m <= w as int) by (nonlinear_arith)
                requires
                    nh == 1,
                    w >= 1,
                    2 * w * 1 > 2 * h * m + w - 2 * w,
                    h >= 1,
                    m >= 1,
            ;
        } else {
            assert(-(w as int) <= nh * w - h * m <= w as int) by (nonlinear_arith)
                requires
                    nh == x,
                    w >= 1,
                    2 * w * x <= 2 * h * m + w,
                    2 * w * (x + 1) > 2 * h * m + w,
            ;
        }
    } else {
        let x = scale_round(w, m, h);
        lemma_scale_round_bounds(w, m, h);
        let nw = clamp_pos(x);
        if x == 0 {
            assert(2 * h * 1 > 2 * w * m + h - 2 * h);
            assert(-(h as int) <= nw * h - w * m <= h as int) by (nonlinear_arith)
                requires
                    nw == 1,
                    h >= 1,
                    2 * h * 1 > 2 * w * m + h - 2 * h,
                    w >= 1,
                    m >= 1,
            ;
        } else {
            assert(-(h as int) <= nw * h - w * m <= h as int) by (nonlinear_arith)
                requires
                    nw == x,
                    h >= 1,
                    2 * h * x <= 2 * w * m + h,
                    2 * h * (x + 1) > 2 * w * m + h,
            ;
        }
    }
}

/// `a * m / b` rounded half up and floored at one, executable.
fn scale_side(a: u32, m: u32, b: u32) -> (r: u32)
    requires
        a <= b,
    ensures
        r == clamp_pos(scale_round(a as nat, m as nat, b as nat)),
        r >= 1,
{
    if b == 0 {
        return 1;
    }
    proof {
        assert(2 * (a as int) * (m as int) <= 2 * 0xffff_ffff * 0xffff_ffff) by (nonlinear_arith)
            requires
                a <= 0xffff_ffff,
                m <= 0xffff_ffff,
        ;
    }
    let num: u128 = 2 * (a as u128) * (m as u128) + (b as u128);
    let den: u128 = 2 * (b as u128);
    let q: u128 = num / den;
    proof {
        assert(q == scale_round(a as nat, m as nat, b as nat));
        assert(q <= num) by (nonlinear_arith)
            requires
                den >= 2,
                q == num / den,
                num >= 0,
        ;
        if q > u32::MAX {
            assert(2 * (b as int) * (q as int) <= num) by (nonlinear_arith)
                requires
                    den == 2 * (b as int),
                    q == num as int / den as int,
                    den >= 2,
                    num >= 0,
            ;
            assert(false) by (nonlinear_arith)
                requires
                    2 * (b as int) * (q as int) <= 2 * (a as int) * (m as int) + b as int,
                    q > 0xffff_ffff,
                    1 <= b <= 0xffff_ffff,
                    a <= 0xffff_ffff,
                    m <= 0xffff_ffff,
                    a <= b,
            ;
        }
    }
    if q == 0 {
        1
    } else {
        q as u32
    }
}

/// The downscale target, executable.
pub fn resize_dims(w: u32, h: u32, m: u32) -> (r: (u32, u32))
    ensures
        (r.0 as nat, r.1 as nat) == resize_target(w as nat, h as nat, m as nat),
        r.0 >= 1,
        r.1 >= 1,
{
    if h <= w {
        let nh = scale_side(h, m, w);
        let nw = if m == 0 {
            1
        } else {
            m
        };
        (nw, nh)
    } else {
        let nw = scale_side(w, m, h);
        let nh = if m == 0 {
            1
        } else {
            m
        };
        (nw, nh)
    }
}

/// Resamples a buffer to the downscale target for bound `m`, with the
/// three-lobed Lanczos filter. Sample values come from the imaging
/// crate; the dimensions and the buffer shape are exact.
pub fn resize_buffer(buf: PixelBuffer, m: u32) -> (r: PixelBuffer)
    requires
        buf.wf(),
    ensures
        r.wf(),
        r.channels == buf.channels,
        (r.width as nat, r.height as nat) == resize_target(
            buf.width as nat,
            buf.height as nat,
            m as nat,
        ),
{
    let (nw, nh) = resize_dims(buf.width, buf.height, m);
    let data = if buf.channels == 1 {
        lanczos_resize_gray(&buf.data, buf.width, buf.height, nw, nh)
    } else if buf.channels == 3 {
        lanczos_resize_rgb(&buf.data, buf.width, buf.height, nw, nh)
    } else {
        lanczos_resize_rgba(&buf.data, buf.width, buf.height, nw, nh)
    };
    PixelBuffer { width: nw, height: nh, channels: buf.channels, data }
}

} // verus!
