//! Laws of the conversion to RGB.
use crate::compose::fill::{matrix_of, quantised};
use crate::error::ErrorKind;
use crate::image::seen::{inside, lemma_shared_sample, seen, seen_opacity};
use crate::image::{Chroma, FrameModel};
use crate::props::ColrModel;
use crate::rgb::{rgb_of, rgb_sample, RgbModel};
use vstd::arithmetic::power2::pow2;
use vstd::prelude::*;

verus! {

/// Channel `c` of the pixel at `(x, y)`: rows from the top, pixels from the left, the
/// channels of a pixel side by side.
pub open spec fn channel(r: RgbModel, x: int, y: int, c: int) -> int {
    r.data[(y * r.width + x) * r.channels + c] as int
}

/// The place of a channel gives back the pixel and the channel.
proof fn lemma_place(x: int, y: int, c: int, w: int, h: int, n: int)
    requires
        0 <= x < w,
        0 <= y < h,
        0 <= c < n,
    ensures
        ({
            let i = (y * w + x) * n + c;
            &&& 0 <= i < w * h * n
            &&& i % n == c
            &&& i / n % w == x
            &&& i / n / w == y
        }),
{
    let k = y * w + x;
    let i = k * n + c;
    vstd::arithmetic::div_mod::lemma_fundamental_div_mod_converse(i, n, k, c);
    vstd::arithmetic::div_mod::lemma_fundamental_div_mod_converse(k, w, y, x);
    assert(0 <= y * w && y * w + w <= w * h) by (nonlinear_arith)
        requires
            0 <= y,
            y + 1 <= h,
            0 <= w,
    ;
    assert(0 <= k * n && k * n + n <= w * h * n) by (nonlinear_arith)
        requires
            0 <= k,
            k + 1 <= w * h,
            0 <= n,
    ;
}

/// A channel of a pixel.
proof fn lemma_channel(f: FrameModel, colr: Option<ColrModel>, r: RgbModel, x: int, y: int, c: int)
    requires
        rgb_of(f, colr) == Ok::<RgbModel, ErrorKind>(r),
        inside(f.picture(), x, y),
        0 <= c < r.channels,
    ensures
        ({
            let (matrix, full) = matrix_of(colr);
            channel(r, x, y, c) == rgb_sample(f, matrix, full, x, y, c)
        }),
{
    lemma_place(x, y, c, f.width as int, f.height as int, r.channels as int);
}

/// What a pixel of a frame looks like, by the samples of its planes.
proof fn lemma_co_sited(f: FrameModel, x: int, y: int)
    requires
        inside(f.picture(), x, y),
    ensures
        f.sample(0, x, y) == seen(f.picture(), 0, x, y),
        forall|p: int|
            1 <= p < 3 ==> match f.format.chroma {
                Chroma::Mono => true,
                Chroma::Yuv420 => #[trigger] seen(f.picture(), p, x, y) == f.sample(p, x / 2, y / 2),
                Chroma::Yuv422 => seen(f.picture(), p, x, y) == f.sample(p, x / 2, y),
                Chroma::Yuv444 => seen(f.picture(), p, x, y) == f.sample(p, x, y),
            },
{
    lemma_shared_sample(x, f.width);
    lemma_shared_sample(y, f.height);
}

/// The colour of a pixel depends on nothing but its luma, the chroma samples that it
/// shares with its neighbours, the depth and the colour information: pixels that look
/// the same convert to the same colour, wherever they are, and whatever the size and the
/// chroma layout of their frames. So a pixel of a frame converts as a frame of the
/// one pixel does, and a frame as its 4:4:4 form. (A frame without chroma is compared
/// with another of the kind: one with the identity matrix has no chroma to be neutral.)
#[verifier::rlimit(40)]
pub proof fn law_pixels_convert_alike(
    f: FrameModel,
    g: FrameModel,
    colr: Option<ColrModel>,
    r: RgbModel,
    s: RgbModel,
    at: (int, int),
    to: (int, int),
)
    requires
        rgb_of(f, colr) == Ok::<RgbModel, ErrorKind>(r),
        rgb_of(g, colr) == Ok::<RgbModel, ErrorKind>(s),
        f.format.bit_depth == g.format.bit_depth,
        (f.format.chroma == Chroma::Mono) == (g.format.chroma == Chroma::Mono),
        inside(f.picture(), at.0, at.1),
        inside(g.picture(), to.0, to.1),
        forall|p: int|
            0 <= p < 3 ==> #[trigger] seen(f.picture(), p, at.0, at.1) == seen(
                g.picture(),
                p,
                to.0,
                to.1,
            ),
    ensures
        forall|c: int|
            0 <= c < 3 ==> #[trigger] channel(r, at.0, at.1, c) == channel(s, to.0, to.1, c),
{
    assert forall|c: int| 0 <= c < 3 implies #[trigger] channel(r, at.0, at.1, c) == channel(
        s,
        to.0,
        to.1,
        c,
    ) by {
        lemma_channel(f, colr, r, at.0, at.1, c);
        lemma_channel(g, colr, s, to.0, to.1, c);
        lemma_co_sited(f, at.0, at.1);
        lemma_co_sited(g, to.0, to.1);
        assert(seen(f.picture(), 0, at.0, at.1) == seen(g.picture(), 0, to.0, to.1));
        assert(seen(f.picture(), 1, at.0, at.1) == seen(g.picture(), 1, to.0, to.1));
        assert(seen(f.picture(), 2, at.0, at.1) == seen(g.picture(), 2, to.0, to.1));
    }
}

/// A frame and its 4:4:4 form convert to the same image; the image has the size and the
/// depth of the frame, and the alpha plane as its fourth channel.
#[verifier::rlimit(40)]
pub proof fn law_promotion_converts_alike(
    f: FrameModel,
    g: FrameModel,
    colr: Option<ColrModel>,
    r: RgbModel,
    s: RgbModel,
)
    requires
        rgb_of(f, colr) == Ok::<RgbModel, ErrorKind>(r),
        rgb_of(g, colr) == Ok::<RgbModel, ErrorKind>(s),
        8 <= f.format.bit_depth <= 16,
        f.format.chroma != Chroma::Mono,
        g.picture() == f.picture().promoted(),
    ensures
        r.width == f.width,
        r.height == f.height,
        r.bit_depth == f.format.bit_depth,
        r.data == s.data,
        r == s,
{
    crate::image::seen::law_promoted_looks_the_same(f.picture());
    let n = r.channels as int;
    assert forall|i: int| 0 <= i < r.data.len() implies r.data[i] == s.data[i] by {
        let (w, h) = (f.width as int, f.height as int);
        let k = i / n;
        let (x, y, c) = (k % w, k / w, i % n);
        vstd::arithmetic::div_mod::lemma_fundamental_div_mod(i, n);
        vstd::arithmetic::div_mod::lemma_fundamental_div_mod(k, w);
        assert(0 <= k < w * h) by (nonlinear_arith)
            requires
                0 <= i < w * h * n,
                i == n * k + i % n,
                0 <= i % n < n,
        ;
        assert(0 <= y < h) by (nonlinear_arith)
            requires
                0 <= k < w * h,
                k == w * y + x,
                0 <= x < w,
        ;
        assert(k == y * w + x) by (nonlinear_arith)
            requires
                k == w * y + x,
        ;
        assert(i == k * n + c) by (nonlinear_arith)
            requires
                i == n * k + c,
        ;
        assert(inside(f.picture(), x, y));
        assert(0 <= c < n);
        if c < 3 {
            assert forall|p: int| 0 <= p < 3 implies #[trigger] seen(f.picture(), p, x, y) == seen(
                g.picture(),
                p,
                x,
                y,
            ) by {
                assert(seen(f.picture().promoted(), p, x, y) == seen(f.picture(), p, x, y));
            }
            let at = (x, y);
            law_pixels_convert_alike(f, g, colr, r, s, at, at);
            assert(channel(r, at.0, at.1, c) == channel(s, at.0, at.1, c));
        } else {
            law_alpha_is_kept(f, colr, r, x, y);
            law_alpha_is_kept(g, colr, s, x, y);
            assert(seen_opacity(f.picture().promoted(), x, y) == seen_opacity(f.picture(), x, y));
            assert(channel(r, x, y, 3) == channel(s, x, y, 3));
        }
    }
    assert(r.data =~= s.data);
}

/// The image of a frame with an alpha plane has it as fourth channel, sample for
/// sample; the image of another has three channels.
pub proof fn law_alpha_is_kept(f: FrameModel, colr: Option<ColrModel>, r: RgbModel, x: int, y: int)
    requires
        rgb_of(f, colr) == Ok::<RgbModel, ErrorKind>(r),
        inside(f.picture(), x, y),
    ensures
        f.format.has_alpha ==> r.channels == 4 && channel(r, x, y, 3) == seen_opacity(
            f.picture(),
            x,
            y,
        ),
        !f.format.has_alpha ==> r.channels == 3,
        r.data.len() == f.width * f.height * r.channels,
        0 <= (y * r.width + x) * r.channels < r.data.len(),
{
    lemma_place(x, y, 0, f.width as int, f.height as int, r.channels as int);
    if f.format.has_alpha {
        lemma_channel(f, colr, r, x, y, 3);
    }
}

/// A value is the fraction `n / d` rounded to the nearest integer and held to
/// `0..=max`.
pub open spec fn nearest(v: int, n: int, d: int, max: int) -> bool {
    &&& 0 <= v <= max
    &&& v > 0 ==> 2 * (v * d) <= 2 * n + d
    &&& v < max ==> 2 * n <= 2 * (v * d) + d
}

/// The values of a depth and range that stand for the signals 0 and 1: the offset of
/// luma, and the steps from 0 to 1 of luma and of chroma.
pub open spec fn swing(depth: u8, full_range: bool) -> (int, int, int) {
    if full_range {
        (0, pow2(depth as nat) - 1, pow2(depth as nat) - 1)
    } else {
        let unit = pow2((depth - 8) as nat) as int;
        (16 * unit, 219 * unit, 224 * unit)
    }
}

/// The parts of red, green and blue in luma, in ten-thousandths, of the code points
/// that have them (H.273).
pub open spec fn luma_parts(matrix: u16) -> (int, int, int) {
    if matrix == 1 {
        (2126, 7152, 722)
    } else if matrix == 4 {
        (3000, 5900, 1100)
    } else if matrix == 7 {
        (2120, 7010, 870)
    } else if matrix == 9 {
        (2627, 6780, 593)
    } else {
        (2990, 5870, 1140)
    }
}

/// The rounding of the conversion.
proof fn lemma_quantised(n: int, d: int, max: int)
    requires
        d > 0,
        max > 0,
    ensures
        nearest(quantised(n, d, max), n, d, max),
{
    if n > 0 {
        let q = (2 * n + d) / (2 * d);
        vstd::arithmetic::div_mod::lemma_fundamental_div_mod(2 * n + d, 2 * d);
        assert((2 * d) * q == 2 * (q * d)) by (nonlinear_arith);
        assert(0 <= q) by (nonlinear_arith)
            requires
                q == (2 * n + d) / (2 * d),
                n > 0,
                d > 0,
        ;
        if q >= max {
            assert(max * d <= q * d) by (nonlinear_arith)
                requires
                    max <= q,
                    d > 0,
            ;
        }
    }
}

/// The parts of the scale of a depth.
proof fn lemma_swing(depth: u8, full_range: bool)
    requires
        8 <= depth <= 16,
    ensures
        ({
            let (o, a, b) = swing(depth, full_range);
            &&& a > 0
            &&& b > 0
            &&& 255 <= pow2(depth as nat) - 1 <= 65535
            &&& 10000 * (a * b) > 0
        }),
{
    crate::compose::overlay::lemma_max(depth);
    vstd::arithmetic::power2::lemma_pow2_pos((depth - 8) as nat);
    let (o, a, b) = swing(depth, full_range);
    assert(a * b > 0) by (nonlinear_arith)
        requires
            a > 0,
            b > 0,
    ;
}

/// The conversion inverts the equations of H.273 38–40. With `e = (luma − offset) /
/// steps`, `u` and `v` the distances of Cb and Cr from the middle over the chroma
/// steps, and the parts of the primaries in luma: red is `e + 2 (1 − Kr) v`, blue is
/// `e + 2 (1 − Kb) u`, and `Kr R + Kg G + Kb B` is `e` again; each in steps of the
/// depth, rounded to the nearest and held to its range.
#[verifier::rlimit(60)]
pub proof fn law_conversion(f: FrameModel, colr: Option<ColrModel>, r: RgbModel, x: int, y: int)
    requires
        rgb_of(f, colr) == Ok::<RgbModel, ErrorKind>(r),
        8 <= f.format.bit_depth <= 16,
        f.format.chroma != Chroma::Mono,
        matrix_of(colr).0 != 0,
        inside(f.picture(), x, y),
    ensures
        ({
            let (matrix, full) = matrix_of(colr);
            let (kr, kg, kb) = luma_parts(matrix);
            let (offset, ys, cs) = swing(f.format.bit_depth, full);
            let max = pow2(f.format.bit_depth as nat) - 1;
            let mid = pow2((f.format.bit_depth - 1) as nat) as int;
            let e = seen(f.picture(), 0, x, y) - offset;
            let u = seen(f.picture(), 1, x, y) - mid;
            let v = seen(f.picture(), 2, x, y) - mid;
            let one = 10000 * (ys * cs);
            let red = 10000 * (e * cs) + 2 * (10000 - kr) * (v * ys);
            let blue = 10000 * (e * cs) + 2 * (10000 - kb) * (u * ys);
            let rest = 10000 * (10000 * (e * cs)) - kr * red - kb * blue;
            &&& kr + kg + kb == 10000
            &&& nearest(channel(r, x, y, 0), red * max, one, max)
            &&& nearest(channel(r, x, y, 2), blue * max, one, max)
            &&& nearest(channel(r, x, y, 1), rest * max, kg * one, max)
        }),
{
    let (matrix, full) = matrix_of(colr);
    let (kr, kg, kb) = luma_parts(matrix);
    let (offset, ys, cs) = swing(f.format.bit_depth, full);
    let max = pow2(f.format.bit_depth as nat) - 1;
    let mid = pow2((f.format.bit_depth - 1) as nat) as int;
    let e = seen(f.picture(), 0, x, y) - offset;
    let u = seen(f.picture(), 1, x, y) - mid;
    let v = seen(f.picture(), 2, x, y) - mid;
    let one = 10000 * (ys * cs);
    let red = 10000 * (e * cs) + 2 * (10000 - kr) * (v * ys);
    let blue = 10000 * (e * cs) + 2 * (10000 - kb) * (u * ys);
    let rest = 10000 * (10000 * (e * cs)) - kr * red - kb * blue;
    lemma_swing(f.format.bit_depth, full);
    lemma_channel(f, colr, r, x, y, 0);
    lemma_channel(f, colr, r, x, y, 1);
    lemma_channel(f, colr, r, x, y, 2);
    lemma_co_sited(f, x, y);
    assert(seen(f.picture(), 1, x, y) >= 0 && seen(f.picture(), 2, x, y) >= 0);
    lemma_quantised(red * max, one, max);
    lemma_quantised(blue * max, one, max);
    assert(kg * one > 0) by (nonlinear_arith)
        requires
            kg > 0,
            one > 0,
    ;
    lemma_quantised(rest * max, kg * one, max);
}

/// A frame without chroma converts to grey, and with the identity matrix green, blue
/// and red are luma, Cb and Cr; each value `(v − offset) / steps` in steps of the
/// depth, rounded to the nearest and held to its range.
#[verifier::rlimit(60)]
pub proof fn law_levels(f: FrameModel, colr: Option<ColrModel>, r: RgbModel, x: int, y: int)
    requires
        rgb_of(f, colr) == Ok::<RgbModel, ErrorKind>(r),
        8 <= f.format.bit_depth <= 16,
        f.format.chroma == Chroma::Mono || matrix_of(colr).0 == 0,
        inside(f.picture(), x, y),
    ensures
        ({
            let mono = f.format.chroma == Chroma::Mono;
            let (offset, steps, _) = swing(f.format.bit_depth, matrix_of(colr).1);
            let max = pow2(f.format.bit_depth as nat) - 1;
            let g = seen(f.picture(), 0, x, y);
            let b = if mono {
                g
            } else {
                seen(f.picture(), 1, x, y)
            };
            let q = if mono {
                g
            } else {
                seen(f.picture(), 2, x, y)
            };
            &&& nearest(channel(r, x, y, 0), (q - offset) * max, steps, max)
            &&& nearest(channel(r, x, y, 1), (g - offset) * max, steps, max)
            &&& nearest(channel(r, x, y, 2), (b - offset) * max, steps, max)
        }),
{
    let mono = f.format.chroma == Chroma::Mono;
    let (offset, steps, _) = swing(f.format.bit_depth, matrix_of(colr).1);
    let max = pow2(f.format.bit_depth as nat) - 1;
    lemma_swing(f.format.bit_depth, matrix_of(colr).1);
    lemma_channel(f, colr, r, x, y, 0);
    lemma_channel(f, colr, r, x, y, 1);
    lemma_channel(f, colr, r, x, y, 2);
    lemma_co_sited(f, x, y);
    let g = seen(f.picture(), 0, x, y);
    lemma_quantised((g - offset) * max, steps, max);
    if !mono {
        assert(seen(f.picture(), 1, x, y) >= 0 && seen(f.picture(), 2, x, y) >= 0);
        lemma_quantised((seen(f.picture(), 1, x, y) - offset) * max, steps, max);
        lemma_quantised((seen(f.picture(), 2, x, y) - offset) * max, steps, max);
    }
}

} // verus!
