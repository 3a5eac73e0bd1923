//! Laws of the transformations, of resizing and of rescaling, pixel by pixel.
use crate::compose::{cropped, rescaled_sample, rotated, transformed};
use crate::error::ErrorKind;
use crate::image::seen::{inside, law_promoted_looks_the_same, lemma_mid, seen, seen_opacity};
use crate::image::{Chroma, FrameModel, Picture};
use crate::props::PropertyModel;
use vstd::arithmetic::power2::pow2;
use vstd::prelude::*;

verus! {

/// Where a pixel of a `w × h` picture goes in `n` quarter turns anti-clockwise.
pub open spec fn turned_to(x: int, y: int, w: int, h: int, n: int) -> (int, int) {
    if n == 1 {
        (y, w - 1 - x)
    } else if n == 2 {
        (w - 1 - x, h - 1 - y)
    } else if n == 3 {
        (h - 1 - y, x)
    } else {
        (x, y)
    }
}

/// A rotation moves every pixel, with its chroma and its opacity, anti-clockwise by
/// quarter turns, and exchanges the sides for an odd number of them.
#[verifier::rlimit(60)]
pub proof fn law_turned_pixels(f: Picture, angle: u8, x: int, y: int)
    requires
        8 <= f.format.bit_depth <= 16,
        inside(f, x, y),
    ensures
        ({
            let g = rotated(f, angle);
            let n = angle as int % 4;
            let (u, v) = turned_to(x, y, f.width as int, f.height as int, n);
            &&& n % 2 == 0 ==> g.width == f.width && g.height == f.height
            &&& n % 2 == 1 ==> g.width == f.height && g.height == f.width
            &&& g.format.bit_depth == f.format.bit_depth
            &&& g.format.has_alpha == f.format.has_alpha
            &&& forall|p: int| 0 <= p < 3 ==> #[trigger] seen(g, p, u, v) == seen(f, p, x, y)
            &&& seen_opacity(g, u, v) == seen_opacity(f, x, y)
        }),
{
    let n = angle as int % 4;
    let (u, v) = turned_to(x, y, f.width as int, f.height as int, n);
    let g = rotated(f, angle);
    law_promoted_looks_the_same(f);
    lemma_mid(f.format.bit_depth);
    if n != 0 && f.turn_promotes(n) {
        let q = f.promoted();
        assert forall|p: int| 0 <= p < 3 implies #[trigger] seen(g, p, u, v) == seen(f, p, x, y) by {
            assert(seen(q, p, x, y) == seen(f, p, x, y));
        }
        assert(seen_opacity(q, x, y) == seen_opacity(f, x, y));
        assert(seen_opacity(g, u, v) == seen_opacity(q, x, y));
    } else {
        assert forall|p: int| 0 <= p < 3 implies #[trigger] seen(g, p, u, v) == seen(f, p, x, y) by {}
    }
}

/// A mirror with axis 1 exchanges left and right, with axis 0 top and bottom, of every
/// pixel with its chroma and its opacity. (Where chroma is halved, the side that is
/// mirrored is even.)
#[verifier::rlimit(40)]
pub proof fn law_mirrored_pixels(f: Picture, m: PropertyModel, g: Picture, x: int, y: int)
    requires
        m is Imir,
        transformed(f, m) == Ok::<Picture, ErrorKind>(g),
        8 <= f.format.bit_depth <= 16,
        inside(f, x, y),
        m->Imir_0.axis % 2 == 1 && (f.format.chroma == Chroma::Yuv420 || f.format.chroma
            == Chroma::Yuv422) ==> f.width % 2 == 0,
        m->Imir_0.axis % 2 == 0 && f.format.chroma == Chroma::Yuv420 ==> f.height % 2 == 0,
    ensures
        ({
            let (u, v) = if m->Imir_0.axis % 2 == 1 {
                (f.width - 1 - x, y)
            } else {
                (x, f.height - 1 - y)
            };
            &&& g.width == f.width
            &&& g.height == f.height
            &&& g.format == f.format
            &&& forall|p: int| 0 <= p < 3 ==> #[trigger] seen(g, p, u, v) == seen(f, p, x, y)
            &&& seen_opacity(g, u, v) == seen_opacity(f, x, y)
        }),
{
    let (u, v) = if m->Imir_0.axis % 2 == 1 {
        (f.width - 1 - x, y)
    } else {
        (x, f.height - 1 - y)
    };
    assert forall|p: int| 0 <= p < 3 implies #[trigger] seen(g, p, u, v) == seen(f, p, x, y) by {}
}

/// A crop shows the pixels of its rectangle, with their chroma and their opacity.
#[verifier::rlimit(40)]
pub proof fn law_cropped_pixels(f: Picture, x: u32, y: u32, w: u32, h: u32, g: Picture, i: int, j: int)
    requires
        cropped(f, x, y, w, h) == Ok::<Picture, ErrorKind>(g),
        8 <= f.format.bit_depth <= 16,
        0 <= i < w,
        0 <= j < h,
    ensures
        g.width == w,
        g.height == h,
        g.format.bit_depth == f.format.bit_depth,
        g.format.has_alpha == f.format.has_alpha,
        inside(f, x + i, y + j),
        forall|p: int| 0 <= p < 3 ==> #[trigger] seen(g, p, i, j) == seen(f, p, x + i, y + j),
        seen_opacity(g, i, j) == seen_opacity(f, x + i, y + j),
{
    law_promoted_looks_the_same(f);
    let q = f.promoted();
    assert forall|p: int| 0 <= p < 3 implies #[trigger] seen(g, p, i, j) == seen(f, p, x + i, y + j) by {
        assert(seen(q, p, x + i, y + j) == seen(f, p, x + i, y + j));
    }
    assert(seen_opacity(q, x + i, y + j) == seen_opacity(f, x + i, y + j));
}

/// A resized picture takes every sample from the place of the same plane that covers
/// it: of `n` samples over `m`, the `x`-th is the one at `s` with
/// `s / m <= x / n < (s + 1) / m`.
#[verifier::rlimit(40)]
pub proof fn law_resized_samples(f: Picture, w: u32, h: u32, p: int, x: int, y: int, s: int, t: int)
    requires
        f.width > 0,
        f.height > 0,
        f.format.has(w, h, p, x, y),
        ({
            let (m, n) = (f.format.dims(p, w, h), f.format.dims(p, f.width, f.height));
            &&& s * m.0 <= x * n.0 < (s + 1) * m.0
            &&& t * m.1 <= y * n.1 < (t + 1) * m.1
        }),
    ensures
        f.resized(w, h).width == w,
        f.resized(w, h).height == h,
        f.resized(w, h).format == f.format,
        (f.resized(w, h).at)(p, x, y) == (f.at)(p, s, t),
        f.format.has(f.width, f.height, p, s, t),
{
    let (m, n) = (f.format.dims(p, w, h), f.format.dims(p, f.width, f.height));
    lemma_quotient(x * n.0, m.0 as int, s);
    lemma_quotient(y * n.1, m.1 as int, t);
    lemma_covering(x, m.0 as int, n.0 as int, s);
    lemma_covering(y, m.1 as int, n.1 as int, t);
}

proof fn lemma_quotient(v: int, d: int, q: int)
    requires
        0 < d,
        q * d <= v < (q + 1) * d,
    ensures
        v / d == q,
{
    let r = v - q * d;
    assert((q + 1) * d == q * d + d) by (nonlinear_arith);
    assert(v == q * d + r);
    vstd::arithmetic::div_mod::lemma_fundamental_div_mod_converse(v, d, q, r);
}

proof fn lemma_covering(x: int, m: int, n: int, s: int)
    requires
        0 <= x < m,
        0 < n,
        s * m <= x * n < (s + 1) * m,
    ensures
        0 <= s < n,
{
    assert(0 <= s) by (nonlinear_arith)
        requires
            0 <= x * n,
            x * n < (s + 1) * m,
            0 < m,
    ;
    assert(0 <= x * n) by (nonlinear_arith)
        requires
            0 <= x,
            0 < n,
    ;
    assert(s < n) by (nonlinear_arith)
        requires
            s * m <= x * n,
            x < m,
            0 < n,
            0 < m,
    ;
}

/// A sample rescaled to more bits is multiplied by the power of two between the
/// depths; to fewer bits it is divided by it, rounded to the nearest integer and held to
/// the largest value.
pub proof fn law_rescaled_sample(v: u16, from: u8, to: u8)
    requires
        8 <= from <= 16,
        8 <= to <= 16,
        v < pow2(from as nat),
    ensures
        ({
            let r = rescaled_sample(v, from, to) as int;
            let max = pow2(to as nat) - 1;
            &&& to >= from ==> r == v * pow2((to - from) as nat)
            &&& to < from ==> {
                let k = pow2((from - to) as nat) as int;
                &&& 0 <= r <= max
                &&& 2 * (r * k) <= 2 * v + k
                &&& r < max ==> 2 * v < 2 * (r * k) + k
            }
        }),
{
    vstd::arithmetic::power2::lemma2_to64();
    if to > from {
        let k = pow2((to - from) as nat) as int;
        vstd::arithmetic::power2::lemma_pow2_adds(from as nat, (to - from) as nat);
        if to < 16 {
            vstd::arithmetic::power2::lemma_pow2_strictly_increases(to as nat, 16);
        }
        let a = pow2(from as nat) as int;
        vstd::arithmetic::power2::lemma_pow2_pos((to - from) as nat);
        assert(0 <= v * k < a * k) by (nonlinear_arith)
            requires
                0 <= v < a,
                0 < k,
        ;
        assert(v * k < 0x1_0000);
    } else if to == from {
        assert(v * pow2(0) == v) by (nonlinear_arith)
            requires
                pow2(0) == 1,
        ;
    } else {
        let s = (from - to) as nat;
        let k = pow2(s) as int;
        let half = pow2((s - 1) as nat) as int;
        vstd::arithmetic::power2::lemma_pow2_unfold(s);
        vstd::arithmetic::power2::lemma_pow2_pos((s - 1) as nat);
        assert(k == 2 * half);
        crate::compose::overlay::lemma_max(to);
        let q = (v + half) / k;
        vstd::arithmetic::div_mod::lemma_fundamental_div_mod(v + half, k);
        assert(k * q == q * k) by (nonlinear_arith);
        assert(0 <= q) by (nonlinear_arith)
            requires
                q == (v + half) / k,
                0 <= v + half,
                0 < k,
        ;
        let max = pow2(to as nat) - 1;
        if q >= max {
            assert(max * k <= q * k) by (nonlinear_arith)
                requires
                    max <= q,
                    0 < k,
            ;
        }
    }
}

/// Rescaling changes the depth and the samples of every plane, alpha included, and
/// nothing else.
pub proof fn law_rescaled_picture(f: Picture, depth: u8, p: int, x: int, y: int)
    requires
        f.format.has(f.width, f.height, p, x, y),
    ensures
        f.rescaled(depth).width == f.width,
        f.rescaled(depth).height == f.height,
        f.rescaled(depth).format.chroma == f.format.chroma,
        f.rescaled(depth).format.has_alpha == f.format.has_alpha,
        f.rescaled(depth).format.bit_depth == depth,
        (f.rescaled(depth).at)(p, x, y) == rescaled_sample((f.at)(p, x, y), f.format.bit_depth, depth),
{
}

/// A picture with the alpha of another keeps its size, its depth and its colours, and
/// is as opaque at each pixel as the luma of the other says, at the same place when
/// they are equally large, rescaled to the depth of the picture.
pub proof fn law_attached_alpha(f: Picture, a: Picture, x: int, y: int)
    requires
        inside(f, x, y),
    ensures
        ({
            let g = f.with_alpha_of(a);
            &&& g.width == f.width
            &&& g.height == f.height
            &&& g.format.chroma == f.format.chroma
            &&& g.format.bit_depth == f.format.bit_depth
            &&& g.format.has_alpha
            &&& forall|p: int| 0 <= p < 3 ==> #[trigger] seen(g, p, x, y) == seen(f, p, x, y)
            &&& a.width == f.width && a.height == f.height ==> seen_opacity(g, x, y)
                == rescaled_sample((a.at)(0, x, y), a.format.bit_depth, f.format.bit_depth)
            &&& forall|s: int, t: int|
                s * f.width <= x * a.width < (s + 1) * f.width && t * f.height <= y * a.height < (t
                    + 1) * f.height ==> seen_opacity(g, x, y) == rescaled_sample(
                    #[trigger] (a.at)(0, s, t),
                    a.format.bit_depth,
                    f.format.bit_depth,
                )
        }),
{
    let g = f.with_alpha_of(a);
    assert forall|p: int| 0 <= p < 3 implies #[trigger] seen(g, p, x, y) == seen(f, p, x, y) by {}
    assert forall|s: int, t: int|
        s * f.width <= x * a.width < (s + 1) * f.width && t * f.height <= y * a.height < (t + 1)
            * f.height implies seen_opacity(g, x, y) == rescaled_sample(
        #[trigger] (a.at)(0, s, t),
        a.format.bit_depth,
        f.format.bit_depth,
    ) by {
        lemma_quotient(x * a.width, f.width as int, s);
        lemma_quotient(y * a.height, f.height as int, t);
        if f.width == a.width && f.height == a.height {
            lemma_same_place(x, f.width as int, s);
            lemma_same_place(y, f.height as int, t);
        }
    }
}

proof fn lemma_same_place(x: int, n: int, s: int)
    requires
        0 < n,
        s * n <= x * n < (s + 1) * n,
    ensures
        s == x,
{
    assert(s == x) by (nonlinear_arith)
        requires
            0 < n,
            s * n <= x * n,
            x * n < (s + 1) * n,
    ;
}

/// Splitting the alpha plane of a frame off and attaching it again gives a frame that
/// looks the same.
pub proof fn law_alpha_round_trip(f: FrameModel, x: int, y: int)
    requires
        f.wf(),
        f.format.has_alpha,
        inside(f.picture(), x, y),
    ensures
        f.colour_only().attached(f.alpha_frame()) matches Ok(g) ==> {
            &&& g.width == f.width && g.height == f.height
            &&& g.format == f.format
            &&& forall|p: int|
                0 <= p < 3 ==> #[trigger] seen(g.picture(), p, x, y) == seen(f.picture(), p, x, y)
            &&& seen_opacity(g.picture(), x, y) == seen_opacity(f.picture(), x, y)
        },
        seen(f.alpha_frame().picture(), 0, x, y) == seen_opacity(f.picture(), x, y),
        forall|p: int|
            0 <= p < 3 ==> #[trigger] seen(f.colour_only().picture(), p, x, y) == seen(
                f.picture(),
                p,
                x,
                y,
            ),
{
    let c = f.colour_only();
    let n = f.format.chroma.planes();
    let g = c.joined(f.alpha_frame());
    assert(g.planes =~= f.planes);
    assert forall|p: int| 0 <= p < 3 implies #[trigger] seen(c.picture(), p, x, y) == seen(
        f.picture(),
        p,
        x,
        y,
    ) by {
        if p < n {
            assert(c.planes[p] == f.planes[p]);
        }
    }
}

} // verus!
