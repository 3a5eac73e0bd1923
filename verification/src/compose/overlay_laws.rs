//! What an overlay shows: which input each pixel of the canvas comes from.
use crate::compose::fill::{fill_values, matrix_of};
use crate::compose::overlay::{
    any_alpha, blended, covered_opacity, lemma_max, lemma_scene, luma_pos, overlay_picture, resolved,
    scene_of, InputModel, Scene,
};
use crate::derived::OverlayModel;
use crate::error::ErrorKind;
use crate::image::seen::{inside, law_promoted_looks_the_same, lemma_mid, seen, seen_opacity};
use crate::image::{Chroma, Picture};
use crate::props::ColrModel;
use vstd::arithmetic::power2::pow2;
use vstd::prelude::*;

verus! {

/// Input `i` lies over the pixel at `(x, y)` of the canvas.
pub open spec fn lies_over(d: OverlayModel, inputs: Seq<InputModel>, i: int, x: int, y: int) -> bool {
    &&& d.offsets[i].0 <= x < d.offsets[i].0 + inputs[i].frame.width
    &&& d.offsets[i].1 <= y < d.offsets[i].1 + inputs[i].frame.height
}

/// Input `i` is the uppermost one at the pixel.
pub open spec fn uppermost(d: OverlayModel, inputs: Seq<InputModel>, i: int, x: int, y: int) -> bool {
    &&& 0 <= i < inputs.len()
    &&& lies_over(d, inputs, i, x, y)
    &&& forall|j: int| i < j < inputs.len() ==> !#[trigger] lies_over(d, inputs, j, x, y)
}

/// A sample held to the largest value of a depth.
pub open spec fn held(v: int, depth: u8) -> int {
    if v < pow2(depth as nat) {
        v
    } else {
        pow2(depth as nat) - 1
    }
}

/// The canvas value of the first `k` opaque inputs, without its opacity.
spec fn top(s: Scene, k: int, p: int, x: int, y: int) -> int
    decreases k,
{
    if k <= 0 {
        s.fill[p] as int
    } else if s.covers(
        k - 1,
        luma_pos(p, x, s.format.chroma.shift_x()),
        luma_pos(p, y, s.format.chroma.shift_y()),
    ) {
        if s.input_sample(k - 1, p, x, y) < s.max {
            s.input_sample(k - 1, p, x, y)
        } else {
            s.max
        }
    } else {
        top(s, k - 1, p, x, y)
    }
}

/// All of the scene is opaque.
spec fn opaque(s: Scene) -> bool {
    &&& s.max >= 255
    &&& s.fill_alpha == s.max
    &&& forall|i: int| 0 <= i < s.inputs.len() ==> !(#[trigger] s.inputs[i]).frame.format.has_alpha
}

proof fn lemma_opaque_over(m: int, before: int, premultiplied: bool, max: int)
    requires
        max >= 255,
        0 <= m,
    ensures
        blended(before, m, max, premultiplied, max) == (if m < max {
            m
        } else {
            max
        }) * max,
        covered_opacity(before, max, max) == max,
{
    assert(before * (max - max) == 0) by (nonlinear_arith);
    assert((0 + max / 2) / max == 0) by (nonlinear_arith)
        requires
            max >= 255,
    ;
    assert(m < max ==> m * max < max * max) by (nonlinear_arith)
        requires
            max > 0,
    ;
    assert(m >= max ==> m * max >= max * max) by (nonlinear_arith)
        requires
            max > 0,
    ;
}

proof fn lemma_top(s: Scene, k: int, p: int, x: int, y: int)
    requires
        opaque(s),
        0 <= k <= s.inputs.len(),
        0 <= p < 3,
        s.fill[p] <= s.max,
    ensures
        s.colour(k, p, x, y) == top(s, k, p, x, y) * s.max,
        0 <= top(s, k, p, x, y) <= s.max,
    decreases k,
{
    if k > 0 {
        lemma_top(s, k - 1, p, x, y);
        assert(!s.inputs[k - 1].frame.format.has_alpha);
        lemma_opaque_over(
            s.input_sample(k - 1, p, x, y),
            s.colour(k - 1, p, x, y),
            s.inputs[k - 1].premultiplied,
            s.max,
        );
    }
}

proof fn lemma_opacity(s: Scene, k: int, x: int, y: int)
    requires
        opaque(s),
        0 <= k <= s.inputs.len(),
    ensures
        s.opacity(k, x, y) == s.max,
    decreases k,
{
    if k > 0 {
        lemma_opacity(s, k - 1, x, y);
        assert(!s.inputs[k - 1].frame.format.has_alpha);
        lemma_opaque_over(0, s.max, false, s.max);
    }
}

proof fn lemma_divided(t: int, max: int, fill: int)
    requires
        max >= 255,
        0 <= t <= max,
    ensures
        resolved(t * max, max, fill, max) == t,
{
    assert((t * max + max / 2) / max == t) by (nonlinear_arith)
        requires
            max >= 255,
    ;
}

proof fn lemma_result(s: Scene, p: int, x: int, y: int)
    requires
        opaque(s),
        0 <= p < 3,
        !s.format.has_alpha,
        s.fill[p] <= s.max,
    ensures
        s.result(p, x, y) == top(s, s.inputs.len() as int, p, x, y),
        0 <= s.result(p, x, y) <= s.max,
{
    let n = s.inputs.len() as int;
    lemma_top(s, n, p, x, y);
    lemma_opacity(s, n, x, y);
    lemma_opacity(s, n, 2 * x, y);
    lemma_opacity(s, n, 2 * x + 1, y);
    lemma_opacity(s, n, 2 * x, 2 * y);
    lemma_opacity(s, n, 2 * x + 1, 2 * y);
    lemma_opacity(s, n, 2 * x, 2 * y + 1);
    lemma_opacity(s, n, 2 * x + 1, 2 * y + 1);
    lemma_divided(top(s, n, p, x, y), s.max, s.fill[p] as int);
}

/// The column (or row) of a plane that a pixel looks at.
spec fn looked_at(p: int, v: int, shift: u32) -> int {
    if p == 0 || shift == 0 {
        v
    } else {
        v / 2
    }
}

proof fn lemma_looked_at(p: int, v: int, shift: u32, off: int, size: int)
    requires
        p != 0 && shift != 0 ==> off % 2 == 0 && size % 2 == 0,
    ensures
        ({
            let l = luma_pos(p, looked_at(p, v, shift), shift);
            &&& (off <= l < off + size) == (off <= v < off + size)
            &&& p != 0 && shift != 0 ==> (l - off) / 2 == (v - off) / 2
            &&& p == 0 || shift == 0 ==> l == v
        }),
{
}

/// The uppermost input is the one seen.
proof fn lemma_uppermost(s: Scene, k: int, i: int, p: int, x: int, y: int)
    requires
        0 <= i < k <= s.inputs.len(),
        ({
            let lx = luma_pos(p, x, s.format.chroma.shift_x());
            let ly = luma_pos(p, y, s.format.chroma.shift_y());
            s.covers(i, lx, ly) && forall|j: int| i < j < k ==> !#[trigger] s.covers(j, lx, ly)
        }),
    ensures
        top(s, k, p, x, y) == (if s.input_sample(i, p, x, y) < s.max {
            s.input_sample(i, p, x, y)
        } else {
            s.max
        }),
    decreases k,
{
    if k - 1 > i {
        let lx = luma_pos(p, x, s.format.chroma.shift_x());
        let ly = luma_pos(p, y, s.format.chroma.shift_y());
        assert(!s.covers(k - 1, lx, ly));
        lemma_uppermost(s, k - 1, i, p, x, y);
    }
}

/// Where no input lies, the fill is seen.
proof fn lemma_bare(s: Scene, k: int, p: int, x: int, y: int)
    requires
        0 <= k <= s.inputs.len(),
        ({
            let lx = luma_pos(p, x, s.format.chroma.shift_x());
            let ly = luma_pos(p, y, s.format.chroma.shift_y());
            forall|j: int| 0 <= j < k ==> !#[trigger] s.covers(j, lx, ly)
        }),
    ensures
        top(s, k, p, x, y) == s.fill[p],
    decreases k,
{
    if k > 0 {
        let lx = luma_pos(p, x, s.format.chroma.shift_x());
        let ly = luma_pos(p, y, s.format.chroma.shift_y());
        assert(!s.covers(k - 1, lx, ly));
        lemma_bare(s, k - 1, p, x, y);
    }
}

/// The scene of an opaque overlay.
proof fn lemma_opaque_scene(d: OverlayModel, inputs: Seq<InputModel>, colr: Option<ColrModel>)
    requires
        overlay_picture(d, inputs, colr) is Ok,
        d.canvas_fill[3] == 65535,
        forall|i: int|
            0 <= i < inputs.len() ==> (#[trigger] inputs[i]).frame.valid()
                && !inputs[i].frame.format.has_alpha,
    ensures
        ({
            let s = scene_of(d, inputs, colr);
            &&& s.wf()
            &&& opaque(s)
            &&& !s.format.has_alpha
            &&& 255 <= s.max <= 65535
        }),
{
    let s = scene_of(d, inputs, colr);
    lemma_scene(d, inputs, colr);
    assert(inputs[0].frame.valid());
    lemma_max(s.format.bit_depth);
    assert((65535 * s.max + 32767) / 65535 == s.max);
}

/// What is seen of the composed picture.
proof fn lemma_seen(
    d: OverlayModel,
    inputs: Seq<InputModel>,
    colr: Option<ColrModel>,
    out: Picture,
    p: int,
    x: int,
    y: int,
)
    requires
        overlay_picture(d, inputs, colr) == Ok::<Picture, ErrorKind>(out),
        d.canvas_fill[3] == 65535,
        forall|i: int|
            0 <= i < inputs.len() ==> (#[trigger] inputs[i]).frame.valid()
                && !inputs[i].frame.format.has_alpha,
        0 <= p < 3,
        p == 0 || inputs[0].frame.format.chroma != Chroma::Mono,
        inside(out, x, y),
    ensures
        ({
            let s = scene_of(d, inputs, colr);
            let qx = looked_at(p, x, s.format.chroma.shift_x());
            let qy = looked_at(p, y, s.format.chroma.shift_y());
            seen(out, p, x, y) == top(s, inputs.len() as int, p, qx, qy)
        }),
{
    let s = scene_of(d, inputs, colr);
    lemma_opaque_scene(d, inputs, colr);
    let qx = looked_at(p, x, s.format.chroma.shift_x());
    let qy = looked_at(p, y, s.format.chroma.shift_y());
    assert(s.format.has(s.width, s.height, p, qx, qy));
    lemma_result(s, p, qx, qy);
}

/// An input as it is painted, at the pixel looked at.
proof fn lemma_input_seen(
    d: OverlayModel,
    inputs: Seq<InputModel>,
    colr: Option<ColrModel>,
    i: int,
    p: int,
    x: int,
    y: int,
)
    requires
        overlay_picture(d, inputs, colr) is Ok,
        scene_of(d, inputs, colr).wf(),
        0 <= i < inputs.len(),
        inputs[i].frame.valid(),
        0 <= p < 3,
        p == 0 || inputs[0].frame.format.chroma != Chroma::Mono || scene_of(d, inputs, colr).promote,
        lies_over(d, inputs, i, x, y),
    ensures
        ({
            let s = scene_of(d, inputs, colr);
            let qx = looked_at(p, x, s.format.chroma.shift_x());
            let qy = looked_at(p, y, s.format.chroma.shift_y());
            s.input_sample(i, p, qx, qy) == seen(
                inputs[i].frame,
                p,
                x - d.offsets[i].0,
                y - d.offsets[i].1,
            )
        }),
{
    let s = scene_of(d, inputs, colr);
    let f = inputs[i].frame;
    assert(s.input_ok(i));
    lemma_looked_at(p, x, s.format.chroma.shift_x(), d.offsets[i].0 as int, f.width as int);
    lemma_looked_at(p, y, s.format.chroma.shift_y(), d.offsets[i].1 as int, f.height as int);
    if s.promote {
        law_promoted_looks_the_same(f);
        assert(seen(f.promoted(), p, x - d.offsets[i].0, y - d.offsets[i].1) == seen(
            f,
            p,
            x - d.offsets[i].0,
            y - d.offsets[i].1,
        ));
    }
}

/// Where inputs cover the pixel in the scene.
proof fn lemma_covers(d: OverlayModel, inputs: Seq<InputModel>, colr: Option<ColrModel>, i: int, p: int, x: int, y: int)
    requires
        scene_of(d, inputs, colr).wf(),
        0 <= i < inputs.len(),
    ensures
        ({
            let s = scene_of(d, inputs, colr);
            let lx = luma_pos(
                p,
                looked_at(p, x, s.format.chroma.shift_x()),
                s.format.chroma.shift_x(),
            );
            let ly = luma_pos(
                p,
                looked_at(p, y, s.format.chroma.shift_y()),
                s.format.chroma.shift_y(),
            );
            s.covers(i, lx, ly) == lies_over(d, inputs, i, x, y)
        }),
{
    let s = scene_of(d, inputs, colr);
    let f = inputs[i].frame;
    assert(s.input_ok(i));
    lemma_looked_at(p, x, s.format.chroma.shift_x(), d.offsets[i].0 as int, f.width as int);
    lemma_looked_at(p, y, s.format.chroma.shift_y(), d.offsets[i].1 as int, f.height as int);
}

/// On an opaque canvas, with inputs without alpha, every pixel shows the uppermost
/// input that lies over it, in luma and both chroma planes alike, and the fill colour
/// where no input lies. The canvas has the size asked for, the depth of the inputs and
/// no alpha plane.
pub proof fn law_opaque_overlay(
    d: OverlayModel,
    inputs: Seq<InputModel>,
    colr: Option<ColrModel>,
    out: Picture,
)
    requires
        overlay_picture(d, inputs, colr) == Ok::<Picture, ErrorKind>(out),
        d.canvas_fill[3] == 65535,
        forall|i: int|
            0 <= i < inputs.len() ==> (#[trigger] inputs[i]).frame.valid()
                && !inputs[i].frame.format.has_alpha,
    ensures
        out.width == d.output_width,
        out.height == d.output_height,
        out.format.bit_depth == inputs[0].frame.format.bit_depth,
        !out.format.has_alpha,
        forall|p: int, x: int, y: int, i: int|
            0 <= p < 3 && inside(out, x, y) && uppermost(d, inputs, i, x, y)
                ==> #[trigger] seen(out, p, x, y) == held(
                #[trigger] seen(inputs[i].frame, p, x - d.offsets[i].0, y - d.offsets[i].1),
                out.format.bit_depth,
            ),
        forall|p: int, x: int, y: int|
            0 <= p < 3 && inside(out, x, y) && (forall|i: int|
                0 <= i < inputs.len() ==> !#[trigger] lies_over(d, inputs, i, x, y)) ==> #[trigger] seen(
                out,
                p,
                x,
                y,
            ) == ({
                let fill = [d.canvas_fill[0], d.canvas_fill[1], d.canvas_fill[2]];
                let m = matrix_of(colr);
                let v = fill_values(fill, out.format.bit_depth as nat, m.0, m.1);
                if p == 0 {
                    v.0
                } else if out.format.chroma == Chroma::Mono {
                    pow2((out.format.bit_depth - 1) as nat) as int
                } else if p == 1 {
                    v.1
                } else {
                    v.2
                }
            }),
{
    let s = scene_of(d, inputs, colr);
    lemma_opaque_scene(d, inputs, colr);
    let n = inputs.len() as int;
    assert(inputs[0].frame.valid());
    lemma_mid(s.format.bit_depth);
    let fill = [d.canvas_fill[0], d.canvas_fill[1], d.canvas_fill[2]];
    let m = matrix_of(colr);
    crate::compose::fill::lemma_fill_bound(fill, s.format.bit_depth as nat, m.0, m.1);
    assert forall|p: int, x: int, y: int, i: int|
        0 <= p < 3 && inside(out, x, y) && uppermost(d, inputs, i, x, y) implies #[trigger] seen(
        out,
        p,
        x,
        y,
    ) == held(
        #[trigger] seen(inputs[i].frame, p, x - d.offsets[i].0, y - d.offsets[i].1),
        out.format.bit_depth,
    ) by {
        crate::compose::overlay::lemma_inputs(inputs, 0, i);
        if p != 0 && inputs[0].frame.format.chroma == Chroma::Mono {
            assert(!any_alpha(inputs));
        } else {
            let qx = looked_at(p, x, s.format.chroma.shift_x());
            let qy = looked_at(p, y, s.format.chroma.shift_y());
            let lx = luma_pos(p, qx, s.format.chroma.shift_x());
            let ly = luma_pos(p, qy, s.format.chroma.shift_y());
            lemma_seen(d, inputs, colr, out, p, x, y);
            assert(inputs[i].frame.valid());
            lemma_covers(d, inputs, colr, i, p, x, y);
            assert forall|j: int| i < j < n implies !#[trigger] s.covers(j, lx, ly) by {
                lemma_covers(d, inputs, colr, j, p, x, y);
                assert(!lies_over(d, inputs, j, x, y));
            }
            lemma_uppermost(s, n, i, p, qx, qy);
            lemma_input_seen(d, inputs, colr, i, p, x, y);
        }
    }
    assert forall|p: int, x: int, y: int|
        0 <= p < 3 && inside(out, x, y) && (forall|i: int|
            0 <= i < inputs.len() ==> !#[trigger] lies_over(d, inputs, i, x, y)) implies #[trigger] seen(
        out,
        p,
        x,
        y,
    ) == ({
        let v = fill_values(fill, out.format.bit_depth as nat, m.0, m.1);
        if p == 0 {
            v.0
        } else if out.format.chroma == Chroma::Mono {
            pow2((out.format.bit_depth - 1) as nat) as int
        } else if p == 1 {
            v.1
        } else {
            v.2
        }
    }) by {
        if p != 0 && inputs[0].frame.format.chroma == Chroma::Mono {
            assert(!any_alpha(inputs));
        } else {
            let qx = looked_at(p, x, s.format.chroma.shift_x());
            let qy = looked_at(p, y, s.format.chroma.shift_y());
            let lx = luma_pos(p, qx, s.format.chroma.shift_x());
            let ly = luma_pos(p, qy, s.format.chroma.shift_y());
            lemma_seen(d, inputs, colr, out, p, x, y);
            assert forall|j: int| 0 <= j < n implies !#[trigger] s.covers(j, lx, ly) by {
                lemma_covers(d, inputs, colr, j, p, x, y);
                assert(!lies_over(d, inputs, j, x, y));
            }
            lemma_bare(s, n, p, qx, qy);
            assert(p == 0 || p == 1 || p == 2);
        }
    }
}

/// One opaque input of the size of the canvas, at its origin, comes out as it is, plane
/// by plane; its sides are even where chroma is halved.
pub proof fn law_one_input_is_shown(d: OverlayModel, input: InputModel, colr: Option<ColrModel>, out: Picture)
    requires
        overlay_picture(d, seq![input], colr) == Ok::<Picture, ErrorKind>(out),
        d.canvas_fill[3] == 65535,
        input.frame.valid(),
        input.frame.bounded(),
        !input.frame.format.has_alpha,
        d.offsets == seq![(0i32, 0i32)],
        d.output_width == input.frame.width,
        d.output_height == input.frame.height,
        forall|p: int, x: int, y: int|
            #[trigger] (input.frame.at)(p, x, y) < pow2(input.frame.format.bit_depth as nat),
        match input.frame.format.chroma {
            Chroma::Yuv420 => d.output_width % 2 == 0 && d.output_height % 2 == 0,
            Chroma::Yuv422 => d.output_width % 2 == 0,
            _ => true,
        },
    ensures
        out == input.frame,
{
    let inputs = seq![input];
    let s = scene_of(d, inputs, colr);
    let f = input.frame;
    assert forall|i: int| 0 <= i < inputs.len() implies (#[trigger] inputs[i]).frame.valid()
        && !inputs[i].frame.format.has_alpha by {}
    lemma_opaque_scene(d, inputs, colr);
    assert(inputs[0] == input && d.offsets[0] == (0i32, 0i32));
    assert(!s.promote);
    assert(s.format == f.format);
    assert forall|p: int, x: int, y: int| (out.at)(p, x, y) == #[trigger] (f.at)(p, x, y) by {
        if f.format.has(f.width, f.height, p, x, y) {
            assert(0 <= p < 3);
            lemma_result(s, p, x, y);
            lemma_uppermost(s, 1, 0, p, x, y);
            assert((f.at)(p, x, y) < pow2(f.format.bit_depth as nat));
        }
    }
    assert(out.at =~= f.at);
}

/// A division rounded to the nearest is off by at most half the divisor.
proof fn lemma_nearest(v: int, a: int)
    requires
        a > 0,
        0 <= v,
    ensures
        ({
            let q = (v + a / 2) / a;
            &&& -a <= 2 * (q * a - v) <= a
            &&& 0 <= q
        }),
{
    let q = (v + a / 2) / a;
    vstd::arithmetic::div_mod::lemma_fundamental_div_mod(v + a / 2, a);
    assert(q * a == a * q) by (nonlinear_arith);
    assert(0 <= q) by (nonlinear_arith)
        requires
            q == (v + a / 2) / a,
            0 <= v,
            a > 0,
    ;
}

/// The scene of one input with alpha.
proof fn lemma_alpha_scene(d: OverlayModel, input: InputModel, colr: Option<ColrModel>)
    requires
        overlay_picture(d, seq![input], colr) is Ok,
        input.frame.valid(),
        input.frame.format.has_alpha,
        crate::compose::overlay::alpha_in_range(
            input.frame,
            d.offsets[0],
            (d.output_width, d.output_height),
        ),
    ensures
        ({
            let s = scene_of(d, seq![input], colr);
            &&& s.wf()
            &&& s.promote
            &&& s.format.chroma == Chroma::Yuv444
            &&& s.inputs == seq![input]
            &&& 255 <= s.max <= 65535
            &&& s.max == pow2(input.frame.format.bit_depth as nat) - 1
        }),
{
    let inputs = seq![input];
    assert(inputs[0].frame.format.has_alpha);
    assert(any_alpha(inputs));
    lemma_scene(d, inputs, colr);
    lemma_max(input.frame.format.bit_depth);
}

/// One input with an alpha plane over a canvas (§6.9.1): with `a` its opacity at a
/// pixel, `c` that of the canvas and `max` full opacity, the result has the opacity
/// `a + c (1 - a / max)`, and shows the input and the fill weighted by what each
/// contributes to it; of a pre-multiplied input the sample is not weighted again.
#[verifier::rlimit(60)]
pub proof fn law_blended_input(
    d: OverlayModel,
    input: InputModel,
    colr: Option<ColrModel>,
    out: Picture,
    p: int,
    x: int,
    y: int,
)
    requires
        overlay_picture(d, seq![input], colr) == Ok::<Picture, ErrorKind>(out),
        input.frame.valid(),
        input.frame.format.has_alpha,
        crate::compose::overlay::alpha_in_range(
            input.frame,
            d.offsets[0],
            (d.output_width, d.output_height),
        ),
        0 <= p < 3,
        inside(out, x, y),
        lies_over(d, seq![input], 0, x, y),
    ensures
        ({
            let max = pow2(input.frame.format.bit_depth as nat) - 1;
            let (u, v) = (x - d.offsets[0].0, y - d.offsets[0].1);
            let (m, a) = (seen(input.frame, p, u, v), seen_opacity(input.frame, u, v));
            let c = (d.canvas_fill[3] * max + 32767) / 65535;
            let k = matrix_of(colr);
            let w = fill_values(
                [d.canvas_fill[0], d.canvas_fill[1], d.canvas_fill[2]],
                input.frame.format.bit_depth as nat,
                k.0,
                k.1,
            );
            let f = if p == 0 {
                w.0
            } else if p == 1 {
                w.1
            } else {
                w.2
            };
            let (r, o) = (seen(out, p, x, y), seen_opacity(out, x, y));
            let pre = if input.premultiplied {
                m * max
            } else {
                m * a
            };
            &&& 0 <= a <= max && 0 <= c <= max && 0 <= o <= max
            &&& out.format.has_alpha == (c < max)
            &&& -max <= 2 * (max * o - (max * a + c * (max - a))) <= max
            &&& o == 0 ==> r == f
            &&& o > 0 && r < max && pre <= max * (max - 1) ==> -(max * o + max) <= 2 * (max * (r * o)
                - (max * pre + (f * c) * (max - a))) <= max * o + max
        }),
{
    let inputs = seq![input];
    let s = scene_of(d, inputs, colr);
    let (u, v) = (x - d.offsets[0].0, y - d.offsets[0].1);
    let max = s.max;
    lemma_alpha_scene(d, input, colr);
    assert(inputs[0] == input);
    assert(s.input_ok(0));
    lemma_input_seen(d, inputs, colr, 0, p, x, y);
    law_promoted_looks_the_same(input.frame);
    let a = s.alpha(0, x, y);
    assert(a == seen_opacity(input.frame.promoted(), u, v));
    assert(seen_opacity(input.frame.promoted(), u, v) == seen_opacity(input.frame, u, v));
    crate::compose::overlay::lemma_source_alpha(s, 0, x, y);
    let m = s.input_sample(0, p, x, y);
    let c = s.fill_alpha;
    let f = s.fill[p] as int;
    let k = matrix_of(colr);
    crate::compose::fill::lemma_fill_bound(
        [d.canvas_fill[0], d.canvas_fill[1], d.canvas_fill[2]],
        s.format.bit_depth as nat,
        k.0,
        k.1,
    );
    assert(p == 0 || p == 1 || p == 2);
    assert(s.fill[p] <= s.max);
    assert(s.format.has(s.width, s.height, p, x, y));
    assert(s.covers(0, x, y));
    assert(s.opacity(0, x, y) == c);
    assert(s.colour(0, p, x, y) == f * c);
    let o = s.opacity(1, x, y);
    // Opacity.
    let q = (c * (max - a) + max / 2) / max;
    assert(0 <= c * (max - a) <= max * max) by (nonlinear_arith)
        requires
            0 <= c <= max,
            0 <= a <= max,
    ;
    lemma_nearest(c * (max - a), max);
    assert(c * (max - a) <= max * (max - a)) by (nonlinear_arith)
        requires
            c <= max,
            a <= max,
    ;
    assert(q <= max - a) by (nonlinear_arith)
        requires
            2 * (q * max) <= 2 * (max * (max - a)) + max,
            max >= 255,
    ;
    assert(o == a + q);
    assert(max * o == max * a + q * max) by (nonlinear_arith)
        requires
            o == a + q,
    ;
    if s.format.has_alpha {
        assert(s.format.has(s.width, s.height, 3, x, y));
        assert(s.format.is_alpha(3));
    } else {
        // An opaque canvas stays opaque.
        assert(c == max);
        assert(q == max - a) by (nonlinear_arith)
            requires
                -max <= 2 * (q * max - max * (max - a)) <= max,
                q <= max - a,
                max >= 255,
        ;
    }
    // Colour.
    let b = f * c;
    assert(0 <= b && 0 <= b * (max - a)) by (nonlinear_arith)
        requires
            0 <= f,
            0 <= c,
            0 <= max - a,
            b == f * c,
    ;
    lemma_nearest(b * (max - a), max);
    let t = (b * (max - a) + max / 2) / max;
    let pre = if input.premultiplied {
        m * max
    } else {
        m * a
    };
    assert(0 <= pre) by (nonlinear_arith)
        requires
            0 <= m,
            0 <= a,
            0 <= max,
            pre == m * max || pre == m * a,
    ;
    let z = s.colour(1, p, x, y);
    assert(z == blended(b, m, a, input.premultiplied, max));
    assert(s.plane_opacity(p, x, y) == o);
    let r = s.result(p, x, y);
    assert(r == resolved(z, o, f, max));
    if o > 0 {
        assert(0 <= z);
        lemma_nearest(z, o);
        assert(0 <= r <= max);
        if r < max && pre <= max * (max - 1) {
            lemma_not_held(z, pre, t, o, max, (z + o / 2) / o);
            assert(max * (r * o) - max * z == max * (r * o - z)) by (nonlinear_arith);
            assert(max * z == max * pre + t * max) by (nonlinear_arith)
                requires
                    z == pre + t,
            ;
            let e = r * o - z;
            assert(-(max * o) <= 2 * (max * e) <= max * o) by (nonlinear_arith)
                requires
                    -o <= 2 * e <= o,
                    max > 0,
            ;
        }
    }
    assert(seen(out, p, x, y) == r);
}

/// A value whose quotient is below the largest is not held down.
proof fn lemma_not_held(z: int, pre: int, t: int, o: int, max: int, q: int)
    requires
        z == (if pre + t < max * max {
            pre + t
        } else {
            max * max
        }),
        max >= 255,
        0 < o <= max,
        q == (z + o / 2) / o,
        q < max,
    ensures
        z == pre + t,
{
    if pre + t >= max * max {
        assert(q >= max) by (nonlinear_arith)
            requires
                q == (max * max + o / 2) / o,
                0 < o <= max,
                max >= 255,
        ;
    }
}

/// A fully transparent input paints nothing: leaving out a last input whose opacity is
/// zero everywhere gives the same picture. (Another input has an alpha plane, so that
/// both are composed in the same layout.)
pub proof fn law_transparent_input(
    d: OverlayModel,
    inputs: Seq<InputModel>,
    last: InputModel,
    at: (i32, i32),
    colr: Option<ColrModel>,
    out: Picture,
    without: Picture,
)
    requires
        any_alpha(inputs),
        inputs.len() == d.offsets.len(),
        overlay_picture(
            OverlayModel { offsets: d.offsets.push(at), ..d },
            inputs.push(last),
            colr,
        ) == Ok::<Picture, ErrorKind>(out),
        overlay_picture(d, inputs, colr) == Ok::<Picture, ErrorKind>(without),
        8 <= inputs[0].frame.format.bit_depth <= 16,
        8 <= last.frame.format.bit_depth <= 16,
        last.frame.format.has_alpha,
        !last.premultiplied,
        forall|x: int, y: int|
            inside(last.frame, x, y) ==> #[trigger] seen_opacity(last.frame, x, y) == 0,
    ensures
        forall|p: int, x: int, y: int|
            0 <= p < 3 && inside(out, x, y) ==> #[trigger] seen(out, p, x, y) == seen(
                without,
                p,
                x,
                y,
            ),
        forall|x: int, y: int|
            inside(out, x, y) ==> #[trigger] seen_opacity(out, x, y) == seen_opacity(without, x, y),
        out.width == without.width,
        out.height == without.height,
        out.format == without.format,
{
    let e = OverlayModel { offsets: d.offsets.push(at), ..d };
    let all = inputs.push(last);
    let (s, t) = (scene_of(e, all, colr), scene_of(d, inputs, colr));
    let n = inputs.len() as int;
    let w = choose|i: int| 0 <= i < inputs.len() && (#[trigger] inputs[i]).frame.format.has_alpha;
    assert(all[w].frame.format.has_alpha);
    assert(any_alpha(all));
    assert(all[0] == inputs[0]);
    lemma_max(inputs[0].frame.format.bit_depth);
    assert(s.fill =~= t.fill);
    assert(begins_with(s, t));
    let k = matrix_of(colr);
    crate::compose::fill::lemma_fill_bound(
        [d.canvas_fill[0], d.canvas_fill[1], d.canvas_fill[2]],
        s.format.bit_depth as nat,
        k.0,
        k.1,
    );
    assert forall|p: int, x: int, y: int|
        0 <= p < 3 && 0 <= x < s.width && 0 <= y < s.height implies s.colour(n + 1, p, x, y)
        == t.colour(n, p, x, y) && s.opacity(n + 1, x, y) == t.opacity(n, x, y) by {
        lemma_same_inputs(s, t, n, p, x, y);
        if s.covers(n, x, y) {
            law_promoted_looks_the_same(last.frame);
            let (u, v) = (x - at.0, y - at.1);
            assert(all[n] == last && e.offsets[n] == at);
            assert(inside(last.frame, u, v));
            assert(seen_opacity(last.frame.promoted(), u, v) == seen_opacity(last.frame, u, v));
            assert(s.alpha(n, x, y) == 0);
            lemma_nothing_over(s.colour(n, p, x, y), s.input_sample(n, p, x, y), s.max);
            lemma_nothing_over(s.opacity(n, x, y), 0, s.max);
            assert(p == 0 || p == 1 || p == 2);
            assert(s.fill[p] <= s.max);
            let a = d.canvas_fill[3] as int;
            let m = s.max;
            assert(0 <= (a * m + 32767) / 65535 <= m) by (nonlinear_arith)
                requires
                    0 <= a <= 65535,
                    0 <= m,
            ;
            lemma_ranges(s, n, p, x, y);
        }
    }
    assert forall|p: int, x: int, y: int| 0 <= p < 3 && inside(out, x, y) implies #[trigger] seen(
        out,
        p,
        x,
        y,
    ) == seen(without, p, x, y) by {
        assert(s.colour(n + 1, p, x, y) == t.colour(n, p, x, y));
        assert(s.result(p, x, y) == t.result(p, x, y));
    }
    assert forall|x: int, y: int| inside(out, x, y) implies #[trigger] seen_opacity(out, x, y)
        == seen_opacity(without, x, y) by {
        assert(s.colour(n + 1, 0, x, y) == t.colour(n, 0, x, y));
    }
}

/// Painting with no opacity changes nothing.
proof fn lemma_nothing_over(before: int, m: int, max: int)
    requires
        max >= 255,
    ensures
        before <= max * max ==> blended(before, m, 0, false, max) == before,
        before <= max ==> covered_opacity(before, 0, max) == before,
{
    assert(m * 0 == 0) by (nonlinear_arith);
    assert((before * (max - 0) + max / 2) / max == before) by (nonlinear_arith)
        requires
            max >= 255,
    ;
}

/// Values stay within their ranges.
proof fn lemma_ranges(s: Scene, k: int, p: int, x: int, y: int)
    requires
        s.max >= 255,
        0 <= p < 3,
        s.fill[p] <= s.max,
        0 <= s.fill_alpha <= s.max,
    ensures
        s.colour(k, p, x, y) <= s.max * s.max,
        s.opacity(k, x, y) <= s.max,
    decreases k,
{
    if k > 0 {
        lemma_ranges(s, k - 1, p, x, y);
    } else {
        assert(s.fill[p] * s.fill_alpha <= s.max * s.max) by (nonlinear_arith)
            requires
                0 <= s.fill[p] <= s.max,
                0 <= s.fill_alpha <= s.max,
        ;
    }
}

/// A scene holds the inputs of another first.
spec fn begins_with(s: Scene, t: Scene) -> bool {
    forall|i: int|
        0 <= i < t.inputs.len() ==> #[trigger] s.inputs[i] == t.inputs[i] && s.offsets[i]
            == t.offsets[i]
}

/// Scenes that agree on their first inputs agree on what those paint.
proof fn lemma_same_inputs(s: Scene, t: Scene, k: int, p: int, x: int, y: int)
    requires
        0 <= k <= t.inputs.len() <= s.inputs.len(),
        t.inputs.len() <= t.offsets.len() <= s.offsets.len(),
        begins_with(s, t),
        s.promote == t.promote,
        s.format.chroma == t.format.chroma,
        s.max == t.max,
        s.fill == t.fill,
        s.fill_alpha == t.fill_alpha,
    ensures
        s.colour(k, p, x, y) == t.colour(k, p, x, y),
        s.opacity(k, x, y) == t.opacity(k, x, y),
    decreases k,
{
    if k > 0 {
        lemma_same_inputs(s, t, k - 1, p, x, y);
        assert(s.inputs[k - 1] == t.inputs[k - 1]);
    }
}

} // verus!
