//! Overlay composition (ISO/IEC 23008-12 §6.6.2.2, §6.9.1).
use crate::compose::fill::{fill_to_ycbcr, fill_values, lemma_fill_bound, matrix_of, option_colr, to_sample};
use crate::compose::grid::{has_same_layout, same_layout};
use crate::compose::{lemma_reads, needs_444, odd_chroma, pictured};
use crate::derived::{OverlayDescriptor, OverlayModel};
use crate::error::{ErrorKind, HeifError, Outcome, Result};
use crate::image::{
    build_picture, lemma_valid_picture, max_of_depth, picture_of, size_refusal, Chroma, HeifFrame,
    HeifPixelFormat, Picture,
};
use crate::props::{Colr, ColrModel};
use crate::text::{concat, decimal};
use vstd::prelude::*;

verus! {

/// One overlay input: its decoded output image (alpha plane attached
/// when it has an alpha auxiliary) and whether its colour samples are
/// pre-multiplied by that alpha (`prem` reference).
#[derive(Clone, Debug)]
pub struct OverlayInput<'a> {
    /// The input image.
    pub frame: &'a HeifFrame,
    /// `prem` reference present from the master to its alpha.
    pub premultiplied: bool,
}

/// Model of [`OverlayInput`].
pub struct InputModel {
    /// What the input image shows.
    pub frame: Picture,
    /// Whether its colour samples are pre-multiplied.
    pub premultiplied: bool,
}

impl<'a> View for OverlayInput<'a> {
    type V = InputModel;

    open spec fn view(&self) -> InputModel {
        InputModel { frame: self.frame@.picture(), premultiplied: self.premultiplied }
    }
}

/// The models of a list of inputs.
pub open spec fn input_models(v: Seq<OverlayInput>) -> Seq<InputModel> {
    Seq::new(v.len(), |i: int| v[i]@)
}

/// Why the inputs from `i` on do not match the first, `None` when they do.
pub open spec fn input_refusal(inputs: Seq<InputModel>, i: int) -> Option<ErrorKind>
    decreases inputs.len() - i,
{
    if i >= inputs.len() {
        None
    } else if !same_layout(inputs[i].frame, inputs[0].frame) {
        Some(ErrorKind::Unsupported)
    } else {
        input_refusal(inputs, i + 1)
    }
}

/// Whether an input has an alpha plane.
pub open spec fn any_alpha(inputs: Seq<InputModel>) -> bool {
    exists|i: int| 0 <= i < inputs.len() && (#[trigger] inputs[i]).frame.format.has_alpha
}

/// Whether a horizontal offset is odd.
pub open spec fn odd_column(offsets: Seq<(i32, i32)>) -> bool {
    exists|i: int| 0 <= i < offsets.len() && (#[trigger] offsets[i]).0 as int % 2 == 1
}

/// Whether a vertical offset is odd.
pub open spec fn odd_row(offsets: Seq<(i32, i32)>) -> bool {
    exists|i: int| 0 <= i < offsets.len() && (#[trigger] offsets[i]).1 as int % 2 == 1
}

/// Whether an input of odd size meets a subsampled layout.
pub open spec fn odd_input(chroma: Chroma, inputs: Seq<InputModel>) -> bool {
    exists|i: int|
        0 <= i < inputs.len() && odd_chroma(
            chroma,
            (#[trigger] inputs[i]).frame.width % 2 == 1,
            inputs[i].frame.height % 2 == 1,
        )
}

/// Whether the composition goes through 4:4:4: an input has alpha, or an
/// offset or a size is odd for a subsampled layout.
pub open spec fn overlay_promotes(d: OverlayModel, inputs: Seq<InputModel>) -> bool {
    let c = inputs[0].frame.format.chroma;
    any_alpha(inputs) || odd_chroma(
        c,
        odd_column(d.offsets) || d.output_width % 2 == 1,
        odd_row(d.offsets) || d.output_height % 2 == 1,
    ) || odd_input(c, inputs)
}

/// Everything an overlay composition depends on.
pub struct Scene {
    /// Canvas width.
    pub width: u32,
    /// Canvas height.
    pub height: u32,
    /// Layout of the result.
    pub format: HeifPixelFormat,
    /// The inputs, bottom-most first.
    pub inputs: Seq<InputModel>,
    /// Where each input goes.
    pub offsets: Seq<(i32, i32)>,
    /// Whether inputs are promoted to 4:4:4.
    pub promote: bool,
    /// The largest sample value.
    pub max: int,
    /// The fill colour.
    pub fill: [u16; 3],
    /// The opacity of the empty canvas.
    pub fill_alpha: int,
}

/// The opacity of the empty canvas, of `max`.
pub open spec fn canvas_opacity(a: u16, max: int) -> int {
    (a * max + 32767) / 65535
}

/// The scene of an overlay descriptor and its inputs.
pub open spec fn scene_of(
    d: OverlayModel,
    inputs: Seq<InputModel>,
    colr: Option<ColrModel>,
) -> Scene {
    let depth = inputs[0].frame.format.bit_depth;
    let max = max_of_depth(depth);
    let promote = overlay_promotes(d, inputs);
    let a = canvas_opacity(d.canvas_fill[3], max);
    let m = matrix_of(colr);
    let v = fill_values(
        [d.canvas_fill[0], d.canvas_fill[1], d.canvas_fill[2]],
        depth as nat,
        m.0,
        m.1,
    );
    Scene {
        width: d.output_width,
        height: d.output_height,
        format: HeifPixelFormat {
            chroma: if promote {
                Chroma::Yuv444
            } else {
                inputs[0].frame.format.chroma
            },
            bit_depth: depth,
            has_alpha: a < max,
        },
        inputs,
        offsets: d.offsets,
        promote,
        max,
        fill: [to_sample(v.0), to_sample(v.1), to_sample(v.2)],
        fill_alpha: a,
    }
}

/// The luma column (or row) of column `v` of plane `p`.
pub open spec fn luma_pos(p: int, v: int, shift: u32) -> int {
    if p == 0 || shift == 0 {
        v
    } else {
        2 * v
    }
}

impl Scene {
    /// Input `i` as it is painted.
    pub open spec fn source(self, i: int) -> Picture {
        self.inputs[i].frame.promoted_if(self.promote)
    }

    /// Whether input `i` covers the luma position `(x, y)`.
    pub open spec fn covers(self, i: int, x: int, y: int) -> bool {
        let (h, v) = self.offsets[i];
        h <= x < h + self.inputs[i].frame.width && v <= y < v + self.inputs[i].frame.height
    }

    /// The opacity of input `i` at luma position `(x, y)` of the canvas.
    pub open spec fn alpha(self, i: int, x: int, y: int) -> int {
        if self.inputs[i].frame.format.has_alpha {
            (self.source(i).at)(
                self.format.chroma.planes(),
                x - self.offsets[i].0,
                y - self.offsets[i].1,
            ) as int
        } else {
            self.max
        }
    }

    /// The sample of input `i` for column `x` and row `y` of plane `p`.
    pub open spec fn input_sample(self, i: int, p: int, x: int, y: int) -> int {
        let (sx, sy) = (self.format.chroma.shift_x(), self.format.chroma.shift_y());
        let lx = luma_pos(p, x, sx) - self.offsets[i].0;
        let ly = luma_pos(p, y, sy) - self.offsets[i].1;
        (self.source(i).at)(
            p,
            if p == 0 || sx == 0 {
                lx
            } else {
                lx / 2
            },
            if p == 0 || sy == 0 {
                ly
            } else {
                ly / 2
            },
        ) as int
    }

    /// The canvas value of plane `p` at `(x, y)`, pre-multiplied by its opacity
    /// (in `max * max` parts), after the first `k` inputs. §6.9.1: straight
    /// samples are weighted by their alpha, pre-multiplied ones are not.
    pub open spec fn colour(self, k: int, p: int, x: int, y: int) -> int
        decreases k,
    {
        if k <= 0 {
            self.fill[p] * self.fill_alpha
        } else {
            let before = self.colour(k - 1, p, x, y);
            let lx = luma_pos(p, x, self.format.chroma.shift_x());
            let ly = luma_pos(p, y, self.format.chroma.shift_y());
            if self.covers(k - 1, lx, ly) {
                blended(
                    before,
                    self.input_sample(k - 1, p, x, y),
                    self.alpha(k - 1, lx, ly),
                    self.inputs[k - 1].premultiplied,
                    self.max,
                )
            } else {
                before
            }
        }
    }

    /// The canvas opacity at `(x, y)` after the first `k` inputs.
    pub open spec fn opacity(self, k: int, x: int, y: int) -> int
        decreases k,
    {
        if k <= 0 {
            self.fill_alpha
        } else {
            let before = self.opacity(k - 1, x, y);
            if self.covers(k - 1, x, y) {
                covered_opacity(before, self.alpha(k - 1, x, y), self.max)
            } else {
                before
            }
        }
    }

    /// The opacity at `(x, y)` of plane `p`: the mean over the luma block.
    pub open spec fn plane_opacity(self, p: int, x: int, y: int) -> int {
        let n = self.inputs.len() as int;
        let (sx, sy) = (self.format.chroma.shift_x(), self.format.chroma.shift_y());
        if p == 0 || sx == 0 {
            self.opacity(n, x, y)
        } else if sy == 0 {
            (self.opacity(n, 2 * x, y) + self.opacity(n, 2 * x + 1, y) + 1) / 2
        } else {
            (self.opacity(n, 2 * x, 2 * y) + self.opacity(n, 2 * x + 1, 2 * y) + self.opacity(
                n,
                2 * x,
                2 * y + 1,
            ) + self.opacity(n, 2 * x + 1, 2 * y + 1) + 2) / 4
        }
    }

    /// The sample of the result: the canvas value without its opacity, the fill
    /// colour where nothing is visible; the opacity in the alpha plane.
    pub open spec fn result(self, p: int, x: int, y: int) -> int {
        if self.format.is_alpha(p) {
            self.opacity(self.inputs.len() as int, x, y)
        } else {
            resolved(
                self.colour(self.inputs.len() as int, p, x, y),
                self.plane_opacity(p, x, y),
                self.fill[p] as int,
                self.max,
            )
        }
    }

    /// The scene is one that can be composed.
    pub open spec fn wf(self) -> bool {
        &&& self.format.wf()
        &&& self.max == max_of_depth(self.format.bit_depth)
        &&& size_refusal(self.width, self.height) is None
        &&& self.inputs.len() == self.offsets.len()
        &&& 0 <= self.fill_alpha <= self.max
        &&& forall|p: int| 0 <= p < 3 ==> (#[trigger] self.fill[p]) <= self.max
        &&& forall|i: int| 0 <= i < self.inputs.len() ==> self.input_ok(i)
        &&& self.format.chroma.shift_x() == 1 ==> self.width % 2 == 0
        &&& self.format.chroma.shift_y() == 1 ==> self.height % 2 == 0
        &&& self.promote ==> self.format.chroma == Chroma::Yuv444
    }

    /// Input `i` can be painted: it has the layout of the canvas, and lies on
    /// whole chroma positions.
    pub open spec fn input_ok(self, i: int) -> bool {
        let f = self.inputs[i].frame;
        &&& f.valid()
        &&& alpha_in_range(f, self.offsets[i], (self.width, self.height))
        &&& f.format.bit_depth == self.format.bit_depth
        &&& !self.promote ==> f.format.chroma == self.format.chroma && !f.format.has_alpha
        &&& self.format.chroma.shift_x() == 1 ==> f.width % 2 == 0 && self.offsets[i].0 as int % 2
            == 0
        &&& self.format.chroma.shift_y() == 1 ==> f.height % 2 == 0 && self.offsets[i].1 as int % 2
            == 0
    }
}

/// Whether the alpha samples of a picture that lie on a canvas of the given size hold
/// no more than the bits of the layout, for the picture's place on it.
pub open spec fn alpha_in_range(f: Picture, offset: (i32, i32), size: (u32, u32)) -> bool {
    f.format.has_alpha ==> forall|x: int, y: int|
        0 <= x < f.width && 0 <= y < f.height && 0 <= x + offset.0 < size.0 && 0 <= y + offset.1
            < size.1 ==> (#[trigger] (f.at)(f.format.chroma.planes(), x, y)) <= max_of_depth(
            f.format.bit_depth,
        )
}

/// A canvas value with a sample `m` of opacity `a` painted over it.
pub open spec fn blended(before: int, m: int, a: int, premultiplied: bool, max: int) -> int {
    let term = if premultiplied {
        m * max
    } else {
        m * a
    };
    let v = term + (before * (max - a) + max / 2) / max;
    if v < max * max {
        v
    } else {
        max * max
    }
}

/// The opacity of a canvas with a sample of opacity `a` painted over it.
pub open spec fn covered_opacity(before: int, a: int, max: int) -> int {
    let v = a + (before * (max - a) + max / 2) / max;
    if v < max {
        v
    } else {
        max
    }
}

/// A pre-multiplied value with its opacity divided out.
pub open spec fn resolved(pre: int, a: int, fill: int, max: int) -> int {
    if a == 0 {
        fill
    } else {
        let q = (pre + a / 2) / a;
        if q < max {
            q
        } else {
            max
        }
    }
}

/// The picture an overlay makes up.
pub open spec fn overlay_picture(
    d: OverlayModel,
    inputs: Seq<InputModel>,
    colr: Option<ColrModel>,
) -> Outcome<Picture> {
    if inputs.len() != d.offsets.len() || inputs.len() == 0 {
        Err(ErrorKind::Invalid)
    } else {
        match input_refusal(inputs, 0) {
            Some(e) => Err(e),
            None => match size_refusal(d.output_width, d.output_height) {
                Some(e) => Err(e),
                None => {
                    let s = scene_of(d, inputs, colr);
                    Ok(
                        picture_of(
                            s.width,
                            s.height,
                            s.format,
                            |p: int, x: int, y: int| s.result(p, x, y) as u16,
                        ),
                    )
                },
            },
        }
    }
}

pub(crate) proof fn lemma_max(depth: u8)
    requires
        8 <= depth <= 16,
    ensures
        255 <= max_of_depth(depth) <= 65535,
        depth == 8 ==> max_of_depth(depth) == 255,
{
    vstd::arithmetic::power2::lemma2_to64();
    crate::image::lemma_two_to_bound(16);
    if depth > 8 {
        vstd::arithmetic::power2::lemma_pow2_strictly_increases(8, depth as nat);
    }
}

/// A mean of a value and its share stays in range.
proof fn lemma_share(v: int, top: int, a: int, max: int)
    requires
        0 <= v <= top,
        0 <= a <= max,
        max > 0,
    ensures
        0 <= v * (max - a) <= top * max,
        0 <= (v * (max - a) + max / 2) / max,
{
    assert(0 <= v * (max - a) <= top * max) by (nonlinear_arith)
        requires
            0 <= v <= top,
            0 <= a <= max,
    ;
    assert(0 <= (v * (max - a) + max / 2) / max) by (nonlinear_arith)
        requires
            0 <= v * (max - a),
            max > 0,
    ;
}

pub(crate) proof fn lemma_source_alpha(s: Scene, i: int, x: int, y: int)
    requires
        s.wf(),
        0 <= i < s.inputs.len(),
        s.covers(i, x, y),
        0 <= x < s.width,
        0 <= y < s.height,
    ensures
        0 <= s.alpha(i, x, y) <= s.max,
{
    assert(s.input_ok(i));
    let f = s.inputs[i].frame;
    if f.format.has_alpha {
        let (lx, ly) = (x - s.offsets[i].0, y - s.offsets[i].1);
        let c = f.format.chroma.planes();
        assert((f.at)(c, lx, ly) <= max_of_depth(f.format.bit_depth));
    }
}

proof fn lemma_colour_bound(s: Scene, k: int, p: int, x: int, y: int)
    requires
        s.wf(),
        0 <= k <= s.inputs.len(),
        0 <= p < 3,
        k > 0 ==> 0 <= luma_pos(p, x, s.format.chroma.shift_x()) < s.width,
        k > 0 ==> 0 <= luma_pos(p, y, s.format.chroma.shift_y()) < s.height,
    ensures
        0 <= s.colour(k, p, x, y) <= s.max * s.max,
    decreases k,
{
    lemma_max(s.format.bit_depth);
    if k <= 0 {
        assert(s.fill[p] <= s.max);
        assert(0 <= s.fill[p] * s.fill_alpha <= s.max * s.max) by (nonlinear_arith)
            requires
                0 <= s.fill[p] <= s.max,
                0 <= s.fill_alpha <= s.max,
        ;
    } else {
        lemma_colour_bound(s, k - 1, p, x, y);
        let lx = luma_pos(p, x, s.format.chroma.shift_x());
        let ly = luma_pos(p, y, s.format.chroma.shift_y());
        if s.covers(k - 1, lx, ly) {
            lemma_source_alpha(s, k - 1, lx, ly);
            let a = s.alpha(k - 1, lx, ly);
            let m = s.input_sample(k - 1, p, x, y);
            lemma_share(s.colour(k - 1, p, x, y), s.max * s.max, a, s.max);
            assert(0 <= m * s.max && 0 <= m * a && 0 <= s.max * s.max) by (nonlinear_arith)
                requires
                    0 <= m,
                    0 <= a,
                    0 <= s.max,
            ;
        }
    }
}

proof fn lemma_opacity_bound(s: Scene, k: int, x: int, y: int)
    requires
        s.wf(),
        0 <= k <= s.inputs.len(),
        0 <= x < s.width,
        0 <= y < s.height,
    ensures
        0 <= s.opacity(k, x, y) <= s.max,
    decreases k,
{
    lemma_max(s.format.bit_depth);
    if k > 0 {
        lemma_opacity_bound(s, k - 1, x, y);
        if s.covers(k - 1, x, y) {
            lemma_source_alpha(s, k - 1, x, y);
            lemma_share(s.opacity(k - 1, x, y), s.max, s.alpha(k - 1, x, y), s.max);
        }
    }
}

fn blend(before: u64, m: u16, a: u64, premultiplied: bool, max: u64) -> (r: u64)
    requires
        255 <= max <= 65535,
        before <= max * max,
        a <= max,
    ensures
        r == blended(before as int, m as int, a as int, premultiplied, max as int),
{
    proof {
        lemma_share(before as int, max * max, a as int, max as int);
        assert(0 <= m * max <= 65535 * 65535 && 0 <= m * a <= 65535 * 65535 && 0 <= max * max
            <= 65535 * 65535 && (max * max) * max <= (65535 * 65535) * 65535) by (nonlinear_arith)
            requires
                0 <= m <= 65535,
                0 <= max <= 65535,
                0 <= a <= max,
        ;
    }
    let term: u64 = if premultiplied {
        m as u64 * max
    } else {
        m as u64 * a
    };
    let share: u64 = (before * (max - a) + max / 2) / max;
    proof {
        assert(share <= before * (max - a) + max / 2) by (nonlinear_arith)
            requires
                share == (before * (max - a) + max / 2) / (max as int),
                max >= 1,
                0 <= before * (max - a),
        ;
    }
    let v: u64 = term + share;
    if v < max * max {
        v
    } else {
        max * max
    }
}

fn cover(before: u64, a: u64, max: u64) -> (r: u64)
    requires
        255 <= max <= 65535,
        before <= max,
        a <= max,
    ensures
        r == covered_opacity(before as int, a as int, max as int),
{
    proof {
        lemma_share(before as int, max as int, a as int, max as int);
        assert(max * max <= 65535 * 65535) by (nonlinear_arith)
            requires
                0 <= max <= 65535,
        ;
    }
    let share: u64 = (before * (max - a) + max / 2) / max;
    proof {
        assert(share <= before * (max - a) + max / 2) by (nonlinear_arith)
            requires
                share == (before * (max - a) + max / 2) / (max as int),
                max >= 1,
                0 <= before * (max - a),
        ;
    }
    let v: u64 = a + share;
    if v < max {
        v
    } else {
        max
    }
}

/// Positions of a plane do not share a cell.
proof fn lemma_cells_apart(w: int, x: int, y: int, i: int, j: int)
    requires
        0 <= x < w,
        0 <= i < w,
        (x, y) != (i, j),
    ensures
        y * w + x != j * w + i,
{
    if y < j {
        assert(y * w + w <= j * w) by (nonlinear_arith)
            requires
                y + 1 <= j,
                w >= 0,
        ;
    } else if j < y {
        assert(j * w + w <= y * w) by (nonlinear_arith)
            requires
                j + 1 <= y,
                w >= 0,
        ;
    }
}

proof fn lemma_cell_inside(w: int, h: int, x: int, y: int)
    requires
        0 <= x < w,
        0 <= y < h,
    ensures
        0 <= y * w + x < w * h,
{
    assert(y * w + w <= w * h && 0 <= y * w) by (nonlinear_arith)
        requires
            0 <= y,
            y + 1 <= h,
            w >= 0,
    ;
}

/// A rectangle of cells.
#[derive(Clone, Copy)]
struct Cells {
    x0: u32,
    y0: u32,
    x1: u32,
    y1: u32,
}

impl Cells {
    spec fn has(self, x: int, y: int) -> bool {
        self.x0 <= x < self.x1 && self.y0 <= y < self.y1
    }
}

/// Replaces every cell of a rectangle of a `w × h` plane.
fn update_cells<F: Fn(u32, u32, u64) -> u64>(
    cells: &mut Vec<u64>,
    w: u32,
    h: u32,
    r: Cells,
    f: F,
    Ghost(g): Ghost<spec_fn(int, int) -> int>,
)
    requires
        old(cells)@.len() == w * h,
        r.x1 <= w,
        r.y1 <= h,
        forall|x: u32, y: u32|
            r.has(x as int, y as int) ==> call_requires(
                f,
                (x, y, #[trigger] old(cells)@[y * w + x]),
            ),
        forall|x: u32, y: u32, v: u64|
            r.has(x as int, y as int) && #[trigger] call_ensures(
                f,
                (x, y, old(cells)@[y * w + x]),
                v,
            ) ==> v == g(x as int, y as int),
    ensures
        final(cells)@.len() == old(cells)@.len(),
        forall|x: int, y: int|
            0 <= x < w && 0 <= y < h ==> (if r.has(x, y) {
                #[trigger] final(cells)@[y * w + x] == g(x, y)
            } else {
                final(cells)@[y * w + x] == old(cells)@[y * w + x]
            }),
{
    let ghost start = cells@;
    assert(cells.len() == cells@.len());
    let mut y: u32 = r.y0;
    while y < r.y1
        invariant
            r.y0 <= y,
            y <= r.y1 || y == r.y0,
            r.x1 <= w,
            r.y1 <= h,
            cells@.len() == start.len(),
            start.len() == w * h,
            w * h <= usize::MAX,
            start == old(cells)@,
            forall|i: u32, j: u32|
                r.has(i as int, j as int) ==> call_requires(f, (i, j, #[trigger] start[j * w + i])),
            forall|i: u32, j: u32, v: u64|
                r.has(i as int, j as int) && #[trigger] call_ensures(
                    f,
                    (i, j, start[j * w + i]),
                    v,
                ) ==> v == g(i as int, j as int),
            forall|i: int, j: int|
                0 <= i < w && 0 <= j < h ==> (if r.has(i, j) && j < y {
                    #[trigger] cells@[j * w + i] == g(i, j)
                } else {
                    cells@[j * w + i] == start[j * w + i]
                }),
        decreases r.y1 - y,
    {
        let mut x: u32 = r.x0;
        while x < r.x1
            invariant
                r.y0 <= y < r.y1,
                r.x0 <= x,
                x <= r.x1 || x == r.x0,
                r.x1 <= w,
                r.y1 <= h,
                cells@.len() == start.len(),
                start.len() == w * h,
                w * h <= usize::MAX,
                forall|i: u32, j: u32|
                    r.has(i as int, j as int) ==> call_requires(
                        f,
                        (i, j, #[trigger] start[j * w + i]),
                    ),
                forall|i: u32, j: u32, v: u64|
                    r.has(i as int, j as int) && #[trigger] call_ensures(
                        f,
                        (i, j, start[j * w + i]),
                        v,
                    ) ==> v == g(i as int, j as int),
                forall|i: int, j: int|
                    0 <= i < w && 0 <= j < h ==> (if r.has(i, j) && (j < y || (j == y && i < x)) {
                        #[trigger] cells@[j * w + i] == g(i, j)
                    } else {
                        cells@[j * w + i] == start[j * w + i]
                    }),
            decreases r.x1 - x,
        {
            proof {
                lemma_cell_inside(w as int, h as int, x as int, y as int);
                assert(0 <= y * w) by (nonlinear_arith)
                    requires
                        0 <= y,
                        0 <= w,
                ;
                assert(r.has(x as int, y as int));
                assert(cells@[y * w + x] == start[y * w + x]);
            }
            let k: usize = y as usize * w as usize + x as usize;
            let ghost before = cells@;
            let v: u64 = f(x, y, cells[k]);
            cells.set(k, v);
            proof {
                assert forall|i: int, j: int| 0 <= i < w && 0 <= j < h implies (if r.has(i, j) && (j
                    < y || (j == y && i < x + 1)) {
                    #[trigger] cells@[j * w + i] == g(i, j)
                } else {
                    cells@[j * w + i] == start[j * w + i]
                }) by {
                    lemma_cell_inside(w as int, h as int, i, j);
                    if (i, j) != (x as int, y as int) {
                        lemma_cells_apart(w as int, x as int, y as int, i, j);
                        assert(cells@[j * w + i] == before[j * w + i]);
                    }
                }
            }
            x = x + 1;
        }
        y = y + 1;
    }
}

/// What the cells of a `w × h` plane hold.
spec fn cells_hold(cells: Seq<u64>, w: u32, h: u32, g: spec_fn(int, int) -> int) -> bool {
    &&& cells.len() == w * h
    &&& forall|x: int, y: int|
        0 <= x < w && 0 <= y < h ==> #[trigger] cells[y * w + x] == g(x, y)
}

/// A plane of `w × h` equal cells.
fn equal_cells(w: u32, h: u32, v: u64, Ghost(g): Ghost<spec_fn(int, int) -> int>) -> (r: Vec<u64>)
    requires
        w * h <= usize::MAX,
        forall|x: int, y: int| 0 <= x < w && 0 <= y < h ==> #[trigger] g(x, y) == v,
    ensures
        cells_hold(r@, w, h, g),
{
    proof {
        assert(0 <= w * h) by (nonlinear_arith)
            requires
                0 <= w,
                0 <= h,
        ;
    }
    let n: usize = w as usize * h as usize;
    let mut out: Vec<u64> = Vec::new();
    for i in 0..n
        invariant
            out@.len() == i,
            forall|k: int| 0 <= k < i ==> out@[k] == v,
    {
        out.push(v);
    }
    proof {
        assert forall|x: int, y: int| 0 <= x < w && 0 <= y < h implies #[trigger] out@[y * w + x]
            == g(x, y) by {
            lemma_cell_inside(w as int, h as int, x, y);
            assert(g(x, y) == v);
        }
    }
    out
}

/// Whether a span of `size` luma positions from `off` on covers column (or row)
/// `v` of a plane.
spec fn span_covers(off: i32, size: u32, v: int, half: bool) -> bool {
    off <= (if half {
        2 * v
    } else {
        v
    }) < off + size
}

/// The columns (or rows) of a plane that a span of `size` luma positions from
/// `off` on covers, of `limit` luma positions in all.
fn covered_span(off: i32, size: u32, limit: u32, half: bool) -> (r: (u32, u32))
    requires
        half ==> off as int % 2 == 0 && size % 2 == 0 && limit % 2 == 0,
    ensures
        r.0 <= r.1,
        r.1 <= (if half {
            limit / 2
        } else {
            limit
        }),
        forall|v: int|
            0 <= v < (if half {
                limit / 2
            } else {
                limit
            }) ==> (#[trigger] span_covers(off, size, v, half) <==> r.0 <= v < r.1),
{
    let end: i64 = off as i64 + size as i64;
    if end <= 0 || off as i64 >= limit as i64 {
        return (0, 0);
    }
    let lo: u32 = if off < 0 {
        0
    } else {
        off as u32
    };
    let hi: u32 = if end < limit as i64 {
        end as u32
    } else {
        limit
    };
    if lo >= hi {
        return (0, 0);
    }
    if half {
        (lo / 2, hi / 2)
    } else {
        (lo, hi)
    }
}

/// A canvas in the making.
struct Canvas<'a> {
    width: u32,
    height: u32,
    format: HeifPixelFormat,
    inputs: &'a [OverlayInput<'a>],
    offsets: &'a Vec<(i32, i32)>,
    promote: bool,
    promoted: Vec<HeifFrame>,
    max: u64,
    fill: [u16; 3],
    fill_alpha: u64,
}

impl<'a> Canvas<'a> {
    spec fn scene(&self) -> Scene {
        Scene {
            width: self.width,
            height: self.height,
            format: self.format,
            inputs: input_models(self.inputs@),
            offsets: self.offsets@,
            promote: self.promote,
            max: self.max as int,
            fill: self.fill,
            fill_alpha: self.fill_alpha as int,
        }
    }

    spec fn wf(&self) -> bool {
        &&& self.scene().wf()
        &&& forall|i: int| 0 <= i < self.inputs@.len() ==> (#[trigger] self.inputs@[i]).frame@.wf()
        &&& self.promote ==> self.promoted@.len() == self.inputs@.len() && forall|i: int|
            0 <= i < self.promoted@.len() ==> (#[trigger] self.promoted@[i])@.wf()
                && self.promoted@[i]@.picture() == self.inputs@[i].frame@.picture().promoted()
    }

    /// Input `i` as it is painted.
    fn source(&self, i: usize) -> (r: &HeifFrame)
        requires
            self.wf(),
            i < self.inputs@.len(),
        ensures
            r@.wf(),
            r@.picture() == self.scene().source(i as int),
            r@.width == self.inputs@[i as int].frame@.width,
            r@.height == self.inputs@[i as int].frame@.height,
            r@.format.chroma == self.format.chroma,
            r@.format.has_alpha == self.inputs@[i as int].frame@.format.has_alpha,
    {
        let ghost s = self.scene();
        assert(s.inputs[i as int] == self.inputs@[i as int]@);
        assert(s.input_ok(i as int));
        if self.promote {
            assert(self.promoted@[i as int]@.wf());
            proof {
                let a = self.promoted@[i as int]@.picture();
                let b = self.inputs@[i as int].frame@.picture().promoted();
                assert(a.width == b.width && a.height == b.height && a.format == b.format);
            }
            &self.promoted[i]
        } else {
            assert(self.inputs@[i as int].frame@.wf());
            self.inputs[i].frame
        }
    }

    /// The cells of plane `p` that input `i` covers.
    fn covered(&self, i: usize, p: usize) -> (r: Cells)
        requires
            self.wf(),
            i < self.inputs@.len(),
            p < self.format.chroma.planes(),
        ensures
            r.x1 <= self.format.dims(p as int, self.width, self.height).0,
            r.y1 <= self.format.dims(p as int, self.width, self.height).1,
            forall|x: int, y: int|
                ({
                    let d = self.format.dims(p as int, self.width, self.height);
                    0 <= x < d.0 && 0 <= y < d.1
                }) ==> (#[trigger] r.has(x, y) <==> self.scene().covers(
                    i as int,
                    luma_pos(p as int, x, self.format.chroma.shift_x()),
                    luma_pos(p as int, y, self.format.chroma.shift_y()),
                )),
    {
        let ghost s = self.scene();
        assert(s.inputs[i as int] == self.inputs@[i as int]@);
        assert(s.input_ok(i as int));
        let (sx, sy) = self.format.chroma.shift();
        let (h, v) = self.offsets[i];
        let f: &HeifFrame = self.inputs[i].frame;
        let (x0, x1) = covered_span(h, f.width, self.width, p > 0 && sx == 1);
        let (y0, y1) = covered_span(v, f.height, self.height, p > 0 && sy == 1);
        let r = Cells { x0, y0, x1, y1 };
        proof {
            let d = self.format.dims(p as int, self.width, self.height);
            assert forall|x: int, y: int| 0 <= x < d.0 && 0 <= y < d.1 implies (#[trigger] r.has(
                x,
                y,
            ) <==> s.covers(i as int, luma_pos(p as int, x, sx), luma_pos(p as int, y, sy))) by {
                assert(span_covers(h, f.width, x, p > 0 && sx == 1) <==> x0 <= x < x1);
                assert(span_covers(v, f.height, y, p > 0 && sy == 1) <==> y0 <= y < y1);
            }
        }
        r
    }

    /// The opacity of input `i` at a luma position it covers.
    fn alpha_at(&self, i: usize, src: &HeifFrame, x: u32, y: u32) -> (r: u64)
        requires
            self.wf(),
            i < self.inputs@.len(),
            src@.wf(),
            src@.picture() == self.scene().source(i as int),
            src@.width == self.inputs@[i as int].frame@.width,
            src@.height == self.inputs@[i as int].frame@.height,
            src@.format.chroma == self.format.chroma,
            src@.format.has_alpha == self.inputs@[i as int].frame@.format.has_alpha,
            self.scene().covers(i as int, x as int, y as int),
            x < self.width,
            y < self.height,
        ensures
            r == self.scene().alpha(i as int, x as int, y as int),
            r <= self.max,
    {
        let ghost s = self.scene();
        assert(s.inputs[i as int] == self.inputs@[i as int]@);
        proof {
            lemma_source_alpha(s, i as int, x as int, y as int);
        }
        if src.format.has_alpha {
            let (h, v) = self.offsets[i];
            let lx: u32 = (x as i64 - h as i64) as u32;
            let ly: u32 = (y as i64 - v as i64) as u32;
            let c: usize = src.format.chroma.colour_planes();
            proof {
                assert(src@.has(c as int, lx as int, ly as int));
                lemma_reads(src@, c as int, lx as int, ly as int);
            }
            src.sample(c, lx, ly) as u64
        } else {
            self.max
        }
    }

    /// The sample of input `i` for a cell it covers.
    fn sample_at(&self, i: usize, src: &HeifFrame, p: usize, x: u32, y: u32) -> (r: u16)
        requires
            self.wf(),
            i < self.inputs@.len(),
            p < self.format.chroma.planes(),
            src@.wf(),
            src@.picture() == self.scene().source(i as int),
            src@.width == self.inputs@[i as int].frame@.width,
            src@.height == self.inputs@[i as int].frame@.height,
            src@.format.chroma == self.format.chroma,
            self.scene().covers(
                i as int,
                luma_pos(p as int, x as int, self.format.chroma.shift_x()),
                luma_pos(p as int, y as int, self.format.chroma.shift_y()),
            ),
        ensures
            r == self.scene().input_sample(i as int, p as int, x as int, y as int),
    {
        let ghost s = self.scene();
        assert(s.inputs[i as int] == self.inputs@[i as int]@);
        assert(s.input_ok(i as int));
        let (sx, sy) = self.format.chroma.shift();
        let (h, v) = self.offsets[i];
        let px: u32 = if p > 0 && sx == 1 {
            ((2 * x as i64 - h as i64) / 2) as u32
        } else {
            (x as i64 - h as i64) as u32
        };
        let py: u32 = if p > 0 && sy == 1 {
            ((2 * y as i64 - v as i64) / 2) as u32
        } else {
            (y as i64 - v as i64) as u32
        };
        proof {
            assert(src@.has(p as int, px as int, py as int));
            lemma_reads(src@, p as int, px as int, py as int);
        }
        src.sample(p, px, py)
    }

    /// The canvas values of plane `p` after every input.
    fn colour_cells(&self, p: usize) -> (r: Vec<u64>)
        requires
            self.wf(),
            p < self.format.chroma.planes(),
        ensures
            cells_hold(
                r@,
                self.format.dims(p as int, self.width, self.height).0,
                self.format.dims(p as int, self.width, self.height).1,
                |x: int, y: int| self.scene().colour(self.inputs@.len() as int, p as int, x, y),
            ),
    {
        let (w, h) = self.format.plane_dims(p, self.width, self.height);
        let ghost s = self.scene();
        proof {
            lemma_plane_size(self.width, self.height, w, h);
            lemma_colour_bound(s, 0, p as int, 0, 0);
            lemma_max(self.format.bit_depth);
            lemma_square(self.max as int);
        }
        let start: u64 = self.fill[p] as u64 * self.fill_alpha;
        let mut cells: Vec<u64> = equal_cells(
            w,
            h,
            start,
            Ghost(|x: int, y: int| s.colour(0, p as int, x, y)),
        );
        for i in 0..self.inputs.len()
            invariant
                self.wf(),
                p < self.format.chroma.planes(),
                s == self.scene(),
                (w, h) == self.format.dims(p as int, self.width, self.height),
                cells_hold(cells@, w, h, |x: int, y: int| s.colour(i as int, p as int, x, y)),
        {
            let src: &HeifFrame = self.source(i);
            let r: Cells = self.covered(i, p);
            let premultiplied: bool = self.inputs[i].premultiplied;
            let max: u64 = self.max;
            let (sx, sy) = self.format.chroma.shift();
            proof {
                lemma_max(self.format.bit_depth);
                assert(s.inputs[i as int] == self.inputs@[i as int]@);
            }
            let paint = |x: u32, y: u32, before: u64| -> (v: u64)
                requires
                    self.wf(),
                    i < self.inputs@.len(),
                    p < self.format.chroma.planes(),
                    src@.wf(),
                    src@.picture() == self.scene().source(i as int),
                    src@.width == self.inputs@[i as int].frame@.width,
                    src@.height == self.inputs@[i as int].frame@.height,
                    src@.format.chroma == self.format.chroma,
                    src@.format.has_alpha == self.inputs@[i as int].frame@.format.has_alpha,
                    sx == self.format.chroma.shift_x(),
                    sy == self.format.chroma.shift_y(),
                    max == self.max,
                    255 <= max <= 65535,
                    before <= max * max,
                    x < self.format.dims(p as int, self.width, self.height).0,
                    y < self.format.dims(p as int, self.width, self.height).1,
                    self.scene().covers(
                        i as int,
                        luma_pos(p as int, x as int, sx),
                        luma_pos(p as int, y as int, sy),
                    ),
                ensures
                    v == blended(
                        before as int,
                        self.scene().input_sample(i as int, p as int, x as int, y as int),
                        self.scene().alpha(
                            i as int,
                            luma_pos(p as int, x as int, sx),
                            luma_pos(p as int, y as int, sy),
                        ),
                        premultiplied,
                        max as int,
                    ),
                {
                    let m: u16 = self.sample_at(i, src, p, x, y);
                    let lx: u32 = if p > 0 && sx == 1 {
                        2 * x
                    } else {
                        x
                    };
                    let ly: u32 = if p > 0 && sy == 1 {
                        2 * y
                    } else {
                        y
                    };
                    let a: u64 = self.alpha_at(i, src, lx, ly);
                    blend(before, m, a, premultiplied, max)
                };
            let ghost now = |x: int, y: int| s.colour(i as int, p as int, x, y);
            let ghost next = |x: int, y: int| s.colour(i + 1, p as int, x, y);
            let ghost was = cells@;
            proof {
                assert forall|x: u32, y: u32| r.has(x as int, y as int) implies call_requires(
                    paint,
                    (x, y, #[trigger] was[y * w + x]),
                ) by {
                    lemma_colour_bound(s, i as int, p as int, x as int, y as int);
                    assert(was[y * w + x] == now(x as int, y as int));
                }
                assert forall|x: u32, y: u32, v: u64|
                    r.has(x as int, y as int) && #[trigger] call_ensures(
                        paint,
                        (x, y, was[y * w + x]),
                        v,
                    ) implies v == next(x as int, y as int) by {
                    assert(was[y * w + x] == now(x as int, y as int));
                }
            }
            update_cells(&mut cells, w, h, r, paint, Ghost(next));
            proof {
                assert forall|x: int, y: int| 0 <= x < w && 0 <= y < h implies #[trigger] cells@[y
                    * w + x] == next(x, y) by {
                    assert(was[y * w + x] == now(x, y));
                    assert(r.has(x, y) || !r.has(x, y));
                }
            }
        }
        cells
    }

    /// The canvas opacity after every input.
    fn opacity_cells(&self) -> (r: Vec<u64>)
        requires
            self.wf(),
        ensures
            cells_hold(
                r@,
                self.width,
                self.height,
                |x: int, y: int| self.scene().opacity(self.inputs@.len() as int, x, y),
            ),
    {
        let (w, h) = (self.width, self.height);
        let ghost s = self.scene();
        proof {
            lemma_plane_size(w, h, w, h);
        }
        let mut cells: Vec<u64> = equal_cells(
            w,
            h,
            self.fill_alpha,
            Ghost(|x: int, y: int| s.opacity(0, x, y)),
        );
        for i in 0..self.inputs.len()
            invariant
                self.wf(),
                s == self.scene(),
                w == self.width,
                h == self.height,
                cells_hold(cells@, w, h, |x: int, y: int| s.opacity(i as int, x, y)),
        {
            let src: &HeifFrame = self.source(i);
            let r: Cells = self.covered(i, 0);
            let max: u64 = self.max;
            proof {
                lemma_max(self.format.bit_depth);
                assert(s.inputs[i as int] == self.inputs@[i as int]@);
            }
            let paint = |x: u32, y: u32, before: u64| -> (v: u64)
                requires
                    self.wf(),
                    i < self.inputs@.len(),
                    src@.wf(),
                    src@.picture() == self.scene().source(i as int),
                    src@.width == self.inputs@[i as int].frame@.width,
                    src@.height == self.inputs@[i as int].frame@.height,
                    src@.format.chroma == self.format.chroma,
                    src@.format.has_alpha == self.inputs@[i as int].frame@.format.has_alpha,
                    max == self.max,
                    255 <= max <= 65535,
                    before <= max,
                    self.scene().covers(i as int, x as int, y as int),
                    x < self.width,
                    y < self.height,
                ensures
                    v == covered_opacity(
                        before as int,
                        self.scene().alpha(i as int, x as int, y as int),
                        max as int,
                    ),
                {
                    let a: u64 = self.alpha_at(i, src, x, y);
                    cover(before, a, max)
                };
            let ghost now = |x: int, y: int| s.opacity(i as int, x, y);
            let ghost next = |x: int, y: int| s.opacity(i + 1, x, y);
            let ghost was = cells@;
            proof {
                assert forall|x: u32, y: u32| r.has(x as int, y as int) implies call_requires(
                    paint,
                    (x, y, #[trigger] was[y * w + x]),
                ) by {
                    lemma_opacity_bound(s, i as int, x as int, y as int);
                    assert(was[y * w + x] == now(x as int, y as int));
                }
                assert forall|x: u32, y: u32, v: u64|
                    r.has(x as int, y as int) && #[trigger] call_ensures(
                        paint,
                        (x, y, was[y * w + x]),
                        v,
                    ) implies v == next(x as int, y as int) by {
                    assert(was[y * w + x] == now(x as int, y as int));
                }
            }
            update_cells(&mut cells, w, h, r, paint, Ghost(next));
            proof {
                assert forall|x: int, y: int| 0 <= x < w && 0 <= y < h implies #[trigger] cells@[y
                    * w + x] == next(x, y) by {
                    assert(was[y * w + x] == now(x, y));
                    assert(r.has(x, y) || !r.has(x, y));
                }
            }
        }
        cells
    }
}

proof fn lemma_square(max: int)
    requires
        0 <= max <= 65535,
    ensures
        0 <= max * max <= 65535 * 65535,
{
    assert(0 <= max * max <= 65535 * 65535) by (nonlinear_arith)
        requires
            0 <= max <= 65535,
    ;
}

/// The cells of a plane can be counted.
proof fn lemma_plane_size(width: u32, height: u32, w: u32, h: u32)
    requires
        size_refusal(width, height) is None,
        w <= width,
        h <= height,
    ensures
        0 <= w * h <= usize::MAX,
{
    assert(0 <= w * h <= width * height) by (nonlinear_arith)
        requires
            0 <= w <= width,
            0 <= h <= height,
    ;
}

fn resolve(pre: u64, a: u64, fill: u16, max: u64) -> (r: u16)
    requires
        255 <= max <= 65535,
        pre <= 65535 * 65535,
        a <= max,
        fill <= max,
    ensures
        r == resolved(pre as int, a as int, fill as int, max as int),
        r <= max,
{
    if a == 0 {
        return fill;
    }
    let q: u64 = (pre + a / 2) / a;
    if q < max {
        q as u16
    } else {
        max as u16
    }
}

/// The opacity at `(x, y)` of plane `p`: the mean over the luma block.
fn mean_opacity(c: &Canvas, cells: &Vec<u64>, p: usize, x: u32, y: u32) -> (r: u64)
    requires
        c.wf(),
        p < c.format.chroma.planes(),
        cells_hold(
            cells@,
            c.width,
            c.height,
            |i: int, j: int| c.scene().opacity(c.inputs@.len() as int, i, j),
        ),
        x < c.format.dims(p as int, c.width, c.height).0,
        y < c.format.dims(p as int, c.width, c.height).1,
    ensures
        r == c.scene().plane_opacity(p as int, x as int, y as int),
        r <= c.max,
{
    let (sx, sy) = c.format.chroma.shift();
    if p == 0 || sx == 0 {
        cell(c, cells, x, y)
    } else if sy == 0 {
        proof {
            lemma_max(c.format.bit_depth);
        }
        (cell(c, cells, 2 * x, y) + cell(c, cells, 2 * x + 1, y) + 1) / 2
    } else {
        proof {
            lemma_max(c.format.bit_depth);
        }
        (cell(c, cells, 2 * x, 2 * y) + cell(c, cells, 2 * x + 1, 2 * y) + cell(
            c,
            cells,
            2 * x,
            2 * y + 1,
        ) + cell(c, cells, 2 * x + 1, 2 * y + 1) + 2) / 4
    }
}

/// The opacity of one luma position.
fn cell(c: &Canvas, cells: &Vec<u64>, x: u32, y: u32) -> (r: u64)
    requires
        c.wf(),
        cells_hold(
            cells@,
            c.width,
            c.height,
            |i: int, j: int| c.scene().opacity(c.inputs@.len() as int, i, j),
        ),
        x < c.width,
        y < c.height,
    ensures
        r == c.scene().opacity(c.inputs@.len() as int, x as int, y as int),
        r <= c.max,
{
    proof {
        lemma_cell_inside(c.width as int, c.height as int, x as int, y as int);
        lemma_opacity_bound(c.scene(), c.inputs@.len() as int, x as int, y as int);
        lemma_plane_size(c.width, c.height, c.width, c.height);
        assert(0 <= y * c.width) by (nonlinear_arith)
            requires
                0 <= y,
                0 <= c.width,
        ;
    }
    cells[y as usize * c.width as usize + x as usize]
}

/// The finished canvas.
fn finish(c: &Canvas) -> (r: Result<HeifFrame>)
    requires
        c.wf(),
    ensures
        r matches Ok(out) && {
            &&& out@.wf()
            &&& out@.packed()
            &&& out@.picture() == picture_of(
                c.width,
                c.height,
                c.format,
                |p: int, x: int, y: int| c.scene().result(p, x, y) as u16,
            )
        },
{
    let planes: usize = c.format.chroma.colour_planes();
    let mut colour: Vec<Vec<u64>> = Vec::new();
    for p in 0..planes
        invariant
            c.wf(),
            planes == c.format.chroma.planes(),
            colour@.len() == p,
            forall|k: int| 0 <= k < p ==> plane_done(c, k, (#[trigger] colour@[k])@),
    {
        let cells: Vec<u64> = c.colour_cells(p);
        colour.push(cells);
    }
    let opacity: Vec<u64> = c.opacity_cells();
    let read = |p: usize, x: u32, y: u32| -> (v: u16)
        requires
            c.wf(),
            planes == c.format.chroma.planes(),
            colour@.len() == planes,
            forall|k: int| 0 <= k < planes ==> plane_done(c, k, (#[trigger] colour@[k])@),
            cells_hold(
                opacity@,
                c.width,
                c.height,
                |i: int, j: int| c.scene().opacity(c.inputs@.len() as int, i, j),
            ),
            c.format.has(c.width, c.height, p as int, x as int, y as int),
        ensures
            v == c.scene().result(p as int, x as int, y as int),
        {
            if p == planes {
                proof {
                    lemma_max(c.format.bit_depth);
                }
                cell(c, &opacity, x, y) as u16
            } else {
                let (w, h) = c.format.plane_dims(p, c.width, c.height);
                proof {
                    assert(plane_done(c, p as int, colour@[p as int]@));
                    lemma_max(c.format.bit_depth);
                    lemma_cell_inside(w as int, h as int, x as int, y as int);
                    lemma_plane_size(c.width, c.height, w, h);
                    lemma_colour_bound(
                        c.scene(),
                        c.inputs@.len() as int,
                        p as int,
                        x as int,
                        y as int,
                    );
                    lemma_square(c.max as int);
                    assert(0 <= y * w) by (nonlinear_arith)
                        requires
                            0 <= y,
                            0 <= w,
                    ;
                }
                let pre: u64 = colour[p][y as usize * w as usize + x as usize];
                let a: u64 = mean_opacity(c, &opacity, p, x, y);
                assert(c.scene().fill[p as int] <= c.scene().max);
                resolve(pre, a, c.fill[p], c.max)
            }
        };
    let ghost g = |p: int, x: int, y: int| c.scene().result(p, x, y) as u16;
    proof {
        assert forall|p: int, x: int, y: int| c.format.has(c.width, c.height, p, x, y) implies
            c.format.stored(#[trigger] g(p, x, y)) == g(p, x, y) by {
            lemma_result_bound(c.scene(), p, x, y);
            lemma_max(c.format.bit_depth);
        }
    }
    build_picture(c.width, c.height, c.format, read, Ghost(g))
}

/// The canvas values of plane `p` are done.
spec fn plane_done(c: &Canvas, p: int, cells: Seq<u64>) -> bool {
    cells_hold(
        cells,
        c.format.dims(p, c.width, c.height).0,
        c.format.dims(p, c.width, c.height).1,
        |x: int, y: int| c.scene().colour(c.inputs@.len() as int, p, x, y),
    )
}

proof fn lemma_result_bound(s: Scene, p: int, x: int, y: int)
    requires
        s.wf(),
        s.format.has(s.width, s.height, p, x, y),
    ensures
        0 <= s.result(p, x, y) <= s.max,
{
    let n = s.inputs.len() as int;
    lemma_max(s.format.bit_depth);
    if s.format.is_alpha(p) {
        lemma_opacity_bound(s, n, x, y);
    } else {
        lemma_colour_bound(s, n, p, x, y);
        if p == 0 || s.format.chroma.shift_x() == 0 {
            lemma_opacity_bound(s, n, x, y);
        } else if s.format.chroma.shift_y() == 0 {
            lemma_opacity_bound(s, n, 2 * x, y);
            lemma_opacity_bound(s, n, 2 * x + 1, y);
        } else {
            lemma_opacity_bound(s, n, 2 * x, 2 * y);
            lemma_opacity_bound(s, n, 2 * x + 1, 2 * y);
            lemma_opacity_bound(s, n, 2 * x, 2 * y + 1);
            lemma_opacity_bound(s, n, 2 * x + 1, 2 * y + 1);
        }
        let a = s.plane_opacity(p, x, y);
        let pre = s.colour(n, p, x, y);
        assert(s.fill[p] <= s.max);
        if a != 0 {
            assert(0 <= (pre + a / 2) / a) by (nonlinear_arith)
                requires
                    0 <= pre,
                    0 < a,
            ;
        }
    }
}

fn check_inputs(inputs: &[OverlayInput]) -> (r: Result<()>)
    requires
        inputs@.len() > 0,
    ensures
        match r {
            Ok(_) => input_refusal(input_models(inputs@), 0) is None,
            Err(e) => input_refusal(input_models(inputs@), 0) == Some(e.kind()),
        },
{
    let ghost all = input_models(inputs@);
    for i in 0..inputs.len()
        invariant
            all == input_models(inputs@),
            inputs@.len() > 0,
            input_refusal(all, 0) == input_refusal(all, i as int),
    {
        assert(all[i as int] == inputs@[i as int]@ && all[0] == inputs@[0]@);
        if !has_same_layout(inputs[i].frame, inputs[0].frame) {
            let n: String = decimal(i as u64);
            return Err(
                HeifError::unsupported(
                    concat(&["iovl: input ", n.as_str(), " layout differs from input 0"]),
                ),
            );
        }
    }
    Ok(())
}

fn promotes(desc: &OverlayDescriptor, inputs: &[OverlayInput]) -> (r: bool)
    requires
        inputs@.len() > 0,
    ensures
        r == overlay_promotes(desc@, input_models(inputs@)),
{
    let ghost all = input_models(inputs@);
    assert(all[0] == inputs@[0]@);
    let chroma: Chroma = inputs[0].frame.format.chroma;
    let mut alpha: bool = false;
    let mut odd: bool = false;
    for i in 0..inputs.len()
        invariant
            all == input_models(inputs@),
            alpha == exists|k: int| 0 <= k < i && (#[trigger] all[k]).frame.format.has_alpha,
            odd == exists|k: int|
                0 <= k < i && odd_chroma(
                    chroma,
                    (#[trigger] all[k]).frame.width % 2 == 1,
                    all[k].frame.height % 2 == 1,
                ),
    {
        assert(all[i as int] == inputs@[i as int]@);
        let f: &HeifFrame = inputs[i].frame;
        alpha = alpha || f.format.has_alpha;
        odd = odd || needs_444(chroma, f.width % 2 == 1, f.height % 2 == 1);
    }
    let mut column: bool = false;
    let mut row: bool = false;
    for i in 0..desc.offsets.len()
        invariant
            column == exists|k: int|
                0 <= k < i && (#[trigger] desc.offsets@[k]).0 as int % 2 == 1,
            row == exists|k: int| 0 <= k < i && (#[trigger] desc.offsets@[k]).1 as int % 2 == 1,
    {
        let (h, v) = desc.offsets[i];
        column = column || h % 2 != 0;
        row = row || v % 2 != 0;
    }
    alpha || needs_444(
        chroma,
        column || desc.output_width % 2 == 1,
        row || desc.output_height % 2 == 1,
    ) || odd
}

fn promote_inputs(inputs: &[OverlayInput], yes: bool) -> (r: Result<Vec<HeifFrame>>)
    requires
        forall|i: int| 0 <= i < inputs@.len() ==> (#[trigger] inputs@[i]).frame@.wf(),
    ensures
        r matches Ok(v) && {
            &&& yes ==> v@.len() == inputs@.len()
            &&& forall|i: int|
                0 <= i < v@.len() ==> (#[trigger] v@[i])@.wf() && v@[i]@.picture()
                    == inputs@[i].frame@.picture().promoted()
        },
{
    let mut out: Vec<HeifFrame> = Vec::new();
    if yes {
        for i in 0..inputs.len()
            invariant
                forall|k: int| 0 <= k < inputs@.len() ==> (#[trigger] inputs@[k]).frame@.wf(),
                out@.len() == i,
                forall|k: int|
                    0 <= k < i ==> (#[trigger] out@[k])@.wf() && out@[k]@.picture()
                        == inputs@[k].frame@.picture().promoted(),
        {
            assert(inputs@[i as int].frame@.wf());
            let f: HeifFrame = inputs[i].frame.promote_to_444()?;
            proof {
                crate::image::lemma_promoted_picture(f@, inputs@[i as int].frame@);
            }
            out.push(f);
        }
    }
    Ok(out)
}

pub(crate) proof fn lemma_inputs(inputs: Seq<InputModel>, i: int, k: int)
    requires
        0 <= i <= k < inputs.len(),
        input_refusal(inputs, i) is None,
    ensures
        same_layout(inputs[k].frame, inputs[0].frame),
    decreases k - i,
{
    if i < k {
        lemma_inputs(inputs, i + 1, k);
    }
}

/// The scene of valid inputs can be composed.
pub(crate) proof fn lemma_scene(d: OverlayModel, inputs: Seq<InputModel>, colr: Option<ColrModel>)
    requires
        inputs.len() == d.offsets.len(),
        inputs.len() > 0,
        input_refusal(inputs, 0) is None,
        size_refusal(d.output_width, d.output_height) is None,
        forall|i: int|
            0 <= i < inputs.len() ==> (#[trigger] inputs[i]).frame.valid() && alpha_in_range(
                inputs[i].frame,
                d.offsets[i],
                (d.output_width, d.output_height),
            ),
    ensures
        scene_of(d, inputs, colr).wf(),
{
    let s = scene_of(d, inputs, colr);
    assert(inputs[0].frame.valid());
    lemma_max(s.format.bit_depth);
    let a = d.canvas_fill[3];
    assert(0 <= a * s.max <= 65535 * s.max) by (nonlinear_arith)
        requires
            0 <= a <= 65535,
            0 <= s.max,
    ;
    assert forall|i: int| 0 <= i < s.inputs.len() implies s.input_ok(i) by {
        lemma_inputs(inputs, 0, i);
        assert(inputs[i].frame.valid());
        let (h, v) = d.offsets[i];
        assert(!s.promote ==> !inputs[i].frame.format.has_alpha);
    }
    let fill = [d.canvas_fill[0], d.canvas_fill[1], d.canvas_fill[2]];
    let m = matrix_of(colr);
    lemma_fill_bound(fill, s.format.bit_depth as nat, m.0, m.1);
    let v = fill_values(fill, s.format.bit_depth as nat, m.0, m.1);
    assert(s.fill[0] == to_sample(v.0) && s.fill[1] == to_sample(v.1) && s.fill[2] == to_sample(
        v.2,
    ));
    assert forall|p: int| 0 <= p < 3 implies (#[trigger] s.fill[p]) <= s.max by {
        assert(p == 0 || p == 1 || p == 2);
    }
}

/// §6.6.2.2 overlay composition with the §6.9.1 alpha visual context.
/// `colr` describes the output image's colour (fill conversion).
///
/// Straight alpha follows §6.9.1 (`vu = m·α + vi·(1 − α)`), the
/// pre-multiplied form drops the α on `m`. Canvas opacity accumulates
/// as `α + a·(1 − α)`; a fill alpha that is not opaque at the depth of the
/// inputs yields an output alpha plane.
pub fn composite_overlay(
    desc: &OverlayDescriptor,
    inputs: &[OverlayInput],
    colr: Option<&Colr>,
) -> (r: Result<HeifFrame>)
    requires
        forall|i: int|
            0 <= i < inputs@.len() ==> (#[trigger] inputs@[i]).frame@.wf() && (i
                < desc.offsets@.len() ==> alpha_in_range(
                inputs@[i].frame@.picture(),
                desc.offsets@[i],
                (desc.output_width, desc.output_height),
            )),
    ensures
        pictured(r) == overlay_picture(desc@, input_models(inputs@), option_colr(colr)),
        r matches Ok(out) ==> out@.wf() && out@.packed(),
{
    let ghost all = input_models(inputs@);
    if inputs.len() != desc.offsets.len() {
        let n: String = decimal(inputs.len() as u64);
        let m: String = decimal(desc.offsets.len() as u64);
        return Err(
            HeifError::invalid(concat(&["iovl: ", n.as_str(), " inputs for ", m.as_str(), " offsets"])),
        );
    }
    if inputs.len() == 0 {
        return Err(HeifError::invalid("iovl: no inputs"));
    }
    check_inputs(inputs)?;
    HeifFrame::check_dims(desc.output_width, desc.output_height)?;
    assert(all[0] == inputs@[0]@);
    assert(inputs@[0].frame@.wf());
    let depth: u8 = inputs[0].frame.format.bit_depth;
    proof {
        lemma_max(depth);
        assert forall|i: int| 0 <= i < all.len() implies (#[trigger] all[i]).frame.valid()
            && alpha_in_range(
            all[i].frame,
            desc@.offsets[i],
            (desc.output_width, desc.output_height),
        ) by {
            assert(inputs@[i].frame@.wf());
            lemma_valid_picture(inputs@[i].frame@);
        }
        lemma_scene(desc@, all, option_colr(colr));
    }
    let max: u64 = inputs[0].frame.format.max_value() as u64;
    let a: u16 = desc.canvas_fill[3];
    proof {
        assert(0 <= a * max <= 65535 * 65535) by (nonlinear_arith)
            requires
                0 <= a <= 65535,
                0 <= max <= 65535,
        ;
    }
    let fill_alpha: u64 = (a as u64 * max + 32767) / 65535;
    let promote: bool = promotes(desc, inputs);
    let chroma: Chroma = if promote {
        Chroma::Yuv444
    } else {
        inputs[0].frame.format.chroma
    };
    let format: HeifPixelFormat = HeifPixelFormat::new(chroma, depth, fill_alpha < max)?;
    let fill: [u16; 3] = fill_to_ycbcr(
        [desc.canvas_fill[0], desc.canvas_fill[1], desc.canvas_fill[2]],
        depth,
        colr,
    );
    let promoted: Vec<HeifFrame> = promote_inputs(inputs, promote)?;
    let canvas = Canvas {
        width: desc.output_width,
        height: desc.output_height,
        format,
        inputs,
        offsets: &desc.offsets,
        promote,
        promoted,
        max,
        fill,
        fill_alpha,
    };
    proof {
        let s = canvas.scene();
        let t = scene_of(desc@, all, option_colr(colr));
        assert(s.fill =~= t.fill);
        assert(s == t);
    }
    let out: HeifFrame = finish(&canvas)?;
    proof {
        let s = scene_of(desc@, all, option_colr(colr));
        assert(out@.picture() =~= picture_of(
            s.width,
            s.height,
            s.format,
            |p: int, x: int, y: int| s.result(p, x, y) as u16,
        ));
    }
    Ok(out)
}

} // verus!
