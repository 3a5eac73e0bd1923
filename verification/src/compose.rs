//! Pixel composition of derived images and transformative properties
//! (ISO/IEC 23008-12 §6.3, §6.5.9–§6.5.12, §6.6.2, §6.9.1; ISO/IEC
//! 23000-22 §7.3.6.7), framework-free on [`HeifFrame`].
//!
//! * [`composite_grid`] — §6.6.2.3: tiles in row-major order, trimmed
//!   on the right / bottom to the declared output size.
//! * [`composite_overlay`] — §6.6.2.2: canvas
//!   filled with the sRGB `canvas_fill_value` (converted with the H.273
//!   matrix the output colour information names), inputs painted
//!   bottom-most first at their offsets, clipped to the canvas, alpha
//!   planes blended with the §6.9.1 straight / pre-multiplied "visual
//!   context" update (per pixel, so alpha inputs promote the canvas to
//!   4:4:4). A translucent fill yields an output alpha plane.
//! * [`apply_clap`] / [`apply_irot`] / [`apply_imir`] — the
//!   transformative properties; [`apply_transforms`] runs an item's
//!   chain in association order.
//! * [`attach_alpha`] — §6.9.1 alpha auxiliary attachment (resized to
//!   the master when the sizes differ, depth-matched).
//!
//! Chroma subsampling and odd geometry follow MIAF §7.3.6.7's rule for
//! `clap`: whenever an operation would need a sub-sample chroma
//! position (odd crop edge / size, odd overlay offset, odd grid tile
//! size, 90° rotation of an odd picture or of a 4:2:2 picture), the
//! picture is first implicitly promoted to 4:4:4 and the result stays
//! 4:4:4.

use crate::error::{view_outcome, ErrorKind, HeifError, Outcome, Result};
use crate::image::{
    build_picture, framed, lemma_promoted_picture, lemma_sample_inside, lemma_sample_stored, max_of_depth,
    picture_of, shrink, shrunk, size_refusal, two_to, Chroma, FrameModel, HeifFrame,
    HeifPixelFormat, HeifPlane, Picture,
};
use crate::props::{Clap, CropRect, Imir, Irot, Property, PropertyEntry, PropertyEntryModel, PropertyModel};
use vstd::arithmetic::power2::pow2;
use vstd::prelude::*;

pub mod fill;
pub mod grid;
pub mod laws;
pub mod nearest;
pub mod overlay;
pub mod grid_laws;
pub mod overlay_laws;
pub mod pixel_laws;

pub use fill::fill_to_ycbcr;
pub use grid::composite_grid;
pub use overlay::{composite_overlay, OverlayInput};

verus! {

/// Whether touching an odd luma column (`x_odd`) or row (`y_odd`) of a picture
/// needs a chroma sample that does not exist.
pub open spec fn odd_chroma(chroma: Chroma, x_odd: bool, y_odd: bool) -> bool {
    (chroma.shift_x() == 1 && x_odd) || (chroma.shift_y() == 1 && y_odd)
}

/// Whether an operation touching an odd luma column (`x_odd`) or row
/// (`y_odd`) in a `chroma`-subsampled picture needs a chroma sample
/// that does not exist — the trigger for the implicit 4:4:4 promotion.
pub fn needs_444(chroma: Chroma, x_odd: bool, y_odd: bool) -> (r: bool)
    ensures
        r == odd_chroma(chroma, x_odd, y_odd),
{
    let (sx, sy) = chroma.shift();
    (sx == 1 && x_odd) || (sy == 1 && y_odd)
}

impl Picture {
    /// The 4:4:4 picture if asked for, else the picture as it is.
    pub open spec fn promoted_if(self, yes: bool) -> Picture {
        if yes {
            self.promoted()
        } else {
            self
        }
    }

    /// The column (or row) of plane `p` at luma column (or row) `v`, for chroma
    /// scaled down by `shift` bits.
    pub open spec fn plane_pos(self, p: int, v: int, shift: u32) -> int {
        if p == 0 || self.format.is_alpha(p) {
            v
        } else {
            shrunk(v, shift)
        }
    }

    /// The `w × h` rectangle at `(x, y)`.
    pub open spec fn cut(self, x: int, y: int, w: u32, h: u32) -> Picture {
        picture_of(
            w,
            h,
            self.format,
            |p: int, i: int, j: int|
                (self.at)(
                    p,
                    i + self.plane_pos(p, x, self.format.chroma.shift_x()),
                    j + self.plane_pos(p, y, self.format.chroma.shift_y()),
                ),
        )
    }

    /// The picture turned anti-clockwise by `angle` quarter turns.
    pub open spec fn turned(self, angle: int) -> Picture {
        if angle == 1 {
            picture_of(
                self.height,
                self.width,
                self.format,
                |p: int, x: int, y: int| (self.at)(p, self.dims(p).0 - 1 - y, x),
            )
        } else if angle == 2 {
            picture_of(
                self.width,
                self.height,
                self.format,
                |p: int, x: int, y: int|
                    (self.at)(p, self.dims(p).0 - 1 - x, self.dims(p).1 - 1 - y),
            )
        } else if angle == 3 {
            picture_of(
                self.height,
                self.width,
                self.format,
                |p: int, x: int, y: int| (self.at)(p, y, self.dims(p).1 - 1 - x),
            )
        } else {
            self
        }
    }

    /// The picture mirrored: left and right exchanged, or top and bottom.
    pub open spec fn mirrored(self, left_right: bool) -> Picture {
        picture_of(
            self.width,
            self.height,
            self.format,
            |p: int, x: int, y: int|
                if left_right {
                    (self.at)(p, self.dims(p).0 - 1 - x, y)
                } else {
                    (self.at)(p, x, self.dims(p).1 - 1 - y)
                },
        )
    }

    /// Whether a rotation goes through the 4:4:4 picture.
    pub open spec fn turn_promotes(self, angle: int) -> bool {
        odd_chroma(self.format.chroma, self.width % 2 == 1, self.height % 2 == 1) || (angle % 2 == 1
            && self.format.chroma == Chroma::Yuv422)
    }
}

/// The rectangle cut out of a picture, 4:4:4 when it is odd.
pub open spec fn cropped(f: Picture, x: u32, y: u32, w: u32, h: u32) -> Outcome<Picture> {
    if w == 0 || h == 0 || x + w > f.width || y + h > f.height {
        Err(ErrorKind::Invalid)
    } else {
        let odd = odd_chroma(
            f.format.chroma,
            x % 2 == 1 || w % 2 == 1,
            y % 2 == 1 || h % 2 == 1,
        );
        Ok(f.promoted_if(odd).cut(x as int, y as int, w, h))
    }
}

/// The picture after a `clap` property.
pub open spec fn clapped(f: Picture, c: Clap) -> Outcome<Picture> {
    match c.rect(f.width, f.height) {
        Err(e) => Err(e),
        Ok(r) => cropped(f, r.x, r.y, r.width, r.height),
    }
}

/// The picture after an `irot` property.
pub open spec fn rotated(f: Picture, angle: u8) -> Picture {
    let a = angle as int % 4;
    if a == 0 {
        f
    } else {
        f.promoted_if(f.turn_promotes(a)).turned(a)
    }
}

/// The picture after one property of a chain.
pub open spec fn transformed(f: Picture, p: PropertyModel) -> Outcome<Picture> {
    match p {
        PropertyModel::Clap(c) => clapped(f, c),
        PropertyModel::Irot(r) => Ok(rotated(f, r.angle)),
        PropertyModel::Imir(m) => Ok(f.mirrored(m.axis % 2 == 1)),
        PropertyModel::Iscl(_) => Err(ErrorKind::Unsupported),
        _ => Ok(f),
    }
}

/// The picture after the properties from `i` on.
pub open spec fn transformed_from(
    f: Picture,
    chain: Seq<PropertyEntryModel>,
    i: int,
    essential_only: bool,
) -> Outcome<Picture>
    decreases chain.len() - i,
{
    if i >= chain.len() {
        Ok(f)
    } else if essential_only && !chain[i].essential {
        transformed_from(f, chain, i + 1, essential_only)
    } else {
        match transformed(f, chain[i].property) {
            Err(e) => Err(e),
            Ok(next) => transformed_from(next, chain, i + 1, essential_only),
        }
    }
}

/// The frame after an `irot` property: the frame as it is when it is not turned.
pub open spec fn turned_frame(f: FrameModel, angle: u8) -> FrameModel {
    if angle % 4 == 0 {
        f
    } else {
        rotated(f.picture(), angle).frame()
    }
}

/// The frame after one property of a chain: packed when the property transforms it,
/// else as it is.
pub open spec fn frame_through(f: FrameModel, p: PropertyModel) -> Outcome<FrameModel> {
    match p {
        PropertyModel::Clap(c) => framed(clapped(f.picture(), c)),
        PropertyModel::Irot(r) => Ok(turned_frame(f, r.angle)),
        PropertyModel::Imir(m) => Ok(f.picture().mirrored(m.axis % 2 == 1).frame()),
        PropertyModel::Iscl(_) => Err(ErrorKind::Unsupported),
        _ => Ok(f),
    }
}

/// The frame after the properties from `i` on.
pub open spec fn transformed_frame(
    f: FrameModel,
    chain: Seq<PropertyEntryModel>,
    i: int,
    essential_only: bool,
) -> Outcome<FrameModel>
    decreases chain.len() - i,
{
    if i >= chain.len() {
        Ok(f)
    } else if essential_only && !chain[i].essential {
        transformed_frame(f, chain, i + 1, essential_only)
    } else {
        match frame_through(f, chain[i].property) {
            Err(e) => Err(e),
            Ok(next) => transformed_frame(next, chain, i + 1, essential_only),
        }
    }
}

/// The frame with its samples rescaled to `depth` bits: the frame as it is when it
/// has that depth.
pub open spec fn rescaled_frame(f: FrameModel, depth: u8) -> FrameModel {
    if depth == f.format.bit_depth {
        f
    } else {
        f.picture().rescaled(depth).frame()
    }
}

/// What contracts say of a frame: the picture it shows, or the class of the
/// error.
pub open spec fn pictured(r: Result<HeifFrame>) -> Outcome<Picture> {
    match r {
        Ok(f) => Ok(f@.picture()),
        Err(e) => Err(e.kind()),
    }
}

/// A sample of a frame can be read, and is that of its picture.
pub(crate) proof fn lemma_reads(f: FrameModel, p: int, x: int, y: int)
    requires
        f.wf(),
        f.has(p, x, y),
    ensures
        0 <= f.offset(p, x, y),
        f.offset(p, x, y) + f.format.bps() <= f.planes[p].data.len(),
        p < f.planes.len(),
        (f.picture().at)(p, x, y) == f.sample(p, x, y),
        f.format.stored(f.sample(p, x, y)) == f.sample(p, x, y),
{
    lemma_sample_inside(f, p, x, y);
    lemma_sample_stored(f, p, x, y);
}

/// The 4:4:4 frame if asked for.
pub(crate) fn promote_if(f: &HeifFrame, yes: bool) -> (r: Result<Option<HeifFrame>>)
    requires
        f@.wf(),
    ensures
        match r {
            Ok(Some(x)) => yes && x@.wf() && x@.picture() == f@.picture().promoted(),
            Ok(None) => !yes,
            Err(_) => false,
        },
{
    if yes {
        let x: HeifFrame = f.promote_to_444()?;
        proof {
            lemma_promoted_picture(x@, f@);
        }
        Ok(Some(x))
    } else {
        Ok(None)
    }
}

/// Crop `f` to the `w × h` rectangle at `(x, y)`.
pub fn crop(f: &HeifFrame, x: u32, y: u32, w: u32, h: u32) -> (r: Result<HeifFrame>)
    requires
        f@.wf(),
    ensures
        pictured(r) == cropped(f@.picture(), x, y, w, h),
        view_outcome(r) == framed(cropped(f@.picture(), x, y, w, h)),
        r matches Ok(out) ==> out@.wf() && out@.packed(),
{
    if w == 0 || h == 0 || x as u64 + w as u64 > f.width as u64 || y as u64 + h as u64
        > f.height as u64 {
        return Err(HeifError::invalid("crop outside the picture"));
    }
    let odd: bool = needs_444(
        f.format.chroma,
        x % 2 == 1 || w % 2 == 1,
        y % 2 == 1 || h % 2 == 1,
    );
    let promoted: Option<HeifFrame> = promote_if(f, odd)?;
    let src: &HeifFrame = match &promoted {
        Some(s) => s,
        None => f,
    };
    let ghost m = src@;
    let fmt: HeifPixelFormat = src.format;
    let (shx, shy) = fmt.chroma.shift();
    let colour: usize = fmt.chroma.colour_planes();
    let has_alpha: bool = fmt.has_alpha;
    let read = |p: usize, i: u32, j: u32| -> (v: u16)
        requires
            fmt.has(w, h, p as int, i as int, j as int),
            src@.wf(),
            fmt == src@.format,
            shx == fmt.chroma.shift_x(),
            shy == fmt.chroma.shift_y(),
            colour == fmt.chroma.planes(),
            has_alpha == fmt.has_alpha,
            x + w <= src@.width,
            y + h <= src@.height,
            shx == 1 ==> x % 2 == 0 && w % 2 == 0,
            shy == 1 ==> y % 2 == 0 && h % 2 == 0,
        ensures
            v == (src@.picture().at)(
                p as int,
                i + src@.picture().plane_pos(p as int, x as int, shx),
                j + src@.picture().plane_pos(p as int, y as int, shy),
            ),
            fmt.stored(v) == v,
        {
            let full: bool = p == 0 || (has_alpha && p == colour);
            let sx: u32 = if full {
                i + x
            } else {
                i + shrink(x, shx)
            };
            let sy: u32 = if full {
                j + y
            } else {
                j + shrink(y, shy)
            };
            proof {
                assert(src@.has(p as int, sx as int, sy as int));
                lemma_reads(src@, p as int, sx as int, sy as int);
            }
            src.sample(p, sx, sy)
        };
    let ghost g = |p: int, i: int, j: int|
        (m.picture().at)(
            p,
            i + m.picture().plane_pos(p, x as int, fmt.chroma.shift_x()),
            j + m.picture().plane_pos(p, y as int, fmt.chroma.shift_y()),
        );
    proof {
        lemma_smaller(w, h, f.width, f.height);
        assert forall|p: int, i: int, j: int| fmt.has(w, h, p, i, j) implies fmt.stored(
            #[trigger] g(p, i, j),
        ) == g(p, i, j) by {
            lemma_sample_stored(
                m,
                p,
                i + m.picture().plane_pos(p, x as int, shx),
                j + m.picture().plane_pos(p, y as int, shy),
            );
        }
        assert(m.picture().cut(x as int, y as int, w, h) =~= picture_of(w, h, fmt, g));
    }
    build_picture(w, h, fmt, read, Ghost(g))
}

/// A smaller picture is acceptable where a larger one is.
pub(crate) proof fn lemma_smaller(w: u32, h: u32, width: u32, height: u32)
    requires
        0 < w <= width,
        0 < h <= height,
        size_refusal(width, height) is None,
    ensures
        size_refusal(w, h) is None,
{
    assert(w * h <= width * height) by (nonlinear_arith)
        requires
            0 <= w <= width,
            0 <= h <= height,
    ;
}

/// Apply a `clap` property (§6.5.9).
pub fn apply_clap(f: &HeifFrame, clap: &Clap) -> (r: Result<HeifFrame>)
    requires
        f@.wf(),
    ensures
        pictured(r) == clapped(f@.picture(), *clap),
        view_outcome(r) == framed(clapped(f@.picture(), *clap)),
        r matches Ok(out) ==> out@.wf() && out@.packed(),
{
    let rect: CropRect = clap.resolve(f.width, f.height)?;
    crop(f, rect.x, rect.y, rect.width, rect.height)
}

/// Apply an `irot` property (§6.5.10): `angle × 90°` anti-clockwise.
pub fn apply_irot(f: &HeifFrame, irot: &Irot) -> (r: Result<HeifFrame>)
    requires
        f@.wf(),
    ensures
        r matches Ok(out) && {
            &&& out@.picture() == rotated(f@.picture(), irot.angle)
            &&& out@.wf()
            &&& out@ == turned_frame(f@, irot.angle)
        },
{
    let angle: u8 = irot.angle % 4;
    if angle == 0 {
        return Ok(f.clone());
    }
    let yes: bool = needs_444(f.format.chroma, f.width % 2 == 1, f.height % 2 == 1) || (angle % 2
        == 1 && f.format.chroma == Chroma::Yuv422);
    let promoted: Option<HeifFrame> = promote_if(f, yes)?;
    let src: &HeifFrame = match &promoted {
        Some(s) => s,
        None => f,
    };
    let ghost m = src@;
    let fmt: HeifPixelFormat = src.format;
    let (w, h) = (src.width, src.height);
    let (ow, oh) = if angle % 2 == 1 {
        (h, w)
    } else {
        (w, h)
    };
    let read = |p: usize, x: u32, y: u32| -> (v: u16)
        requires
            fmt.has(ow, oh, p as int, x as int, y as int),
            src@.wf(),
            fmt == src@.format,
            1 <= angle <= 3,
            ow == (if angle % 2 == 1 {
                src@.height
            } else {
                src@.width
            }),
            oh == (if angle % 2 == 1 {
                src@.width
            } else {
                src@.height
            }),
            !odd_chroma(fmt.chroma, src@.width % 2 == 1, src@.height % 2 == 1),
            angle % 2 == 1 ==> fmt.chroma != Chroma::Yuv422,
        ensures
            v == (src@.picture().turned(angle as int).at)(p as int, x as int, y as int),
            fmt.stored(v) == v,
        {
            let (pw, ph) = src.plane_dims(p);
            // Anti-clockwise rotation by 90°: (x, y) → (y, pw − 1 − x).
            let (sx, sy) = if angle == 1 {
                (pw - 1 - y, x)
            } else if angle == 2 {
                (pw - 1 - x, ph - 1 - y)
            } else {
                (y, ph - 1 - x)
            };
            proof {
                assert(src@.has(p as int, sx as int, sy as int));
                lemma_reads(src@, p as int, sx as int, sy as int);
            }
            src.sample(p, sx, sy)
        };
    let ghost g = m.picture().turned(angle as int).at;
    proof {
        assert(w * h == h * w) by (nonlinear_arith);
        assert forall|p: int, x: int, y: int| fmt.has(ow, oh, p, x, y) implies fmt.stored(
            #[trigger] g(p, x, y),
        ) == g(p, x, y) by {
            let pw = m.dims(p).0;
            let ph = m.dims(p).1;
            lemma_sample_stored(m, p, pw - 1 - y, x);
            lemma_sample_stored(m, p, pw - 1 - x, ph - 1 - y);
            lemma_sample_stored(m, p, y, ph - 1 - x);
        }
        assert(m.picture().turned(angle as int) =~= picture_of(ow, oh, fmt, g));
    }
    build_picture(ow, oh, fmt, read, Ghost(g))
}

/// Apply an `imir` property (§6.5.12): axis 0 exchanges top and bottom,
/// axis 1 exchanges left and right.
pub fn apply_imir(f: &HeifFrame, imir: &Imir) -> (r: Result<HeifFrame>)
    requires
        f@.wf(),
    ensures
        r matches Ok(out) && out@.picture() == f@.picture().mirrored(imir.axis % 2 == 1)
            && out@.wf() && out@.packed() && out@ == f@.picture().mirrored(
            imir.axis % 2 == 1,
        ).frame(),
{
    let left_right: bool = imir.axis % 2 == 1;
    let ghost m = f@;
    let fmt: HeifPixelFormat = f.format;
    let read = |p: usize, x: u32, y: u32| -> (v: u16)
        requires
            f@.wf(),
            f@.has(p as int, x as int, y as int),
        ensures
            v == (f@.picture().mirrored(left_right).at)(p as int, x as int, y as int),
        {
            let (pw, ph) = f.plane_dims(p);
            let (sx, sy) = if left_right {
                (pw - 1 - x, y)
            } else {
                (x, ph - 1 - y)
            };
            proof {
                assert(f@.has(p as int, sx as int, sy as int));
                lemma_reads(f@, p as int, sx as int, sy as int);
            }
            f.sample(p, sx, sy)
        };
    let ghost g = m.picture().mirrored(left_right).at;
    proof {
        assert forall|p: int, x: int, y: int| m.has(p, x, y) implies fmt.stored(
            #[trigger] g(p, x, y),
        ) == g(p, x, y) by {
            lemma_sample_stored(m, p, m.dims(p).0 - 1 - x, y);
            lemma_sample_stored(m, p, x, m.dims(p).1 - 1 - y);
        }
        assert(m.picture().mirrored(left_right) =~= picture_of(f.width, f.height, fmt, g));
    }
    build_picture(f.width, f.height, fmt, read, Ghost(g))
}

/// Run an item's transformative chain in association order (§6.3).
/// `essential_only` skips non-essential transforms (a permitted reader
/// choice); the default reader applies every recognised transform.
pub fn apply_transforms(f: &HeifFrame, chain: &[&PropertyEntry], essential_only: bool) -> (r: Result<
    HeifFrame,
>)
    requires
        f@.wf(),
    ensures
        pictured(r) == transformed_from(
            f@.picture(),
            crate::props::entry_views(chain@),
            0,
            essential_only,
        ),
        view_outcome(r) == transformed_frame(
            f@,
            crate::props::entry_views(chain@),
            0,
            essential_only,
        ),
        r matches Ok(out) ==> out@.wf(),
{
    let ghost all = crate::props::entry_views(chain@);
    let ghost whole = transformed_frame(f@, all, 0, essential_only);
    let ghost goal = transformed_from(f@.picture(), all, 0, essential_only);
    let mut cur: HeifFrame = f.clone();
    for i in 0..chain.len()
        invariant
            all == crate::props::entry_views(chain@),
            cur@.wf(),
            goal == transformed_from(f@.picture(), all, 0, essential_only),
            goal == transformed_from(cur@.picture(), all, i as int, essential_only),
            whole == transformed_frame(f@, all, 0, essential_only),
            whole == transformed_frame(cur@, all, i as int, essential_only),
    {
        let e: &PropertyEntry = chain[i];
        assert(all[i as int] == e@);
        if !(essential_only && !e.essential) {
            match &e.property {
                Property::Clap(c) => {
                    cur = apply_clap(&cur, c)?;
                },
                Property::Irot(r) => {
                    cur = apply_irot(&cur, r)?;
                },
                Property::Imir(m) => {
                    cur = apply_imir(&cur, m)?;
                },
                Property::Iscl(_) => {
                    return Err(
                        HeifError::unsupported("iscl (image scaling) transformative property"),
                    );
                },
                _ => {},
            }
        }
    }
    Ok(cur)
}

impl Picture {
    /// The picture scaled to `w × h`, each sample the nearest one.
    pub open spec fn resized(self, w: u32, h: u32) -> Picture {
        picture_of(
            w,
            h,
            self.format,
            |p: int, x: int, y: int|
                (self.at)(
                    p,
                    (x * self.dims(p).0) / (self.format.dims(p, w, h).0 as int),
                    (y * self.dims(p).1) / (self.format.dims(p, w, h).1 as int),
                ),
        )
    }

    /// The picture with every sample rescaled to `depth` bits.
    pub open spec fn rescaled(self, depth: u8) -> Picture {
        picture_of(
            self.width,
            self.height,
            HeifPixelFormat { bit_depth: depth, ..self.format },
            |p: int, x: int, y: int|
                rescaled_sample((self.at)(p, x, y), self.format.bit_depth, depth),
        )
    }
}

/// A sample of `from` bits as one of `to` bits: shifted up, or shifted down
/// with rounding and held to the largest value.
pub open spec fn rescaled_sample(v: u16, from: u8, to: u8) -> u16 {
    if to > from {
        (v * pow2((to - from) as nat) % 0x1_0000) as u16
    } else if to == from {
        v
    } else {
        let s = (from - to) as nat;
        let q = (v + pow2((s - 1) as nat)) / (pow2(s) as int);
        (if q < max_of_depth(to) {
            q
        } else {
            max_of_depth(to)
        }) as u16
    }
}

/// Nearest-neighbour resize of a monochrome / planar frame.
pub fn resize_nearest(f: &HeifFrame, w: u32, h: u32) -> (r: Result<HeifFrame>)
    requires
        f@.wf(),
    ensures
        match r {
            Ok(out) => {
                &&& out@.wf()
                &&& if w == f.width && h == f.height {
                    out@ == f@
                } else {
                    &&& size_refusal(w, h) is None
                    &&& out@.packed()
                    &&& out@.picture() == f@.picture().resized(w, h)
                }
            },
            Err(e) => (w != f.width || h != f.height) && size_refusal(w, h) == Some(e.kind()),
        },
{
    if w == f.width && h == f.height {
        return Ok(f.clone());
    }
    let ghost m = f@;
    let fmt: HeifPixelFormat = f.format;
    let read = |p: usize, x: u32, y: u32| -> (v: u16)
        requires
            f@.wf(),
            fmt == f@.format,
            fmt.has(w, h, p as int, x as int, y as int),
        ensures
            v == (f@.picture().resized(w, h).at)(p as int, x as int, y as int),
        {
            let (sw, sh) = f.plane_dims(p);
            let (dw, dh) = fmt.plane_dims(p, w, h);
            let sx: u32 = nearest(x, sw, dw);
            let sy: u32 = nearest(y, sh, dh);
            proof {
                assert(f@.has(p as int, sx as int, sy as int));
                lemma_reads(f@, p as int, sx as int, sy as int);
            }
            f.sample(p, sx, sy)
        };
    let ghost g = m.picture().resized(w, h).at;
    proof {
        assert forall|p: int, x: int, y: int| fmt.has(w, h, p, x, y) implies fmt.stored(
            #[trigger] g(p, x, y),
        ) == g(p, x, y) by {
            lemma_sample_stored(
                m,
                p,
                (x * m.dims(p).0) / (fmt.dims(p, w, h).0 as int),
                (y * m.dims(p).1) / (fmt.dims(p, w, h).1 as int),
            );
        }
        assert(m.picture().resized(w, h) =~= picture_of(w, h, fmt, g));
    }
    build_picture(w, h, fmt, read, Ghost(g))
}

/// The position among `from` samples nearest to `x` among `to`.
fn nearest(x: u32, from: u32, to: u32) -> (r: u32)
    requires
        x < to,
        from > 0,
    ensures
        r == (x * from) / (to as int),
        r < from,
{
    assert(0 <= x * from <= 0xffff_ffff * 0xffff_ffff) by (nonlinear_arith)
        requires
            0 <= x <= 0xffff_ffff,
            0 <= from <= 0xffff_ffff,
    ;
    assert((x * from) / (to as int) < from) by (nonlinear_arith)
        requires
            0 <= x < to,
            from > 0,
    ;
    assert((x * from) / (to as int) >= 0) by (nonlinear_arith)
        requires
            0 <= x < to,
            from > 0,
    ;
    ((x as u64 * from as u64) / to as u64) as u32
}

fn rescale_sample(v: u16, from: u8, to: u8) -> (r: u16)
    requires
        8 <= from <= 16,
        8 <= to <= 16,
    ensures
        r == rescaled_sample(v, from, to),
        from != to && to == 8 ==> r <= 255,
{
    proof {
        vstd::arithmetic::power2::lemma2_to64();
        crate::image::lemma_two_to_bound(16);
    }
    if to > from {
        let k: u32 = two_to(to - from) as u32;
        assert(0 <= v * k <= 0xffff * 0x1_0000) by (nonlinear_arith)
            requires
                0 <= v <= 0xffff,
                0 <= k <= 0x1_0000,
        ;
        ((v as u32 * k) % 0x1_0000) as u16
    } else if to == from {
        v
    } else {
        let s: u8 = from - to;
        let q: u32 = (v as u32 + two_to(s - 1) as u32) / two_to(s) as u32;
        let max: u32 = two_to(to) as u32 - 1;
        if q < max {
            q as u16
        } else {
            max as u16
        }
    }
}

/// Rescale every sample of a monochrome frame from `f.format.bit_depth`
/// to `depth` (shift, rounding on narrowing).
pub fn rescale_depth(f: &HeifFrame, depth: u8) -> (r: Result<HeifFrame>)
    requires
        f@.wf(),
    ensures
        match r {
            Ok(out) => {
                &&& out@.wf()
                &&& out@ == rescaled_frame(f@, depth)
                &&& if depth == f.format.bit_depth {
                    out@ == f@
                } else {
                    &&& 8 <= depth <= 16
                    &&& out@.packed()
                    &&& out@.picture() == f@.picture().rescaled(depth)
                }
            },
            Err(e) => !(8 <= depth <= 16) && e.kind() == ErrorKind::Unsupported,
        },
{
    if f.format.bit_depth == depth {
        return Ok(f.clone());
    }
    let fmt: HeifPixelFormat = HeifPixelFormat::new(f.format.chroma, depth, f.format.has_alpha)?;
    let ghost m = f@;
    let from: u8 = f.format.bit_depth;
    let read = |p: usize, x: u32, y: u32| -> (v: u16)
        requires
            f@.wf(),
            from == f@.format.bit_depth,
            8 <= depth <= 16,
            f@.has(p as int, x as int, y as int),
        ensures
            v == rescaled_sample(f@.sample(p as int, x as int, y as int), from, depth),
        {
            proof {
                lemma_reads(f@, p as int, x as int, y as int);
            }
            rescale_sample(f.sample(p, x, y), from, depth)
        };
    let ghost g = m.picture().rescaled(depth).at;
    proof {
        assert forall|p: int, x: int, y: int| m.has(p, x, y) implies fmt.stored(
            #[trigger] g(p, x, y),
        ) == g(p, x, y) by {
            lemma_rescaled_fits(m.sample(p, x, y), from, depth);
        }
        assert(m.picture().rescaled(depth) =~= picture_of(f.width, f.height, fmt, g));
    }
    build_picture(f.width, f.height, fmt, read, Ghost(g))
}

/// A sample rescaled to 8 bits fits a byte.
proof fn lemma_rescaled_fits(v: u16, from: u8, to: u8)
    requires
        8 <= from <= 16,
        8 <= to <= 16,
        from != to,
    ensures
        to == 8 ==> rescaled_sample(v, from, to) <= 255,
{
    vstd::arithmetic::power2::lemma2_to64();
    if to == 8 {
        let s = (from - to) as nat;
        vstd::arithmetic::power2::lemma_pow2_pos(s);
        vstd::arithmetic::power2::lemma_pow2_pos((s - 1) as nat);
        let q = (v + pow2((s - 1) as nat)) / (pow2(s) as int);
        assert(q >= 0) by (nonlinear_arith)
            requires
                q == (v + pow2((s - 1) as nat)) / (pow2(s) as int),
                v >= 0,
                pow2((s - 1) as nat) > 0,
                pow2(s) > 0,
        ;
    }
}

/// The sample of an alpha auxiliary for position `(x, y)` of a `w × h` master
/// of `depth` bits.
pub open spec fn auxiliary_sample(a: FrameModel, w: u32, h: u32, depth: u8, x: int, y: int) -> u16 {
    let v = if w == a.width && h == a.height {
        a.sample(0, x, y)
    } else {
        a.sample(0, (x * a.width) / (w as int), (y * a.height) / (h as int))
    };
    rescaled_sample(v, a.format.bit_depth, depth)
}

impl Picture {
    /// The picture with an alpha plane: the luma of `alpha`, resized and
    /// rescaled to this picture.
    pub open spec fn with_alpha_of(self, alpha: Picture) -> Picture {
        let c = self.format.chroma.planes();
        picture_of(
            self.width,
            self.height,
            HeifPixelFormat { has_alpha: true, ..self.format },
            |p: int, x: int, y: int|
                if p == c {
                    let v = if self.width == alpha.width && self.height == alpha.height {
                        (alpha.at)(0, x, y)
                    } else {
                        (alpha.at)(
                            0,
                            (x * alpha.width) / (self.width as int),
                            (y * alpha.height) / (self.height as int),
                        )
                    };
                    rescaled_sample(v, alpha.format.bit_depth, self.format.bit_depth)
                } else {
                    (self.at)(p, x, y)
                },
        )
    }
}

/// A frame with an alpha auxiliary shows the picture with it.
proof fn lemma_alpha_picture(out: FrameModel, master: FrameModel, alpha: FrameModel)
    requires
        master.wf(),
        alpha.wf(),
        out.wf(),
        out.width == master.width,
        out.height == master.height,
        out.format == (HeifPixelFormat { has_alpha: true, ..master.format }),
        out.colour_only() == master.colour_only(),
        forall|x: int, y: int|
            0 <= x < out.width && 0 <= y < out.height ==> #[trigger] out.sample(
                master.format.chroma.planes(),
                x,
                y,
            ) == auxiliary_sample(
                alpha,
                master.width,
                master.height,
                master.format.bit_depth,
                x,
                y,
            ),
    ensures
        out.picture() == master.picture().with_alpha_of(alpha.picture()),
{
    let c = master.format.chroma.planes();
    let want = master.picture().with_alpha_of(alpha.picture());
    let (w, h) = (master.width as int, master.height as int);
    assert forall|p: int, x: int, y: int| #[trigger] (out.picture().at)(p, x, y) == (want.at)(p, x, y) by {
        if out.has(p, x, y) {
            if p == c {
                assert(out.sample(c, x, y) == auxiliary_sample(
                    alpha,
                    master.width,
                    master.height,
                    master.format.bit_depth,
                    x,
                    y,
                ));
                if master.width != alpha.width || master.height != alpha.height {
                    lemma_nearest_inside(x, alpha.width as int, w);
                    lemma_nearest_inside(y, alpha.height as int, h);
                }
            } else {
                assert(out.colour_only().planes[p] == master.colour_only().planes[p]);
                assert(out.planes[p] == master.planes[p]);
            }
        }
    }
    assert(out.picture() =~= want);
}

proof fn lemma_nearest_inside(x: int, from: int, to: int)
    requires
        0 <= x < to,
        0 < from,
    ensures
        0 <= (x * from) / to < from,
{
    assert(0 <= (x * from) / to < from) by (nonlinear_arith)
        requires
            0 <= x < to,
            0 < from,
    ;
}

/// Attach an alpha auxiliary (§6.9.1) to `master`: the auxiliary's luma
/// plane is used, resized to the master's size when they differ, and
/// rescaled to the master's bit depth.
pub fn attach_alpha(master: &HeifFrame, alpha: &HeifFrame) -> (r: Result<HeifFrame>)
    requires
        master@.wf(),
        alpha@.wf(),
    ensures
        r matches Ok(out) && {
            let c = master.format.chroma.planes();
            &&& out@.wf()
            &&& out.width == master.width
            &&& out.height == master.height
            &&& out.format == (HeifPixelFormat { has_alpha: true, ..master.format })
            &&& out@.colour_only() == master@.colour_only()
            &&& forall|x: int, y: int|
                0 <= x < out.width && 0 <= y < out.height ==> #[trigger] out@.sample(c, x, y)
                    == auxiliary_sample(
                    alpha@,
                    master.width,
                    master.height,
                    master.format.bit_depth,
                    x,
                    y,
                )
            &&& out@.picture() == master@.picture().with_alpha_of(alpha@.picture())
        },
{
    let mono: HeifPixelFormat = HeifPixelFormat::new(
        Chroma::Mono,
        alpha.format.bit_depth,
        false,
    )?;
    let mut planes: Vec<HeifPlane> = Vec::new();
    planes.push(alpha.planes[0].clone());
    let luma: HeifFrame = HeifFrame {
        width: alpha.width,
        height: alpha.height,
        format: mono,
        planes,
    };
    proof {
        assert(luma@.planes =~= seq![alpha@.planes[0]]);
        assert(alpha@.planes[0].holds(
            alpha@.dims(0).0 * alpha@.format.bps(),
            alpha@.dims(0).1 as int,
        ));
        assert(luma@.layout_ok());
    }
    let sized: HeifFrame = resize_nearest(&luma, master.width, master.height)?;
    let depth: HeifFrame = rescale_depth(&sized, master.format.bit_depth)?;
    proof {
        lemma_attached(master@, alpha@, luma@, sized@, depth@);
    }
    let out: HeifFrame = master.with_alpha_plane(&depth)?;
    proof {
        lemma_alpha_picture(out@, master@, alpha@);
    }
    Ok(out)
}

proof fn lemma_attached(
    master: FrameModel,
    alpha: FrameModel,
    luma: FrameModel,
    sized: FrameModel,
    depth: FrameModel,
)
    requires
        master.wf(),
        alpha.wf(),
        luma.wf(),
        luma.width == alpha.width,
        luma.height == alpha.height,
        luma.format == (HeifPixelFormat {
            chroma: Chroma::Mono,
            bit_depth: alpha.format.bit_depth,
            has_alpha: false,
        }),
        luma.planes == seq![alpha.planes[0]],
        sized.wf(),
        if master.width == luma.width && master.height == luma.height {
            sized == luma
        } else {
            sized.picture() == luma.picture().resized(master.width, master.height)
        },
        depth.wf(),
        if master.format.bit_depth == sized.format.bit_depth {
            depth == sized
        } else {
            depth.picture() == sized.picture().rescaled(master.format.bit_depth)
        },
    ensures
        master.attached(depth) == Ok::<FrameModel, ErrorKind>(master.joined(depth)),
        master.joined(depth).wf(),
        master.joined(depth).colour_only() == master.colour_only(),
        forall|x: int, y: int|
            0 <= x < master.width && 0 <= y < master.height ==> #[trigger] master.joined(
                depth,
            ).sample(master.format.chroma.planes(), x, y) == auxiliary_sample(
                alpha,
                master.width,
                master.height,
                master.format.bit_depth,
                x,
                y,
            ),
{
    let c = master.format.chroma.planes();
    let out = master.joined(depth);
    let (w, h) = (master.width, master.height);
    assert(depth.width == w && depth.height == h && depth.format.bit_depth
        == master.format.bit_depth && depth.format.chroma == Chroma::Mono
        && !depth.format.has_alpha) by {
        let sp = sized.picture();
        let dp = depth.picture();
        assert(sized.width == sp.width && sized.format == sp.format);
        assert(depth.width == dp.width && depth.format == dp.format);
    }
    assert forall|q: int| 0 <= q < out.planes.len() implies (#[trigger] out.planes[q]).holds(
        out.dims(q).0 * out.format.bps(),
        out.dims(q).1 as int,
    ) by {
        if q < c {
            assert(out.planes[q] == master.planes[q]);
            assert(master.planes[q].holds(
                master.dims(q).0 * master.format.bps(),
                master.dims(q).1 as int,
            ));
        } else {
            assert(out.planes[q] == depth.planes[0]);
            assert(depth.planes[0].holds(
                depth.dims(0).0 * depth.format.bps(),
                depth.dims(0).1 as int,
            ));
        }
    }
    assert(out.layout_ok());
    assert(out.colour_only().planes =~= master.colour_only().planes);
    assert(out.colour_only() =~= master.colour_only());
    assert forall|x: int, y: int| 0 <= x < w && 0 <= y < h implies #[trigger] out.sample(c, x, y)
        == auxiliary_sample(alpha, w, h, master.format.bit_depth, x, y) by {
        assert(out.planes[c] == depth.planes[0]);
        assert(out.sample(c, x, y) == depth.sample(0, x, y));
        assert((depth.picture().at)(0, x, y) == depth.sample(0, x, y));
        assert((sized.picture().at)(0, x, y) == sized.sample(0, x, y));
        if !(w == luma.width && h == luma.height) {
            let sx = (x * luma.width) / (w as int);
            let sy = (y * luma.height) / (h as int);
            assert(0 <= sx < luma.width) by (nonlinear_arith)
                requires
                    sx == (x * luma.width) / (w as int),
                    0 <= x < w,
                    luma.width > 0,
            ;
            assert(0 <= sy < luma.height) by (nonlinear_arith)
                requires
                    sy == (y * luma.height) / (h as int),
                    0 <= y < h,
                    luma.height > 0,
            ;
            assert((luma.picture().at)(0, sx, sy) == luma.sample(0, sx, sy));
            assert(luma.sample(0, sx, sy) == alpha.sample(0, sx, sy));
            assert((luma.picture().resized(w, h).at)(0, x, y) == luma.sample(0, sx, sy));
        } else {
            assert(luma.sample(0, x, y) == alpha.sample(0, x, y));
        }
    }
}

/// Mirroring a picture twice along one axis gives it back.
#[verifier::rlimit(50)]
pub proof fn law_mirror_twice(f: Picture, left_right: bool)
    requires
        f.bounded(),
    ensures
        f.mirrored(left_right).mirrored(left_right) == f,
{
    let g = f.mirrored(left_right).mirrored(left_right);
    assert forall|p: int, x: int, y: int| #[trigger] (g.at)(p, x, y) == (f.at)(p, x, y) by {}
    assert(g =~= f);
}

/// Turning by `a` and then by `b` quarter turns is turning by their sum, for a
/// picture that no turn promotes.
#[verifier::rlimit(80)]
#[verifier::spinoff_prover]
pub proof fn law_turns_add(f: Picture, a: u8, b: u8)
    requires
        f.bounded(),
        !f.turn_promotes(1),
        a + b <= 255,
    ensures
        rotated(rotated(f, a), b) == rotated(f, (a + b) as u8),
{
    let m = a as int % 4;
    let n = b as int % 4;
    assert((a + b) % 4 == (m + n) % 4);
    let once = rotated(f, a);
    let twice = rotated(once, b);
    let whole = rotated(f, (a + b) as u8);
    assert(!f.turn_promotes(m));
    assert(!once.turn_promotes(n));
    assert forall|p: int, x: int, y: int| #[trigger] (twice.at)(p, x, y) == (whole.at)(p, x, y) by {
        assert(f.format.has(f.width, f.height, p, x, y) || (f.at)(p, x, y) == 0);
    }
    assert(twice =~= whole);
}

/// Four quarter turns give the picture back, in 4:4:4 where a quarter turn of
/// it needs that.
#[verifier::rlimit(50)]
pub proof fn law_four_turns(f: Picture)
    requires
        f.bounded(),
    ensures
        rotated(rotated(rotated(rotated(f, 1), 1), 1), 1) == f.promoted_if(f.turn_promotes(1)),
{
    let g = f.promoted_if(f.turn_promotes(1));
    assert(g.bounded());
    assert(!g.turn_promotes(1));
    assert(rotated(f, 1) == rotated(g, 1));
    law_turns_add(g, 1, 1);
    law_turns_add(g, 2, 1);
    law_turns_add(g, 3, 1);
}

/// A picture shown by a frame has samples only at the positions of its layout.
#[verifier::rlimit(50)]
pub proof fn law_frame_picture_bounded(f: FrameModel)
    ensures
        f.picture().bounded(),
{
}

/// Cutting out a part of a cut-out part is cutting it out of the whole.
#[verifier::rlimit(50)]
pub proof fn law_cut_twice(f: Picture, x: u32, y: u32, w: u32, h: u32, a: u32, b: u32, c: u32, d: u32)
    requires
        f.bounded(),
        f.format.chroma.shift_x() == 0,
        cropped(f, x, y, w, h) is Ok,
        cropped(cropped(f, x, y, w, h)->Ok_0, a, b, c, d) is Ok,
    ensures
        cropped(cropped(f, x, y, w, h)->Ok_0, a, b, c, d) == cropped(
            f,
            (x + a) as u32,
            (y + b) as u32,
            c,
            d,
        ),
{
    let once = cropped(f, x, y, w, h)->Ok_0;
    let twice = cropped(once, a, b, c, d)->Ok_0;
    let whole = cropped(f, (x + a) as u32, (y + b) as u32, c, d)->Ok_0;
    assert(twice =~= whole);
}

} // verus!
