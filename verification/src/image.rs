//! Crate-local planar image type used by the composition layer.
//!
//! [`HeifFrame`] is a planar YCbCr / monochrome picture with an optional alpha
//! plane: one byte per sample at 8 bits, one little-endian 16-bit word per
//! sample above 8 bits (sample values in the low bits). It mirrors what the
//! codec crates emit and what the framework's `VideoFrame` carries, without
//! depending on either.
use crate::bytes::{copy_of, put, span};
use crate::error::{ErrorKind, HeifError, Result};
use crate::text::{concat, decimal};
use vstd::prelude::*;

pub mod core_bridge;
pub mod layouts;
pub mod seen;

verus! {

/// Chroma sampling structure.
#[derive(Clone, Copy, Debug, PartialEq, Eq, Hash, Structural)]
pub enum Chroma {
    /// 4:0:0 — luma only.
    Mono,
    /// 4:2:0 — chroma halved horizontally and vertically.
    Yuv420,
    /// 4:2:2 — chroma halved horizontally.
    Yuv422,
    /// 4:4:4 — full-resolution chroma.
    Yuv444,
}

/// `v` halved, rounded up.
pub open spec fn half_up(v: u32) -> u32 {
    (v / 2 + v % 2) as u32
}

/// `v` scaled down by `shift` bits (0 or 1), rounded up.
pub open spec fn shrunk_up(v: u32, shift: u32) -> u32 {
    if shift == 1 {
        half_up(v)
    } else {
        v
    }
}

/// `v` scaled down by `shift` bits (0 or 1).
pub open spec fn shrunk(v: int, shift: u32) -> int {
    if shift == 1 {
        v / 2
    } else {
        v
    }
}

impl Chroma {
    /// The structure a `chroma_format_idc` names.
    pub open spec fn of_idc(idc: int) -> Option<Chroma> {
        if idc == 0 {
            Some(Chroma::Mono)
        } else if idc == 1 {
            Some(Chroma::Yuv420)
        } else if idc == 2 {
            Some(Chroma::Yuv422)
        } else if idc == 3 {
            Some(Chroma::Yuv444)
        } else {
            None
        }
    }

    /// Whether chroma is halved horizontally (1) or not (0).
    pub open spec fn shift_x(self) -> u32 {
        match self {
            Chroma::Yuv420 | Chroma::Yuv422 => 1,
            _ => 0,
        }
    }

    /// Whether chroma is halved vertically (1) or not (0).
    pub open spec fn shift_y(self) -> u32 {
        match self {
            Chroma::Yuv420 => 1,
            _ => 0,
        }
    }

    /// Number of colour planes.
    pub open spec fn planes(self) -> int {
        if self == Chroma::Mono {
            1
        } else {
            3
        }
    }

    /// Chroma plane size for a `w × h` luma plane.
    pub open spec fn dims(self, w: u32, h: u32) -> (u32, u32) {
        (shrunk_up(w, self.shift_x()), shrunk_up(h, self.shift_y()))
    }

    /// From an HEVC / AV1-style `chroma_format_idc`.
    pub fn from_idc(idc: u8) -> (r: Option<Self>)
        ensures
            r == Chroma::of_idc(idc as int),
    {
        match idc {
            0 => Some(Chroma::Mono),
            1 => Some(Chroma::Yuv420),
            2 => Some(Chroma::Yuv422),
            3 => Some(Chroma::Yuv444),
            _ => None,
        }
    }

    /// The `chroma_format_idc` value.
    pub fn idc(&self) -> (r: u8)
        ensures
            r <= 3,
            Chroma::of_idc(r as int) == Some(*self),
    {
        match self {
            Chroma::Mono => 0,
            Chroma::Yuv420 => 1,
            Chroma::Yuv422 => 2,
            Chroma::Yuv444 => 3,
        }
    }

    /// `(shift_x, shift_y)` of the chroma planes relative to luma.
    pub fn shift(&self) -> (r: (u32, u32))
        ensures
            r == (self.shift_x(), self.shift_y()),
    {
        match self {
            Chroma::Mono => (0, 0),
            Chroma::Yuv420 => (1, 1),
            Chroma::Yuv422 => (1, 0),
            Chroma::Yuv444 => (0, 0),
        }
    }

    /// Number of colour planes (1 or 3).
    pub fn colour_planes(&self) -> (r: usize)
        ensures
            r == self.planes(),
    {
        if *self == Chroma::Mono {
            1
        } else {
            3
        }
    }

    /// Chroma plane size for a `width × height` luma plane.
    pub fn chroma_dims(&self, width: u32, height: u32) -> (r: (u32, u32))
        ensures
            r == self.dims(width, height),
    {
        let (sx, sy) = self.shift();
        (
            if sx == 1 {
                width / 2 + width % 2
            } else {
                width
            },
            if sy == 1 {
                height / 2 + height % 2
            } else {
                height
            },
        )
    }
}

/// `v` scaled down by `shift` bits (0 or 1).
pub fn shrink(v: u32, shift: u32) -> (r: u32)
    ensures
        r == shrunk(v as int, shift),
        r <= v,
{
    if shift == 1 {
        v / 2
    } else {
        v
    }
}

/// Sample layout of a [`HeifFrame`].
#[derive(Clone, Copy, Debug, PartialEq, Eq, Hash, Structural)]
pub struct HeifPixelFormat {
    /// Chroma structure.
    pub chroma: Chroma,
    /// Bits per sample (8..=16).
    pub bit_depth: u8,
    /// Whether a full-resolution alpha plane follows the colour planes.
    pub has_alpha: bool,
}

/// `2^depth - 1` for the depths a layout can have.
pub open spec fn max_of_depth(depth: u8) -> int {
    vstd::arithmetic::power2::pow2(depth as nat) - 1
}

/// The layout asked for, refused when the depth is outside `8..=16`.
pub open spec fn pixel_format(chroma: Chroma, bit_depth: u8, has_alpha: bool) -> core::result::Result<
    HeifPixelFormat,
    ErrorKind,
> {
    if 8 <= bit_depth <= 16 {
        Ok(HeifPixelFormat { chroma, bit_depth, has_alpha })
    } else {
        Err(ErrorKind::Unsupported)
    }
}

impl HeifPixelFormat {
    /// The depth is one a layout can have.
    pub open spec fn wf(self) -> bool {
        8 <= self.bit_depth <= 16
    }

    /// Bytes per sample.
    pub open spec fn bps(self) -> int {
        if self.bit_depth > 8 {
            2
        } else {
            1
        }
    }

    /// Number of planes.
    pub open spec fn planes(self) -> int {
        self.chroma.planes() + (if self.has_alpha {
            1int
        } else {
            0int
        })
    }

    /// Whether `plane` is the alpha plane.
    pub open spec fn is_alpha(self, plane: int) -> bool {
        self.has_alpha && plane == self.chroma.planes()
    }

    /// Size of plane `plane` for a `w × h` picture.
    pub open spec fn dims(self, plane: int, w: u32, h: u32) -> (u32, u32) {
        if plane == 0 || self.is_alpha(plane) {
            (w, h)
        } else {
            self.chroma.dims(w, h)
        }
    }

    /// Whether plane `p` of a `w × h` picture has a sample at `(x, y)`.
    pub open spec fn has(self, w: u32, h: u32, p: int, x: int, y: int) -> bool {
        &&& 0 <= p < self.planes()
        &&& 0 <= x < self.dims(p, w, h).0
        &&& 0 <= y < self.dims(p, w, h).1
    }

    /// What a sample of value `v` reads back as: the low byte at 8 bits.
    pub open spec fn stored(self, v: u16) -> u16 {
        if self.bit_depth > 8 {
            v
        } else {
            (v % 256) as u16
        }
    }

    /// Build a format; `bit_depth` outside `8..=16` is rejected.
    pub fn new(chroma: Chroma, bit_depth: u8, has_alpha: bool) -> (r: Result<Self>)
        ensures
            crate::error::plain_outcome(r) == pixel_format(chroma, bit_depth, has_alpha),
    {
        if !(8 <= bit_depth && bit_depth <= 16) {
            let d: String = decimal(bit_depth as u64);
            return Err(HeifError::unsupported(concat(&["bit depth ", d.as_str()])));
        }
        Ok(Self { chroma, bit_depth, has_alpha })
    }

    /// Bytes per sample (1 or 2).
    pub fn bytes_per_sample(&self) -> (r: usize)
        ensures
            r == self.bps(),
    {
        if self.bit_depth > 8 {
            2
        } else {
            1
        }
    }

    /// Maximum sample value.
    pub fn max_value(&self) -> (r: u16)
        requires
            self.wf(),
        ensures
            r == max_of_depth(self.bit_depth),
    {
        proof {
            vstd::arithmetic::power2::lemma2_to64();
        }
        match self.bit_depth {
            8 => 255,
            9 => 511,
            10 => 1023,
            11 => 2047,
            12 => 4095,
            13 => 8191,
            14 => 16383,
            15 => 32767,
            _ => 65535,
        }
    }

    /// Number of planes (colour planes + alpha).
    pub fn plane_count(&self) -> (r: usize)
        ensures
            r == self.planes(),
    {
        if self.has_alpha {
            self.chroma.colour_planes() + 1
        } else {
            self.chroma.colour_planes()
        }
    }

    /// Index of the alpha plane, when present.
    pub fn alpha_plane(&self) -> (r: Option<usize>)
        ensures
            r == (if self.has_alpha {
                Some(self.chroma.planes() as usize)
            } else {
                None
            }),
    {
        if self.has_alpha {
            Some(self.chroma.colour_planes())
        } else {
            None
        }
    }

    /// Size of plane `plane` for a `width × height` picture.
    pub fn plane_dims(&self, plane: usize, width: u32, height: u32) -> (r: (u32, u32))
        ensures
            r == self.dims(plane as int, width, height),
    {
        if plane == 0 || (self.has_alpha && plane == self.chroma.colour_planes()) {
            (width, height)
        } else {
            self.chroma.chroma_dims(width, height)
        }
    }

    /// The same layout with an alpha plane.
    pub fn with_alpha(&self) -> (r: Self)
        ensures
            r == (HeifPixelFormat { has_alpha: true, ..*self }),
    {
        HeifPixelFormat { chroma: self.chroma, bit_depth: self.bit_depth, has_alpha: true }
    }

    /// The same layout without an alpha plane.
    pub fn without_alpha(&self) -> (r: Self)
        ensures
            r == (HeifPixelFormat { has_alpha: false, ..*self }),
    {
        HeifPixelFormat { chroma: self.chroma, bit_depth: self.bit_depth, has_alpha: false }
    }
}

/// One plane: `stride` bytes per row, rows packed top to bottom.
#[derive(Debug, PartialEq, Eq)]
pub struct HeifPlane {
    /// Bytes per row.
    pub stride: usize,
    /// `stride × rows` bytes.
    pub data: Vec<u8>,
}

/// Model of a [`HeifPlane`].
#[verifier::ext_equal]
pub struct PlaneModel {
    /// Bytes per row.
    pub stride: usize,
    /// The rows.
    pub data: Seq<u8>,
}

impl View for HeifPlane {
    type V = PlaneModel;

    open spec fn view(&self) -> PlaneModel {
        PlaneModel { stride: self.stride, data: self.data@ }
    }
}

impl DeepView for HeifPlane {
    type V = PlaneModel;

    open spec fn deep_view(&self) -> PlaneModel {
        self@
    }
}

impl Clone for HeifPlane {
    fn clone(&self) -> (r: Self)
        ensures
            r@ == self@,
    {
        HeifPlane { stride: self.stride, data: copy_of(self.data.as_slice()) }
    }
}

/// A planar picture.
#[derive(Debug, PartialEq, Eq)]
pub struct HeifFrame {
    /// Luma width in pixels.
    pub width: u32,
    /// Luma height in pixels.
    pub height: u32,
    /// Sample layout.
    pub format: HeifPixelFormat,
    /// The planes, `format.plane_count()` of them.
    pub planes: Vec<HeifPlane>,
}

/// Upper bound on the luma pixel count of a frame this crate allocates.
pub const MAX_FRAME_PIXELS: u64 = 0x4000_0000;

/// Model of a [`HeifFrame`].
#[verifier::ext_equal]
pub struct FrameModel {
    /// Luma width in pixels.
    pub width: u32,
    /// Luma height in pixels.
    pub height: u32,
    /// Sample layout.
    pub format: HeifPixelFormat,
    /// The planes.
    pub planes: Seq<PlaneModel>,
}

/// The sample stored at byte `i`: one byte, or a little-endian word.
pub open spec fn sample_in(data: Seq<u8>, i: int, bps: int) -> u16 {
    if bps == 1 {
        data[i] as u16
    } else {
        (data[i] + 256 * data[i + 1]) as u16
    }
}

/// Why a picture of this size is refused, `None` when it is not.
pub open spec fn size_refusal(w: u32, h: u32) -> Option<ErrorKind> {
    if w == 0 || h == 0 {
        Some(ErrorKind::Invalid)
    } else if w * h > MAX_FRAME_PIXELS {
        Some(ErrorKind::Exhausted)
    } else {
        None
    }
}

impl PlaneModel {
    /// The plane has `h` rows of `row` bytes.
    pub open spec fn holds(self, row: int, h: int) -> bool {
        &&& self.stride >= row
        &&& self.data.len() >= self.stride * (h - 1) + row
    }
}

impl FrameModel {
    /// Size of plane `p`.
    pub open spec fn dims(self, p: int) -> (u32, u32) {
        self.format.dims(p, self.width, self.height)
    }

    /// The planes are those the layout needs, each large enough.
    pub open spec fn layout_ok(self) -> bool {
        &&& self.planes.len() == self.format.planes()
        &&& forall|p: int|
            0 <= p < self.planes.len() ==> (#[trigger] self.planes[p]).holds(
                self.dims(p).0 * self.format.bps(),
                self.dims(p).1 as int,
            )
    }

    /// The frame is a picture of an acceptable size with its planes in place.
    pub open spec fn wf(self) -> bool {
        &&& self.format.wf()
        &&& size_refusal(self.width, self.height) is None
        &&& self.layout_ok()
    }

    /// Whether there is a sample at `(x, y)` of plane `p`.
    pub open spec fn has(self, p: int, x: int, y: int) -> bool {
        self.format.has(self.width, self.height, p, x, y)
    }

    /// Byte offset of the sample at `(x, y)` in plane `p`.
    pub open spec fn offset(self, p: int, x: int, y: int) -> int {
        y * self.planes[p].stride + x * self.format.bps()
    }

    /// The sample at `(x, y)` of plane `p`.
    pub open spec fn sample(self, p: int, x: int, y: int) -> u16 {
        sample_in(self.planes[p].data, self.offset(p, x, y), self.format.bps())
    }

    /// Every plane has rows of exactly its width and nothing more.
    pub open spec fn packed(self) -> bool {
        forall|p: int|
            0 <= p < self.planes.len() ==> {
                &&& (#[trigger] self.planes[p]).stride == self.dims(p).0 * self.format.bps()
                &&& self.planes[p].data.len() == self.planes[p].stride * self.dims(p).1
            }
    }

    /// The frame is the packed `w × h` picture of layout `fmt` whose sample at
    /// `(x, y)` of plane `p` is `g(p, x, y)`.
    pub open spec fn shows(
        self,
        w: u32,
        h: u32,
        fmt: HeifPixelFormat,
        g: spec_fn(int, int, int) -> u16,
    ) -> bool {
        &&& self.width == w
        &&& self.height == h
        &&& self.format == fmt
        &&& self.layout_ok()
        &&& self.packed()
        &&& forall|p: int, x: int, y: int|
            fmt.has(w, h, p, x, y) ==> #[trigger] self.sample(p, x, y) == g(p, x, y)
    }

    /// The frame with the sample at `(x, y)` of plane `p` set to `v`.
    pub open spec fn with_sample(self, p: int, x: int, y: int, v: u16) -> FrameModel {
        let i = self.offset(p, x, y);
        let d = self.planes[p].data;
        let nd = if self.format.bps() == 1 {
            d.update(i, (v % 256) as u8)
        } else {
            d.update(i, (v % 256) as u8).update(i + 1, (v / 256) as u8)
        };
        FrameModel {
            planes: self.planes.update(p, PlaneModel { stride: self.planes[p].stride, data: nd }),
            ..self
        }
    }

    /// The colour planes only.
    pub open spec fn colour_only(self) -> FrameModel {
        FrameModel {
            format: HeifPixelFormat { has_alpha: false, ..self.format },
            planes: self.planes.take(self.format.chroma.planes()),
            ..self
        }
    }

    /// The alpha plane as a monochrome frame.
    pub open spec fn alpha_frame(self) -> FrameModel {
        FrameModel {
            format: HeifPixelFormat {
                chroma: Chroma::Mono,
                bit_depth: self.format.bit_depth,
                has_alpha: false,
            },
            planes: seq![self.planes[self.format.chroma.planes()]],
            ..self
        }
    }

    /// The colour planes with the first plane of `alpha` as the alpha plane.
    pub open spec fn joined(self, alpha: FrameModel) -> FrameModel {
        let c = self.colour_only();
        FrameModel {
            format: HeifPixelFormat { has_alpha: true, ..c.format },
            planes: c.planes.push(alpha.planes[0]),
            ..c
        }
    }

    /// What [`HeifFrame::validate`] finds wrong, `None` when nothing is.
    pub open spec fn refusal(self) -> Option<ErrorKind> {
        match size_refusal(self.width, self.height) {
            Some(e) => Some(e),
            None => if self.layout_ok() {
                None
            } else {
                Some(ErrorKind::Invalid)
            },
        }
    }

    /// What attaching `alpha` gives.
    pub open spec fn attached(self, alpha: FrameModel) -> core::result::Result<
        FrameModel,
        ErrorKind,
    > {
        if alpha.width != self.width || alpha.height != self.height {
            Err(ErrorKind::Invalid)
        } else if alpha.format.bit_depth != self.format.bit_depth {
            Err(ErrorKind::Unsupported)
        } else {
            match self.joined(alpha).refusal() {
                Some(e) => Err(e),
                None => Ok(self.joined(alpha)),
            }
        }
    }
}

impl View for HeifFrame {
    type V = FrameModel;

    open spec fn view(&self) -> FrameModel {
        FrameModel {
            width: self.width,
            height: self.height,
            format: self.format,
            planes: self.planes.deep_view(),
        }
    }
}

impl DeepView for HeifFrame {
    type V = FrameModel;

    open spec fn deep_view(&self) -> FrameModel {
        self@
    }
}

/// Every sample of a well-formed frame lies inside its plane.
pub proof fn lemma_sample_inside(f: FrameModel, p: int, x: int, y: int)
    requires
        f.layout_ok(),
        f.has(p, x, y),
    ensures
        0 <= f.offset(p, x, y),
        0 <= y * f.planes[p].stride,
        f.offset(p, x, y) + f.format.bps() <= f.planes[p].data.len(),
{
    let s = f.planes[p].stride as int;
    let w = f.dims(p).0 as int;
    let h = f.dims(p).1 as int;
    let b = f.format.bps();
    assert(f.planes[p].holds(w * b, h));
    assert(y * s <= s * (h - 1)) by (nonlinear_arith)
        requires
            0 <= y <= h - 1,
            0 <= s,
    ;
    assert(0 <= y * s) by (nonlinear_arith)
        requires
            0 <= y,
            0 <= s,
    ;
    assert(x * b + b <= w * b && 0 <= x * b) by (nonlinear_arith)
        requires
            0 <= x < w,
            b == 1 || b == 2,
    ;
}

/// Different samples of a plane do not share bytes.
proof fn lemma_samples_apart(s: int, b: int, w: int, x: int, y: int, i: int, j: int)
    requires
        s >= w * b,
        b == 1 || b == 2,
        0 <= x < w,
        0 <= i < w,
        0 <= y,
        0 <= j,
        (x, y) != (i, j),
    ensures
        y * s + x * b + b <= j * s + i * b || j * s + i * b + b <= y * s + x * b,
{
    assert(x * b + b <= w * b && i * b + b <= w * b && 0 <= x * b && 0 <= i * b)
        by (nonlinear_arith)
        requires
            0 <= x < w,
            0 <= i < w,
            b == 1 || b == 2,
    ;
    if y < j {
        assert(y * s + s <= j * s) by (nonlinear_arith)
            requires
                y + 1 <= j,
                s >= 0,
        ;
    } else if j < y {
        assert(j * s + s <= y * s) by (nonlinear_arith)
            requires
                j + 1 <= y,
                s >= 0,
        ;
    } else {
        assert(x * b + b <= i * b || i * b + b <= x * b) by (nonlinear_arith)
            requires
                x != i,
                b == 1 || b == 2,
        ;
    }
}

/// Setting a sample makes it read back as what was stored, and leaves every
/// other sample of the frame as it was.
#[verifier::rlimit(50)]
pub proof fn law_set_sample(f: FrameModel, p: int, x: int, y: int, v: u16)
    requires
        f.layout_ok(),
        f.has(p, x, y),
    ensures
        f.with_sample(p, x, y, v).layout_ok(),
        f.packed() ==> f.with_sample(p, x, y, v).packed(),
        f.with_sample(p, x, y, v).sample(p, x, y) == f.format.stored(v),
        forall|q: int, i: int, j: int|
            f.has(q, i, j) && (q, i, j) != (p, x, y) ==> #[trigger] f.with_sample(
                p,
                x,
                y,
                v,
            ).sample(q, i, j) == f.sample(q, i, j),
{
    let g = f.with_sample(p, x, y, v);
    lemma_sample_inside(f, p, x, y);
    assert forall|q: int| 0 <= q < g.planes.len() implies (#[trigger] g.planes[q]).holds(
        g.dims(q).0 * g.format.bps(),
        g.dims(q).1 as int,
    ) by {
        assert(f.planes[q].holds(f.dims(q).0 * f.format.bps(), f.dims(q).1 as int));
    }
    assert forall|q: int, i: int, j: int| f.has(q, i, j) && (q, i, j) != (p, x, y) implies
        #[trigger] g.sample(q, i, j) == f.sample(q, i, j) by {
        lemma_sample_inside(f, q, i, j);
        if q == p {
            let w = f.dims(p).0 as int;
            assert(f.planes[p].holds(w * f.format.bps(), f.dims(p).1 as int));
            lemma_samples_apart(f.planes[p].stride as int, f.format.bps(), w, x, y, i, j);
        }
    }
    if f.packed() {
        assert forall|q: int| 0 <= q < g.planes.len() implies {
            &&& (#[trigger] g.planes[q]).stride == g.dims(q).0 * g.format.bps()
            &&& g.planes[q].data.len() == g.planes[q].stride * g.dims(q).1
        } by {
            assert(f.planes[q].stride == f.dims(q).0 * f.format.bps());
        }
    }
}

impl Clone for HeifFrame {
    fn clone(&self) -> (r: Self)
        ensures
            r@ == self@,
    {
        let r: HeifFrame = HeifFrame {
            width: self.width,
            height: self.height,
            format: self.format,
            planes: self.planes.clone(),
        };
        proof {
            assert forall|i: int| 0 <= i < self.planes@.len() implies r.planes@[i]@
                == self.planes@[i]@ by {
                assert(cloned(self.planes@[i], r.planes@[i]));
            }
            assert(r@.planes =~= self@.planes);
        }
        r
    }
}

fn build_row<F: Fn(usize, u32, u32) -> u16>(
    w: u32,
    wide: bool,
    p: usize,
    y: u32,
    f: &F,
    Ghost(g): Ghost<spec_fn(int, int, int) -> u16>,
) -> (row: Vec<u8>)
    requires
        forall|x: u32| x < w ==> call_requires(*f, (p, x, y)),
        forall|x: u32, v: u16|
            x < w && #[trigger] call_ensures(*f, (p, x, y), v) ==> v == g(
                p as int,
                x as int,
                y as int,
            ),
    ensures
        row@.len() == w * (if wide {
            2int
        } else {
            1int
        }),
        forall|x: int|
            0 <= x < w ==> (if wide {
                #[trigger] g(p as int, x, y as int) == sample_in(row@, 2 * x, 2)
            } else {
                g(p as int, x, y as int) % 256 == sample_in(row@, x, 1)
            }),
{
    let mut row: Vec<u8> = Vec::new();
    let mut x: u32 = 0;
    while x < w
        invariant
            x <= w,
            row@.len() == x * (if wide {
                2int
            } else {
                1int
            }),
            forall|x: u32| x < w ==> call_requires(*f, (p, x, y)),
            forall|x: u32, v: u16|
                x < w && #[trigger] call_ensures(*f, (p, x, y), v) ==> v == g(
                    p as int,
                    x as int,
                    y as int,
                ),
            forall|i: int|
                0 <= i < x ==> (if wide {
                    #[trigger] g(p as int, i, y as int) == sample_in(row@, 2 * i, 2)
                } else {
                    g(p as int, i, y as int) % 256 == sample_in(row@, i, 1)
                }),
        decreases w - x,
    {
        let v: u16 = f(p, x, y);
        let ghost before = row@;
        row.push((v % 256) as u8);
        if wide {
            row.push((v / 256) as u8);
        }
        proof {
            assert forall|i: int| 0 <= i < x implies (if wide {
                #[trigger] g(p as int, i, y as int) == sample_in(row@, 2 * i, 2)
            } else {
                g(p as int, i, y as int) % 256 == sample_in(row@, i, 1)
            }) by {
                if wide {
                    assert(row@[2 * i] == before[2 * i]);
                    assert(row@[2 * i + 1] == before[2 * i + 1]);
                } else {
                    assert(row@[i] == before[i]);
                }
            }
        }
        x = x + 1;
    }
    row
}

/// The packed plane of `w × h` samples `f(p, x, y)`.
fn build_plane<F: Fn(usize, u32, u32) -> u16>(
    w: u32,
    h: u32,
    wide: bool,
    p: usize,
    f: &F,
    Ghost(g): Ghost<spec_fn(int, int, int) -> u16>,
) -> (plane: HeifPlane)
    requires
        w * h <= MAX_FRAME_PIXELS,
        w <= MAX_FRAME_PIXELS,
        forall|x: u32, y: u32| x < w && y < h ==> call_requires(*f, (p, x, y)),
        forall|x: u32, y: u32, v: u16|
            x < w && y < h && #[trigger] call_ensures(*f, (p, x, y), v) ==> v == g(
                p as int,
                x as int,
                y as int,
            ),
    ensures
        plane.stride == w * (if wide {
            2int
        } else {
            1int
        }),
        plane.data@.len() == plane.stride * h,
        forall|x: int, y: int|
            0 <= x < w && 0 <= y < h ==> (if wide {
                #[trigger] g(p as int, x, y) == sample_in(
                    plane.data@,
                    y * plane.stride + x * 2,
                    2,
                )
            } else {
                g(p as int, x, y) % 256 == sample_in(plane.data@, y * plane.stride + x * 1, 1)
            }),
{
    let stride: usize = if wide {
        w as usize * 2
    } else {
        w as usize
    };
    let ghost b: int = if wide {
        2
    } else {
        1
    };
    let mut data: Vec<u8> = Vec::new();
    let mut y: u32 = 0;
    proof {
        assert(0 * stride == 0) by (nonlinear_arith);
    }
    while y < h
        invariant
            y <= h,
            stride == w * b,
            b == (if wide {
                2int
            } else {
                1int
            }),
            data@.len() == y * stride,
            forall|x: u32, y: u32| x < w && y < h ==> call_requires(*f, (p, x, y)),
            forall|x: u32, y: u32, v: u16|
                x < w && y < h && #[trigger] call_ensures(*f, (p, x, y), v) ==> v == g(
                    p as int,
                    x as int,
                    y as int,
                ),
            forall|i: int, j: int|
                0 <= i < w && 0 <= j < y ==> (if wide {
                    #[trigger] g(p as int, i, j) == sample_in(data@, j * stride + i * 2, 2)
                } else {
                    g(p as int, i, j) % 256 == sample_in(data@, j * stride + i * 1, 1)
                }),
        decreases h - y,
    {
        let row: Vec<u8> = build_row(w, wide, p, y, f, Ghost(g));
        let ghost before = data@;
        put(&mut data, row.as_slice());
        proof {
            assert((y + 1) * stride == y * stride + stride) by (nonlinear_arith);
            assert forall|i: int, j: int| 0 <= i < w && 0 <= j < y + 1 implies (if wide {
                #[trigger] g(p as int, i, j) == sample_in(data@, j * stride + i * 2, 2)
            } else {
                g(p as int, i, j) % 256 == sample_in(data@, j * stride + i * 1, 1)
            }) by {
                let k = j * stride + i * b;
                assert(0 <= j * stride) by (nonlinear_arith)
                    requires
                        0 <= j,
                        0 <= stride,
                ;
                if j < y {
                    assert(j * stride + stride <= y * stride) by (nonlinear_arith)
                        requires
                            j + 1 <= y,
                            0 <= stride,
                    ;
                    assert(data@[k] == before[k]);
                    if wide {
                        assert(data@[k + 1] == before[k + 1]);
                    }
                } else {
                    assert(data@[k] == row@[k - before.len()]);
                    if wide {
                        assert(data@[k + 1] == row@[k + 1 - before.len()]);
                    }
                }
            }
        }
        y = y + 1;
    }
    proof {
        assert(h * stride == stride * h) by (nonlinear_arith);
    }
    HeifPlane { stride, data }
}

proof fn lemma_plane_fits(fmt: HeifPixelFormat, w: u32, h: u32, p: int)
    requires
        size_refusal(w, h) is None,
    ensures
        fmt.dims(p, w, h).0 * fmt.dims(p, w, h).1 <= MAX_FRAME_PIXELS,
        1 <= fmt.dims(p, w, h).0 <= w <= MAX_FRAME_PIXELS,
        1 <= fmt.dims(p, w, h).1 <= h <= MAX_FRAME_PIXELS,
{
    let a = fmt.dims(p, w, h).0;
    let b = fmt.dims(p, w, h).1;
    assert(a * b <= w * h) by (nonlinear_arith)
        requires
            a <= w,
            b <= h,
    ;
    assert(w <= w * h && h <= w * h) by (nonlinear_arith)
        requires
            w >= 1,
            h >= 1,
    ;
}

/// The packed picture whose sample at `(x, y)` of plane `p` is `f(p, x, y)`.
pub(crate) fn build_frame<F: Fn(usize, u32, u32) -> u16>(
    width: u32,
    height: u32,
    format: HeifPixelFormat,
    f: F,
    Ghost(g): Ghost<spec_fn(int, int, int) -> u16>,
) -> (r: Result<HeifFrame>)
    requires
        forall|p: usize, x: u32, y: u32|
            format.has(width, height, p as int, x as int, y as int) ==> call_requires(
                f,
                (p, x, y),
            ),
        forall|p: usize, x: u32, y: u32, v: u16|
            format.has(width, height, p as int, x as int, y as int) && #[trigger] call_ensures(
                f,
                (p, x, y),
                v,
            ) ==> v == g(p as int, x as int, y as int),
    ensures
        match r {
            Ok(out) => size_refusal(width, height) is None && out@.shows(
                width,
                height,
                format,
                |p: int, x: int, y: int| format.stored(g(p, x, y)),
            ),
            Err(e) => size_refusal(width, height) == Some(e.kind()),
        },
{
    HeifFrame::check_dims(width, height)?;
    let wide: bool = format.bit_depth > 8;
    let n: usize = format.plane_count();
    let mut planes: Vec<HeifPlane> = Vec::new();
    for p in 0..n
        invariant
            n == format.planes(),
            wide == (format.bit_depth > 8),
            size_refusal(width, height) is None,
            planes@.len() == p,
            forall|p: usize, x: u32, y: u32|
                format.has(width, height, p as int, x as int, y as int) ==> call_requires(
                    f,
                    (p, x, y),
                ),
            forall|p: usize, x: u32, y: u32, v: u16|
                format.has(width, height, p as int, x as int, y as int) && #[trigger] call_ensures(
                    f,
                    (p, x, y),
                    v,
                ) ==> v == g(p as int, x as int, y as int),
            forall|q: int|
                0 <= q < p ==> {
                    &&& (#[trigger] planes@[q]).stride == format.dims(q, width, height).0
                        * format.bps()
                    &&& planes@[q].data@.len() == planes@[q].stride * format.dims(
                        q,
                        width,
                        height,
                    ).1
                },
            forall|q: int, x: int, y: int|
                0 <= q < p && format.has(width, height, q, x, y) ==> format.stored(
                    #[trigger] g(q, x, y),
                ) == sample_in(
                    planes@[q].data@,
                    y * planes@[q].stride + x * format.bps(),
                    format.bps(),
                ),
    {
        let (w, h) = format.plane_dims(p, width, height);
        proof {
            lemma_plane_fits(format, width, height, p as int);
            assert forall|x: u32, y: u32| x < w && y < h implies call_requires(f, (p, x, y)) by {
                assert(format.has(width, height, p as int, x as int, y as int));
            }
        }
        let plane: HeifPlane = build_plane(w, h, wide, p, &f, Ghost(g));
        planes.push(plane);
    }
    let out: HeifFrame = HeifFrame { width, height, format, planes };
    proof {
        let m = out@;
        assert forall|q: int| 0 <= q < m.planes.len() implies {
            &&& (#[trigger] m.planes[q]).stride == m.dims(q).0 * m.format.bps()
            &&& m.planes[q].data.len() == m.planes[q].stride * m.dims(q).1
        } by {
            assert(m.planes[q] == planes@[q]@);
        }
        assert forall|q: int| 0 <= q < m.planes.len() implies (#[trigger] m.planes[q]).holds(
            m.dims(q).0 * m.format.bps(),
            m.dims(q).1 as int,
        ) by {
            let s = m.planes[q].stride;
            let h = m.dims(q).1 as int;
            assert(s * h == s * (h - 1) + s) by (nonlinear_arith);
        }
        assert forall|p: int, x: int, y: int| format.has(width, height, p, x, y) implies
            #[trigger] m.sample(p, x, y) == format.stored(g(p, x, y)) by {
            assert(m.planes[p] == planes@[p]@);
        }
    }
    Ok(out)
}

impl HeifFrame {
    /// Allocate a frame filled with `value` in every plane.
    pub fn filled(width: u32, height: u32, format: HeifPixelFormat, value: u16) -> (r: Result<Self>)
        ensures
            match r {
                Ok(f) => size_refusal(width, height) is None && f@.shows(
                    width,
                    height,
                    format,
                    |p: int, x: int, y: int| format.stored(value),
                ),
                Err(e) => size_refusal(width, height) == Some(e.kind()),
            },
    {
        let f = |p: usize, x: u32, y: u32| -> (v: u16)
            ensures
                v == value,
            { value };
        build_frame(width, height, format, f, Ghost(|p: int, x: int, y: int| value))
    }

    /// Allocate a black (all-zero) frame.
    pub fn zeroed(width: u32, height: u32, format: HeifPixelFormat) -> (r: Result<Self>)
        ensures
            match r {
                Ok(f) => size_refusal(width, height) is None && f@.shows(
                    width,
                    height,
                    format,
                    |p: int, x: int, y: int| 0,
                ),
                Err(e) => size_refusal(width, height) == Some(e.kind()),
            },
    {
        Self::filled(width, height, format, 0)
    }

    pub(crate) fn check_dims(width: u32, height: u32) -> (r: Result<()>)
        ensures
            match r {
                Ok(_) => size_refusal(width, height) is None,
                Err(e) => size_refusal(width, height) == Some(e.kind()),
            },
    {
        if width == 0 || height == 0 {
            return Err(HeifError::invalid("zero-sized frame"));
        }
        proof {
            assert(width * height <= 0xffff_ffff * 0xffff_ffff) by (nonlinear_arith)
                requires
                    0 <= width <= 0xffff_ffff,
                    0 <= height <= 0xffff_ffff,
            ;
        }
        if width as u64 * height as u64 > MAX_FRAME_PIXELS {
            let w: String = decimal(width as u64);
            let h: String = decimal(height as u64);
            let m: String = decimal(MAX_FRAME_PIXELS);
            return Err(
                HeifError::exhausted(
                    concat(
                        &[
                            "frame ",
                            w.as_str(),
                            "x",
                            h.as_str(),
                            " exceeds ",
                            m.as_str(),
                            " pixels",
                        ],
                    ),
                ),
            );
        }
        Ok(())
    }

    /// Verify plane count / sizes match the declared layout.
    pub fn validate(&self) -> (r: Result<()>)
        ensures
            match r {
                Ok(_) => self@.refusal() is None,
                Err(e) => self@.refusal() == Some(e.kind()),
            },
    {
        Self::check_dims(self.width, self.height)?;
        if self.planes.len() != self.format.plane_count() {
            let a: String = decimal(self.planes.len() as u64);
            let b: String = decimal(self.format.plane_count() as u64);
            return Err(
                HeifError::invalid(
                    concat(&["frame has ", a.as_str(), " planes, layout needs ", b.as_str()]),
                ),
            );
        }
        let bps: usize = self.format.bytes_per_sample();
        for i in 0..self.planes.len()
            invariant
                bps == self.format.bps(),
                self.planes@.len() == self.format.planes(),
                size_refusal(self.width, self.height) is None,
                forall|q: int|
                    0 <= q < i ==> (#[trigger] self@.planes[q]).holds(
                        self@.dims(q).0 * bps,
                        self@.dims(q).1 as int,
                    ),
        {
            let (w, h) = self.format.plane_dims(i, self.width, self.height);
            proof {
                lemma_plane_fits(self.format, self.width, self.height, i as int);
            }
            let row: usize = w as usize * bps;
            let stride: usize = self.planes[i].stride;
            let have: usize = self.planes[i].data.len();
            let ghost pm = self@.planes[i as int];
            assert(pm == self.planes@[i as int]@);
            proof {
                assert(0 <= stride * (h - 1) <= 0xffff_ffff_ffff_ffff * 0xffff_ffff)
                    by (nonlinear_arith)
                    requires
                        0 <= stride <= 0xffff_ffff_ffff_ffff,
                        0 <= h - 1 <= 0xffff_ffff,
                ;
            }
            if stride < row {
                assert(!pm.holds(w * bps, h as int));
                let n: String = decimal(i as u64);
                let s: String = decimal(stride as u64);
                let b: String = decimal(row as u64);
                return Err(
                    HeifError::invalid(
                        concat(
                            &[
                                "plane ",
                                n.as_str(),
                                ": stride ",
                                s.as_str(),
                                " < ",
                                b.as_str(),
                                " bytes per row",
                            ],
                        ),
                    ),
                );
            }
            if (have as u128) < stride as u128 * (h as u128 - 1) + row as u128 {
                assert(!pm.holds(w * bps, h as int));
                let n: String = decimal(i as u64);
                let s: String = decimal(stride as u64);
                let a: String = decimal(have as u64);
                let b: String = decimal(h as u64);
                return Err(
                    HeifError::invalid(
                        concat(
                            &[
                                "plane ",
                                n.as_str(),
                                ": ",
                                a.as_str(),
                                " bytes, need ",
                                b.as_str(),
                                " rows of stride ",
                                s.as_str(),
                            ],
                        ),
                    ),
                );
            }
        }
        Ok(())
    }

    /// Size of plane `plane`.
    pub fn plane_dims(&self, plane: usize) -> (r: (u32, u32))
        ensures
            r == self@.dims(plane as int),
    {
        self.format.plane_dims(plane, self.width, self.height)
    }

    /// Read one sample.
    pub fn sample(&self, plane: usize, x: u32, y: u32) -> (v: u16)
        requires
            plane < self.planes@.len(),
            self@.offset(plane as int, x as int, y as int) + self.format.bps()
                <= self@.planes[plane as int].data.len(),
        ensures
            v == self@.sample(plane as int, x as int, y as int),
    {
        let p: &HeifPlane = &self.planes[plane];
        let bps: usize = self.format.bytes_per_sample();
        proof {
            assert(self@.planes[plane as int] == p@);
            assert(0 <= y * p.stride && 0 <= x * bps) by (nonlinear_arith)
                requires
                    0 <= y,
                    0 <= p.stride,
                    0 <= x,
                    0 <= bps,
            ;
            assert(p.data.len() == p.data@.len());
        }
        let i: usize = y as usize * p.stride + x as usize * bps;
        if bps == 1 {
            p.data[i] as u16
        } else {
            p.data[i] as u16 + 256 * (p.data[i + 1] as u16)
        }
    }

    /// Write one sample (its low byte at 8 bits).
    pub fn set_sample(&mut self, plane: usize, x: u32, y: u32, v: u16)
        requires
            plane < old(self).planes@.len(),
            old(self)@.offset(plane as int, x as int, y as int) + old(self).format.bps() <= old(
                self,
            )@.planes[plane as int].data.len(),
        ensures
            final(self)@ == old(self)@.with_sample(plane as int, x as int, y as int, v),
    {
        let bps: usize = self.format.bytes_per_sample();
        let stride: usize = self.planes[plane].stride;
        let ghost m = self@;
        proof {
            assert(m.planes[plane as int] == self.planes@[plane as int]@);
            assert(0 <= y * stride && 0 <= x * bps) by (nonlinear_arith)
                requires
                    0 <= y,
                    0 <= stride,
                    0 <= x,
                    0 <= bps,
            ;
            assert(self.planes@[plane as int].data.len() == self.planes@[plane as int].data@.len());
        }
        let i: usize = y as usize * stride + x as usize * bps;
        let p: &mut HeifPlane = &mut self.planes[plane];
        p.data[i] = (v % 256) as u8;
        if bps == 2 {
            p.data[i + 1] = (v / 256) as u8;
        }
        proof {
            assert(self@.planes =~= m.with_sample(plane as int, x as int, y as int, v).planes);
        }
    }

    /// One row of plane `plane` as bytes (`width × bps` long).
    pub fn row(&self, plane: usize, y: u32) -> (r: &[u8])
        requires
            plane < self.planes@.len(),
            y * self@.planes[plane as int].stride + self@.dims(plane as int).0 * self.format.bps()
                <= self@.planes[plane as int].data.len(),
        ensures
            r@ == self@.planes[plane as int].data.subrange(
                y * self@.planes[plane as int].stride,
                y * self@.planes[plane as int].stride + self@.dims(plane as int).0
                    * self.format.bps(),
            ),
    {
        let p: &HeifPlane = &self.planes[plane];
        let (w, _) = self.plane_dims(plane);
        let bps: usize = self.format.bytes_per_sample();
        proof {
            assert(self@.planes[plane as int] == p@);
            assert(0 <= y * p.stride && 0 <= w * bps) by (nonlinear_arith)
                requires
                    0 <= y,
                    0 <= p.stride,
                    0 <= w,
                    0 <= bps,
            ;
            assert(p.data.len() == p.data@.len());
        }
        let start: usize = y as usize * p.stride;
        span(p.data.as_slice(), start, start + w as usize * bps)
    }

    /// A tightly packed copy (stride == row bytes).
    pub fn tight(&self) -> (r: Self)
        requires
            self@.wf(),
        ensures
            r@.shows(
                self.width,
                self.height,
                self.format,
                |p: int, x: int, y: int| self@.sample(p, x, y),
            ),
            r@.wf(),
            r@ == self@.picture().frame(),
    {
        let f = |p: usize, x: u32, y: u32| -> (v: u16)
            requires
                self@.has(p as int, x as int, y as int),
                self@.wf(),
            ensures
                v == self@.sample(p as int, x as int, y as int),
            {
                proof {
                    lemma_sample_inside(self@, p as int, x as int, y as int);
                }
                self.sample(p, x, y)
            };
        let r: Result<HeifFrame> = build_frame(
            self.width,
            self.height,
            self.format,
            f,
            Ghost(|p: int, x: int, y: int| self@.sample(p, x, y)),
        );
        match r {
            Ok(out) => {
                proof {
                    lemma_picture(
                        out@,
                        self.width,
                        self.height,
                        self.format,
                        |p: int, x: int, y: int| self@.sample(p, x, y),
                    );
                    law_packed_frame(out@);
                }
                out
            },
            Err(_) => self.clone(),
        }
    }

    /// The colour planes only (drops alpha).
    pub fn without_alpha(&self) -> (r: Self)
        requires
            self.planes@.len() >= self.format.chroma.planes(),
        ensures
            r@ == self@.colour_only(),
    {
        let n: usize = self.format.chroma.colour_planes();
        let mut planes: Vec<HeifPlane> = Vec::new();
        for i in 0..n
            invariant
                n == self.format.chroma.planes(),
                self.planes@.len() >= n,
                planes@.len() == i,
                forall|q: int| 0 <= q < i ==> (#[trigger] planes@[q])@ == self.planes@[q]@,
        {
            planes.push(self.planes[i].clone());
        }
        let r: HeifFrame = HeifFrame {
            width: self.width,
            height: self.height,
            format: self.format.without_alpha(),
            planes,
        };
        proof {
            assert(r@.planes =~= self@.colour_only().planes);
        }
        r
    }

    /// The alpha plane as a monochrome frame, when present.
    pub fn alpha_as_frame(&self) -> (r: Option<Self>)
        requires
            self.format.has_alpha ==> self.planes@.len() > self.format.chroma.planes(),
        ensures
            match r {
                Some(a) => self.format.has_alpha && a@ == self@.alpha_frame(),
                None => !self.format.has_alpha,
            },
    {
        let i: usize = match self.format.alpha_plane() {
            Some(i) => i,
            None => {
                return None;
            },
        };
        let mut planes: Vec<HeifPlane> = Vec::new();
        planes.push(self.planes[i].clone());
        let r: HeifFrame = HeifFrame {
            width: self.width,
            height: self.height,
            format: HeifPixelFormat {
                chroma: Chroma::Mono,
                bit_depth: self.format.bit_depth,
                has_alpha: false,
            },
            planes,
        };
        proof {
            assert(r@.planes =~= self@.alpha_frame().planes);
        }
        Some(r)
    }

    /// Attach `alpha` (a monochrome frame of the same size and depth)
    /// as the alpha plane.
    pub fn with_alpha_plane(&self, alpha: &HeifFrame) -> (r: Result<Self>)
        requires
            self.planes@.len() >= self.format.chroma.planes(),
            alpha.planes@.len() >= 1,
        ensures
            crate::error::outcome(r) == self@.attached(alpha@),
    {
        if alpha.width != self.width || alpha.height != self.height {
            return Err(HeifError::invalid("alpha plane does not match the size of the master"));
        }
        if alpha.format.bit_depth != self.format.bit_depth {
            let a: String = decimal(alpha.format.bit_depth as u64);
            let b: String = decimal(self.format.bit_depth as u64);
            return Err(
                HeifError::unsupported(
                    concat(
                        &["alpha depth ", a.as_str(), " differs from master depth ", b.as_str()],
                    ),
                ),
            );
        }
        let mut out: HeifFrame = self.without_alpha();
        out.format = out.format.with_alpha();
        let ghost before = out@;
        out.planes.push(alpha.planes[0].clone());
        proof {
            assert(out@.planes =~= before.planes.push(alpha@.planes[0]));
            assert(out@ =~= self@.joined(alpha@));
        }
        out.validate()?;
        Ok(out)
    }

    /// Promote to 4:4:4 (chroma replicated, or neutral chroma added
    /// for monochrome), keeping depth and alpha.
    pub fn promote_to_444(&self) -> (r: Result<Self>)
        requires
            self@.wf(),
        ensures
            r matches Ok(out) && out@.promotes(self@) && out@.picture() == self@.picture().promoted(),
    {
        let (sx, sy) = self.format.chroma.shift();
        let mono: bool = self.format.chroma == Chroma::Mono;
        let alpha: Option<usize> = self.format.alpha_plane();
        let mid: u16 = self.format.max_value() / 2 + 1;
        let fmt: HeifPixelFormat = HeifPixelFormat {
            chroma: Chroma::Yuv444,
            bit_depth: self.format.bit_depth,
            has_alpha: self.format.has_alpha,
        };
        let f = |p: usize, x: u32, y: u32| -> (v: u16)
            requires
                fmt.has(self.width, self.height, p as int, x as int, y as int),
                self@.wf(),
                mid == self@.format.mid(),
                fmt == (HeifPixelFormat { chroma: Chroma::Yuv444, ..self.format }),
                mono == (self.format.chroma == Chroma::Mono),
                sx == self.format.chroma.shift_x(),
                sy == self.format.chroma.shift_y(),
            ensures
                v == self@.promoted_sample(p as int, x as int, y as int),
            {
                if p == 3 {
                    let a: usize = self.format.chroma.colour_planes();
                    proof {
                        lemma_sample_inside(self@, a as int, x as int, y as int);
                    }
                    self.sample(a, x, y)
                } else if p == 0 {
                    proof {
                        lemma_sample_inside(self@, 0, x as int, y as int);
                    }
                    self.sample(0, x, y)
                } else if mono {
                    mid
                } else {
                    let cx: u32 = shrink(x, sx);
                    let cy: u32 = shrink(y, sy);
                    proof {
                        lemma_sample_inside(self@, p as int, cx as int, cy as int);
                    }
                    self.sample(p, cx, cy)
                }
            };
        proof {
            vstd::arithmetic::power2::lemma2_to64();
        }
        let r: Result<HeifFrame> = build_frame(
            self.width,
            self.height,
            fmt,
            f,
            Ghost(|p: int, x: int, y: int| self@.promoted_sample(p, x, y)),
        );
        proof {
            assert(r is Ok);
        }
        let mut out: HeifFrame = r?;
        if let Some(a) = alpha {
            let ghost before = out@;
            out.planes.set(3, self.planes[a].clone());
            proof {
                assert(out@.planes =~= before.planes.update(3, self@.planes[a as int]));
                lemma_promoted(before, out@, self@);
            }
        } else {
            proof {
                lemma_promoted(out@, out@, self@);
            }
        }
        proof {
            lemma_promoted_picture(out@, self@);
        }
        Ok(out)
    }
}

impl HeifPixelFormat {
    /// The neutral chroma value, half way up the sample range.
    pub open spec fn mid(self) -> u16 {
        ((max_of_depth(self.bit_depth) + 1) / 2) as u16
    }
}

impl FrameModel {
    /// The sample of the 4:4:4 picture at `(x, y)` of plane `p`: luma and alpha
    /// as they are, chroma replicated, or neutral for a monochrome picture.
    pub open spec fn promoted_sample(self, p: int, x: int, y: int) -> u16 {
        let c = self.format.chroma;
        if p == 3 {
            self.sample(c.planes(), x, y)
        } else if p == 0 {
            self.sample(0, x, y)
        } else if c == Chroma::Mono {
            self.format.mid()
        } else {
            self.sample(p, shrunk(x, c.shift_x()), shrunk(y, c.shift_y()))
        }
    }

    /// The frame is the 4:4:4 picture of `src`: its colour planes packed, the
    /// alpha plane taken over.
    pub open spec fn promotes(self, src: FrameModel) -> bool {
        &&& self.width == src.width
        &&& self.height == src.height
        &&& self.format == (HeifPixelFormat { chroma: Chroma::Yuv444, ..src.format })
        &&& self.wf()
        &&& self.colour_only().packed()
        &&& src.format.has_alpha ==> self.planes[3] == src.planes[src.format.chroma.planes()]
        &&& forall|p: int, x: int, y: int|
            self.has(p, x, y) ==> #[trigger] self.sample(p, x, y) == src.promoted_sample(p, x, y)
    }
}

proof fn lemma_promoted(built: FrameModel, out: FrameModel, src: FrameModel)
    requires
        src.wf(),
        built.shows(
            src.width,
            src.height,
            HeifPixelFormat { chroma: Chroma::Yuv444, ..src.format },
            |p: int, x: int, y: int|
                (HeifPixelFormat { chroma: Chroma::Yuv444, ..src.format }).stored(
                    src.promoted_sample(p, x, y),
                ),
        ),
        out.width == built.width,
        out.height == built.height,
        out.format == built.format,
        src.format.has_alpha ==> out.planes == built.planes.update(
            3,
            src.planes[src.format.chroma.planes()],
        ),
        !src.format.has_alpha ==> out.planes == built.planes,
    ensures
        out.promotes(src),
{
    vstd::arithmetic::power2::lemma2_to64();
    let c = src.format.chroma.planes();
    assert forall|q: int| 0 <= q < out.planes.len() implies (#[trigger] out.planes[q]).holds(
        out.dims(q).0 * out.format.bps(),
        out.dims(q).1 as int,
    ) by {
        assert(built.planes[q].holds(
            built.dims(q).0 * built.format.bps(),
            built.dims(q).1 as int,
        ));
        if src.format.has_alpha && q == 3 {
            assert(src.planes[c].holds(src.dims(c).0 * src.format.bps(), src.dims(c).1 as int));
        }
    }
    let o = out.colour_only();
    assert forall|q: int| 0 <= q < o.planes.len() implies {
        &&& (#[trigger] o.planes[q]).stride == o.dims(q).0 * o.format.bps()
        &&& o.planes[q].data.len() == o.planes[q].stride * o.dims(q).1
    } by {
        assert(o.planes[q] == built.planes[q]);
    }
    assert forall|p: int, x: int, y: int| out.has(p, x, y) implies #[trigger] out.sample(p, x, y)
        == src.promoted_sample(p, x, y) by {
        if !(src.format.has_alpha && p == 3) {
            assert(out.sample(p, x, y) == built.sample(p, x, y));
            if p == 0 {
            } else if src.format.chroma == Chroma::Mono {
            } else {
            }
        }
    }
}

/// What a frame shows, whatever the padding of its planes: a layout and a
/// sample for every position (0 where there is none).
#[verifier::ext_equal]
pub struct Picture {
    /// Width in pixels.
    pub width: u32,
    /// Height in pixels.
    pub height: u32,
    /// Sample layout.
    pub format: HeifPixelFormat,
    /// The sample at `(x, y)` of a plane.
    pub at: spec_fn(int, int, int) -> u16,
}

/// The picture of the given size and layout whose samples are `g(p, x, y)`.
pub open spec fn picture_of(
    width: u32,
    height: u32,
    format: HeifPixelFormat,
    g: spec_fn(int, int, int) -> u16,
) -> Picture {
    Picture {
        width,
        height,
        format,
        at: |p: int, x: int, y: int|
            if format.has(width, height, p, x, y) {
                g(p, x, y)
            } else {
                0
            },
    }
}

impl FrameModel {
    /// What the frame shows.
    pub open spec fn picture(self) -> Picture {
        picture_of(
            self.width,
            self.height,
            self.format,
            |p: int, x: int, y: int| self.sample(p, x, y),
        )
    }
}

impl Picture {
    /// Size of plane `p`.
    pub open spec fn dims(self, p: int) -> (u32, u32) {
        self.format.dims(p, self.width, self.height)
    }

    /// The 4:4:4 picture: luma and alpha as they are, chroma replicated, or
    /// neutral for a monochrome picture.
    pub open spec fn promoted(self) -> Picture {
        let c = self.format.chroma;
        picture_of(
            self.width,
            self.height,
            HeifPixelFormat { chroma: Chroma::Yuv444, ..self.format },
            |p: int, x: int, y: int|
                if p == 3 {
                    (self.at)(c.planes(), x, y)
                } else if p == 0 {
                    (self.at)(0, x, y)
                } else if c == Chroma::Mono {
                    self.format.mid()
                } else {
                    (self.at)(p, shrunk(x, c.shift_x()), shrunk(y, c.shift_y()))
                },
        )
    }
}

impl Picture {
    /// Whether a frame can show the picture: its size and layout are allowed,
    /// and its samples fit their storage.
    pub open spec fn valid(self) -> bool {
        &&& self.format.wf()
        &&& size_refusal(self.width, self.height) is None
        &&& forall|p: int, x: int, y: int|
            self.format.stored(#[trigger] (self.at)(p, x, y)) == (self.at)(p, x, y)
    }
}

impl Picture {
    /// Samples are only where the layout has positions.
    pub open spec fn bounded(self) -> bool {
        forall|p: int, x: int, y: int|
            !self.format.has(self.width, self.height, p, x, y) ==> #[trigger] (self.at)(p, x, y)
                == 0
    }
}

impl Picture {
    /// Byte `i` of plane `p`, its rows one after the other.
    pub open spec fn byte(self, p: int, i: int) -> u8 {
        let b = self.format.bps();
        let row = self.dims(p).0 * b;
        let v = (self.at)(p, i % row / b, i / row);
        (if i % row % b == 0 {
            v % 256
        } else {
            v / 256
        }) as u8
    }

    /// The packed frame that shows the picture.
    pub open spec fn frame(self) -> FrameModel {
        FrameModel {
            width: self.width,
            height: self.height,
            format: self.format,
            planes: Seq::new(
                self.format.planes() as nat,
                |p: int|
                    PlaneModel {
                        stride: (self.dims(p).0 * self.format.bps()) as usize,
                        data: Seq::new(
                            (self.dims(p).0 * self.format.bps() * self.dims(p).1) as nat,
                            |i: int| self.byte(p, i),
                        ),
                    },
            ),
        }
    }
}

/// What frames come of pictures.
pub open spec fn framed(r: core::result::Result<Picture, ErrorKind>) -> core::result::Result<
    FrameModel,
    ErrorKind,
> {
    match r {
        Ok(p) => Ok(p.frame()),
        Err(e) => Err(e),
    }
}

/// The rows of a plane fit memory.
proof fn lemma_row(w: u32, h: u32, fmt: HeifPixelFormat, p: int)
    requires
        fmt.wf(),
        size_refusal(w, h) is None,
    ensures
        0 < fmt.dims(p, w, h).0 * fmt.bps() <= usize::MAX,
        fmt.dims(p, w, h).0 > 0,
        fmt.dims(p, w, h).1 > 0,
{
    assert(w <= w * h) by (nonlinear_arith)
        requires
            w >= 0,
            h >= 1,
    ;
}

/// A place in a plane, from its offset.
proof fn lemma_place(i: int, row: int, b: int, h: int)
    requires
        0 <= i < row * h,
        row > 0,
        b == 1 || b == 2,
        row % b == 0,
    ensures
        0 <= i / row < h,
        0 <= i % row < row,
        0 <= i % row / b,
        i % row / b * b + b <= row,
        (i / row) * row + (i % row / b) * b + i % row % b == i,
{
    vstd::arithmetic::div_mod::lemma_fundamental_div_mod(i, row);
    assert(row * (i / row) == (i / row) * row) by (nonlinear_arith);
    assert(i / row < h) by (nonlinear_arith)
        requires
            i < row * h,
            row > 0,
            i == row * (i / row) + i % row,
            0 <= i % row,
    ;
    assert(0 <= i / row) by (nonlinear_arith)
        requires
            0 <= i,
            row > 0,
    ;
}

/// A packed frame is the one that shows its picture.
pub proof fn law_packed_frame(f: FrameModel)
    requires
        f.wf(),
        f.packed(),
    ensures
        f == f.picture().frame(),
{
    let g = f.picture().frame();
    let b = f.format.bps();
    assert forall|p: int| 0 <= p < f.planes.len() implies #[trigger] f.planes[p] == g.planes[p] by {
        lemma_row(f.width, f.height, f.format, p);
        let row = f.dims(p).0 * b;
        let h = f.dims(p).1 as int;
        assert(f.planes[p].stride == row);
        assert forall|i: int| 0 <= i < f.planes[p].data.len() implies #[trigger] f.planes[p].data[i]
            == g.planes[p].data[i] by {
            lemma_place(i, row, b, h);
            let (x, y) = (i % row / b, i / row);
            assert(x < f.dims(p).0) by (nonlinear_arith)
                requires
                    x * b + b <= f.dims(p).0 * b,
                    b > 0,
            ;
            assert(f.has(p, x, y));
            assert(f.offset(p, x, y) == y * row + x * b);
            lemma_sample_inside(f, p, x, y);
            assert((f.picture().at)(p, x, y) == f.sample(p, x, y));
        }
        assert(f.planes[p].data =~= g.planes[p].data);
    }
    assert(f.planes =~= g.planes);
}

/// The packed frame of a picture shows it.
pub proof fn law_frame_of_picture(f: Picture)
    requires
        f.valid(),
        f.bounded(),
    ensures
        f.frame().wf(),
        f.frame().packed(),
        f.frame().picture() == f,
{
    let g = f.frame();
    let b = f.format.bps();
    assert forall|p: int| 0 <= p < g.planes.len() implies {
        &&& (#[trigger] g.planes[p]).stride == g.dims(p).0 * b
        &&& g.planes[p].data.len() == g.planes[p].stride * g.dims(p).1
        &&& g.planes[p].holds(g.dims(p).0 * b, g.dims(p).1 as int)
    } by {
        lemma_row(f.width, f.height, f.format, p);
        let row = g.dims(p).0 * b;
        let h = g.dims(p).1 as int;
        assert(row * h == row * (h - 1) + row && row * h >= 0) by (nonlinear_arith)
            requires
                row > 0,
                h > 0,
        ;
    }
    assert forall|p: int, x: int, y: int| #[trigger] (g.picture().at)(p, x, y) == (f.at)(p, x, y) by {
        if g.has(p, x, y) {
            lemma_row(f.width, f.height, f.format, p);
            lemma_sample_inside(g, p, x, y);
            let row = g.dims(p).0 * b;
            let i = g.offset(p, x, y);
            assert(g.planes[p].stride == row);
            assert(0 <= x * b && x * b + b <= row) by (nonlinear_arith)
                requires
                    0 <= x < g.dims(p).0,
                    row == g.dims(p).0 * b,
                    b == 1 || b == 2,
            ;
            vstd::arithmetic::div_mod::lemma_fundamental_div_mod_converse(i, row, y, x * b);
            assert(x * b / b == x && x * b % b == 0) by (nonlinear_arith)
                requires
                    b == 1 || b == 2,
            ;
            assert(g.planes[p].data[i] == f.byte(p, i));
            if b == 2 {
                vstd::arithmetic::div_mod::lemma_fundamental_div_mod_converse(
                    i + 1,
                    row,
                    y,
                    x * b + 1,
                );
                assert(g.planes[p].data[i + 1] == f.byte(p, i + 1));
            }
            assert(f.format.stored((f.at)(p, x, y)) == (f.at)(p, x, y));
        }
    }
    assert(g.picture() =~= f);
}

/// What a frame shows is valid.
pub proof fn lemma_valid_picture(f: FrameModel)
    requires
        f.wf(),
    ensures
        f.picture().valid(),
{
    assert forall|p: int, x: int, y: int| f.format.stored(#[trigger] (f.picture().at)(p, x, y)) == (
    f.picture().at)(p, x, y) by {
        lemma_sample_stored(f, p, x, y);
    }
}

/// A frame whose samples are `g(p, x, y)` shows that picture.
pub proof fn lemma_picture(
    f: FrameModel,
    width: u32,
    height: u32,
    format: HeifPixelFormat,
    g: spec_fn(int, int, int) -> u16,
)
    requires
        f.width == width,
        f.height == height,
        f.format == format,
        forall|p: int, x: int, y: int|
            format.has(width, height, p, x, y) ==> #[trigger] f.sample(p, x, y) == g(p, x, y),
    ensures
        f.picture() == picture_of(width, height, format, g),
{
    assert(f.picture().at =~= picture_of(width, height, format, g).at);
}

/// The 4:4:4 frame of a frame shows its 4:4:4 picture.
pub proof fn lemma_promoted_picture(out: FrameModel, src: FrameModel)
    requires
        src.wf(),
        out.promotes(src),
    ensures
        out.picture() == src.picture().promoted(),
{
    let a = out.picture().at;
    let b = src.picture().promoted().at;
    assert forall|p: int, x: int, y: int| #[trigger] a(p, x, y) == b(p, x, y) by {
        if out.has(p, x, y) {
            assert(out.sample(p, x, y) == src.promoted_sample(p, x, y));
        }
    }
    assert(a =~= b);
}

/// A sample of a frame fits its storage.
pub proof fn lemma_sample_stored(f: FrameModel, p: int, x: int, y: int)
    ensures
        f.format.stored(f.sample(p, x, y)) == f.sample(p, x, y),
{
}

/// The packed frame that shows the picture with samples `f(p, x, y)`.
pub(crate) fn build_picture<F: Fn(usize, u32, u32) -> u16>(
    width: u32,
    height: u32,
    format: HeifPixelFormat,
    f: F,
    Ghost(g): Ghost<spec_fn(int, int, int) -> u16>,
) -> (r: Result<HeifFrame>)
    requires
        format.wf(),
        forall|p: usize, x: u32, y: u32|
            format.has(width, height, p as int, x as int, y as int) ==> call_requires(
                f,
                (p, x, y),
            ),
        forall|p: usize, x: u32, y: u32, v: u16|
            format.has(width, height, p as int, x as int, y as int) && #[trigger] call_ensures(
                f,
                (p, x, y),
                v,
            ) ==> v == g(p as int, x as int, y as int),
        forall|p: int, x: int, y: int|
            format.has(width, height, p, x, y) ==> format.stored(#[trigger] g(p, x, y)) == g(
                p,
                x,
                y,
            ),
    ensures
        match r {
            Ok(out) => {
                &&& size_refusal(width, height) is None
                &&& out@.wf()
                &&& out@.packed()
                &&& out@.picture() == picture_of(width, height, format, g)
                &&& out@ == picture_of(width, height, format, g).frame()
            },
            Err(e) => size_refusal(width, height) == Some(e.kind()),
        },
{
    let out: HeifFrame = build_frame(width, height, format, f, Ghost(g))?;
    proof {
        assert forall|p: int, x: int, y: int| format.has(width, height, p, x, y) implies
            #[trigger] out@.sample(p, x, y) == g(p, x, y) by {
            assert(format.stored(g(p, x, y)) == g(p, x, y));
        }
        lemma_picture(out@, width, height, format, g);
        law_packed_frame(out@);
    }
    Ok(out)
}

/// Powers of two up to the `k`-th stay below the `k`-th.
pub(crate) proof fn lemma_two_to_bound(k: nat)
    ensures
        forall|i: nat| i <= k ==> 1 <= #[trigger] vstd::arithmetic::power2::pow2(i)
            <= vstd::arithmetic::power2::pow2(k),
{
    assert forall|i: nat| i <= k implies 1 <= #[trigger] vstd::arithmetic::power2::pow2(i)
        <= vstd::arithmetic::power2::pow2(k) by {
        vstd::arithmetic::power2::lemma_pow2_pos(i);
        if i < k {
            vstd::arithmetic::power2::lemma_pow2_strictly_increases(i, k);
        }
    }
}

/// The layout of a `chroma_format_idc` and a bit depth above 8.
pub open spec fn coded_layout(chroma_idc: u8, depth_minus8: u8) -> core::result::Result<
    HeifPixelFormat,
    ErrorKind,
> {
    match Chroma::of_idc(chroma_idc as int) {
        None => Err(ErrorKind::Invalid),
        Some(chroma) => if depth_minus8 > 8 {
            Err(ErrorKind::Unsupported)
        } else {
            Ok(HeifPixelFormat { chroma, bit_depth: (8 + depth_minus8) as u8, has_alpha: false })
        },
    }
}

/// The layout of a `chroma_format_idc` and a bit depth above 8.
pub fn layout_of_codes(chroma_idc: u8, depth_minus8: u8) -> (r: Result<HeifPixelFormat>)
    ensures
        match r {
            Ok(f) => coded_layout(chroma_idc, depth_minus8) == Ok::<HeifPixelFormat, ErrorKind>(f),
            Err(e) => coded_layout(chroma_idc, depth_minus8) == Err::<HeifPixelFormat, ErrorKind>(
                e.kind(),
            ),
        },
        r matches Ok(f) ==> f.wf(),
{
    match Chroma::from_idc(chroma_idc) {
        None => {
            let n: String = decimal(chroma_idc as u64);
            Err(HeifError::invalid(concat(&["chroma_format_idc ", n.as_str()])))
        },
        Some(chroma) => if depth_minus8 > 8 {
            let n: String = decimal(depth_minus8 as u64 + 8);
            Err(HeifError::unsupported(concat(&["bit depth ", n.as_str()])))
        } else {
            HeifPixelFormat::new(chroma, 8 + depth_minus8, false)
        },
    }
}

/// Two to the power of `n`.
pub fn two_to(n: u8) -> (r: u64)
    requires
        n <= 32,
    ensures
        r == vstd::arithmetic::power2::pow2(n as nat),
        1 <= r <= 0x1_0000_0000,
{
    let mut r: u64 = 1;
    let mut i: u8 = 0;
    proof {
        vstd::arithmetic::power2::lemma2_to64();
        lemma_two_to_bound(32);
    }
    while i < n
        invariant
            i <= n <= 32,
            r == vstd::arithmetic::power2::pow2(i as nat),
            r <= 0x1_0000_0000,
        decreases n - i,
    {
        proof {
            vstd::arithmetic::power2::lemma_pow2_unfold((i + 1) as nat);
            vstd::arithmetic::power2::lemma2_to64();
            lemma_two_to_bound(32);
        }
        r = r * 2;
        i = i + 1;
    }
    proof {
        vstd::arithmetic::power2::lemma2_to64();
        lemma_two_to_bound(32);
    }
    r
}

} // verus!
