//! Sample layout conversions in front of the encoders: padding to the coded
//! block size, 8-bit 4:2:0, and planar YCbCr from packed RGB.
use crate::compose::fill::{fill_to_ycbcr, fill_values, lemma_fill_bound, matrix_of, to_sample};
use crate::compose::{lemma_reads, pictured};
use crate::error::{ErrorKind, HeifError, Outcome, Result};
use crate::image::core_bridge::{frame_of_core, PixelFormat, VideoFrame, VideoModel};
use crate::image::{
    build_picture, lemma_sample_stored, picture_of, shrink, shrunk, size_refusal, two_to, Chroma,
    FrameModel, HeifFrame, HeifPixelFormat, HeifPlane, Picture,
};
use crate::props::{Colr, ColrModel};
use vstd::arithmetic::power2::pow2;
use vstd::prelude::*;

verus! {

/// `v` or the last position before `n`.
pub open spec fn clamped(v: int, n: u32) -> int {
    if v < n {
        v
    } else {
        n - 1
    }
}

impl Picture {
    /// The picture brought to `w × h` by repeating its last column and row.
    pub open spec fn padded(self, w: u32, h: u32) -> Picture {
        picture_of(
            w,
            h,
            self.format,
            |p: int, x: int, y: int|
                (self.at)(p, clamped(x, self.dims(p).0), clamped(y, self.dims(p).1)),
        )
    }
}

/// The picture brought to `w × h`.
pub open spec fn padded_picture(f: Picture, w: u32, h: u32) -> Outcome<Picture> {
    match size_refusal(w, h) {
        Some(e) => Err(e),
        None => Ok(f.padded(w, h)),
    }
}

/// Pad a frame to `w × h` by edge replication (encoders need aligned
/// sizes; the visible extent is restored with `clap`).
pub fn pad_frame(f: &HeifFrame, w: u32, h: u32) -> (r: Result<HeifFrame>)
    requires
        f@.wf(),
    ensures
        pictured(r) == padded_picture(f@.picture(), w, h),
        r matches Ok(out) ==> out@.wf() && out@.packed(),
{
    let ghost m = f@;
    let fmt: HeifPixelFormat = f.format;
    let read = |p: usize, x: u32, y: u32| -> (v: u16)
        requires
            f@.wf(),
            fmt == f@.format,
            fmt.has(w, h, p as int, x as int, y as int),
        ensures
            v == (f@.picture().at)(
                p as int,
                clamped(x as int, f@.dims(p as int).0),
                clamped(y as int, f@.dims(p as int).1),
            ),
        {
            let (pw, ph): (u32, u32) = f.plane_dims(p);
            let sx: u32 = if x < pw {
                x
            } else {
                pw - 1
            };
            let sy: u32 = if y < ph {
                y
            } else {
                ph - 1
            };
            proof {
                lemma_reads(f@, p as int, sx as int, sy as int);
            }
            f.sample(p, sx, sy)
        };
    let ghost g = |p: int, x: int, y: int|
        (m.picture().at)(p, clamped(x, m.dims(p).0), clamped(y, m.dims(p).1));
    proof {
        assert forall|p: int, x: int, y: int| fmt.has(w, h, p, x, y) implies fmt.stored(
            #[trigger] g(p, x, y),
        ) == g(p, x, y) by {
            lemma_sample_stored(m, p, clamped(x, m.dims(p).0), clamped(y, m.dims(p).1));
        }
        assert(m.picture().padded(w, h) =~= picture_of(w, h, fmt, g));
    }
    build_picture(w, h, fmt, read, Ghost(g))
}

/// Cutting the visible extent out of a padded picture gives the picture back.
#[verifier::rlimit(50)]
pub proof fn law_pad_then_cut(f: Picture, w: u32, h: u32)
    requires
        f.bounded(),
        f.width <= w,
        f.height <= h,
    ensures
        f.padded(w, h).cut(0, 0, f.width, f.height) == f,
{
    let back = f.padded(w, h).cut(0, 0, f.width, f.height);
    assert forall|p: int, x: int, y: int| #[trigger] (back.at)(p, x, y) == (f.at)(p, x, y) by {
        if f.format.has(f.width, f.height, p, x, y) {
            assert(f.format.has(w, h, p, x, y));
        }
    }
    assert(back =~= f);
}

/// A sample of `depth` bits rounded to 8 bits.
pub open spec fn to_8_bits(v: int, depth: u8) -> u16 {
    if depth <= 8 {
        v as u16
    } else {
        let shift = (depth - 8) as nat;
        let r = (v + pow2((shift - 1) as nat) as int) / (pow2(shift) as int);
        (if r < 255 {
            r
        } else {
            255
        }) as u16
    }
}

/// The average of the chroma samples that cover position `(x, y)` of the 4:2:0
/// plane `p`: up to two columns and two rows, with the last one repeated.
pub open spec fn box_average(f: Picture, p: int, x: int, y: int) -> int {
    let c = f.format.chroma;
    let (w, h) = f.dims(p);
    let x0 = shrunk(2 * x, c.shift_x());
    let y0 = shrunk(2 * y, c.shift_y());
    let x1 = clamped(shrunk(2 * x + 1, c.shift_x()), w);
    let y1 = clamped(shrunk(2 * y + 1, c.shift_y()), h);
    ((f.at)(p, x0, y0) + (f.at)(p, x1, y0) + (f.at)(p, x0, y1) + (f.at)(p, x1, y1) + 2) / 4
}

impl Picture {
    /// The picture as 8-bit 4:2:0 without alpha.
    pub open spec fn reduced(self) -> Picture {
        let d = self.format.bit_depth;
        picture_of(
            self.width,
            self.height,
            HeifPixelFormat { chroma: Chroma::Yuv420, bit_depth: 8, has_alpha: false },
            |p: int, x: int, y: int|
                if p == 0 {
                    to_8_bits((self.at)(0, x, y) as int, d)
                } else if self.format.chroma == Chroma::Mono {
                    128
                } else {
                    to_8_bits(box_average(self, p, x, y), d)
                },
        )
    }
}

fn round_to_8(v: u32, depth: u8) -> (r: u16)
    requires
        8 <= depth <= 16,
        v <= 0xffff,
        depth == 8 ==> v <= 255,
    ensures
        r == to_8_bits(v as int, depth),
        r <= 255,
{
    if depth == 8 {
        v as u16
    } else {
        let half: u64 = two_to(depth - 8 - 1);
        let whole: u64 = two_to(depth - 8);
        let q: u64 = (v as u64 + half) / whole;
        if q < 255 {
            q as u16
        } else {
            255
        }
    }
}

fn min_u32(a: u32, b: u32) -> (r: u32)
    ensures
        r == (if a < b {
            a
        } else {
            b
        }),
{
    if a < b {
        a
    } else {
        b
    }
}

fn average_at(f: &HeifFrame, p: usize, x: u32, y: u32) -> (r: u32)
    requires
        f@.wf(),
        1 <= p < 3,
        f.format.chroma != Chroma::Mono,
        x < (f.width + 1) / 2,
        y < (f.height + 1) / 2,
    ensures
        r == box_average(f@.picture(), p as int, x as int, y as int),
        r <= 0xffff,
        f.format.bit_depth == 8 ==> r <= 255,
{
    let ghost pic = f@.picture();
    let (sx, sy): (u32, u32) = f.format.chroma.shift();
    let (pw, ph): (u32, u32) = f.plane_dims(p);
    let x0: u32 = shrink(2 * x, sx);
    let y0: u32 = shrink(2 * y, sy);
    let x1: u32 = min_u32(shrink(2 * x + 1, sx), pw - 1);
    let y1: u32 = min_u32(shrink(2 * y + 1, sy), ph - 1);
    proof {
        lemma_reads(f@, p as int, x0 as int, y0 as int);
        lemma_reads(f@, p as int, x1 as int, y0 as int);
        lemma_reads(f@, p as int, x0 as int, y1 as int);
        lemma_reads(f@, p as int, x1 as int, y1 as int);
    }
    let a: u32 = f.sample(p, x0, y0) as u32;
    let b: u32 = f.sample(p, x1, y0) as u32;
    let c: u32 = f.sample(p, x0, y1) as u32;
    let d: u32 = f.sample(p, x1, y1) as u32;
    (a + b + c + d + 2) / 4
}

/// Convert a frame to 8-bit 4:2:0 (the layout the HEVC / AV1 encoders
/// accept): monochrome gains neutral chroma, 4:2:2 / 4:4:4 chroma is
/// box-averaged, depths above 8 are rounded down.
pub fn to_yuv420_8(f: &HeifFrame) -> (r: Result<HeifFrame>)
    requires
        f@.wf(),
    ensures
        r matches Ok(out) && out@.wf() && out@.packed() && out@.picture() == f@.picture().reduced(),
{
    let ghost m = f@;
    let fmt: HeifPixelFormat = HeifPixelFormat {
        chroma: Chroma::Yuv420,
        bit_depth: 8,
        has_alpha: false,
    };
    let (w, h): (u32, u32) = (f.width, f.height);
    let depth: u8 = f.format.bit_depth;
    let mono: bool = f.format.chroma == Chroma::Mono;
    let read = |p: usize, x: u32, y: u32| -> (v: u16)
        requires
            f@.wf(),
            w == f.width,
            h == f.height,
            depth == f.format.bit_depth,
            mono == (f.format.chroma == Chroma::Mono),
            fmt == (HeifPixelFormat { chroma: Chroma::Yuv420, bit_depth: 8, has_alpha: false }),
            fmt.has(w, h, p as int, x as int, y as int),
        ensures
            v == (f@.picture().reduced().at)(p as int, x as int, y as int),
            v <= 255,
        {
            if p == 0 {
                proof {
                    lemma_reads(f@, 0, x as int, y as int);
                }
                round_to_8(f.sample(0, x, y) as u32, depth)
            } else if mono {
                128
            } else {
                round_to_8(average_at(f, p, x, y), depth)
            }
        };
    let ghost g = m.picture().reduced().at;
    proof {
        assert forall|p: int, x: int, y: int| fmt.has(w, h, p, x, y) implies fmt.stored(
            #[trigger] g(p, x, y),
        ) == g(p, x, y) by {
            lemma_reduced_range(m, p, x, y);
        }
        assert(m.picture().reduced() =~= picture_of(w, h, fmt, g));
    }
    build_picture(w, h, fmt, read, Ghost(g))
}

/// A sample of the 8-bit picture fits 8 bits.
proof fn lemma_reduced_range(f: FrameModel, p: int, x: int, y: int)
    requires
        f.wf(),
    ensures
        (f.picture().reduced().at)(p, x, y) <= 255,
{
    let pic = f.picture();
    let d = f.format.bit_depth;
    if p == 0 {
        lemma_sample_stored(f, 0, x, y);
        lemma_rounded((pic.at)(0, x, y) as int, d);
    } else {
        let v = box_average(pic, p, x, y);
        crate::image::lemma_valid_picture(f);
        assert(forall|q: int, i: int, j: int|
            f.format.stored(#[trigger] (pic.at)(q, i, j)) == (pic.at)(q, i, j));
        lemma_rounded(v, d);
    }
}

proof fn lemma_rounded(v: int, depth: u8)
    requires
        8 <= depth <= 16,
        0 <= v <= 0xffff,
        depth == 8 ==> v <= 255,
    ensures
        to_8_bits(v, depth) <= 255,
{
    if depth > 8 {
        let shift = (depth - 8) as nat;
        vstd::arithmetic::power2::lemma_pow2_pos(shift);
        vstd::arithmetic::power2::lemma_pow2_pos((shift - 1) as nat);
        let n = v + pow2((shift - 1) as nat) as int;
        let q = n / (pow2(shift) as int);
        assert(q >= 0) by (nonlinear_arith)
            requires
                n >= 0,
                pow2(shift) > 0,
                q == n / (pow2(shift) as int),
        ;
    }
}

/// How a packed format stores a pixel.
#[derive(Clone, Copy, Debug)]
pub struct PackedLayout {
    /// Bytes per pixel.
    pub bytes: usize,
    /// Which channels hold red, green, blue and alpha (grey three times for a
    /// grey format).
    pub order: [usize; 4],
    /// Whether a channel has 16 bits, little endian.
    pub wide: bool,
    /// Whether there is an alpha channel.
    pub alpha: bool,
    /// Whether there is a grey channel in place of the colours.
    pub grey: bool,
}

/// The layout of a packed format, `None` for the planar ones.
pub open spec fn packed_layout(pf: PixelFormat) -> Option<PackedLayout> {
    match pf {
        PixelFormat::Rgb24 => Some(
            PackedLayout { bytes: 3, order: [0, 1, 2, 0], wide: false, alpha: false, grey: false },
        ),
        PixelFormat::Rgba => Some(
            PackedLayout { bytes: 4, order: [0, 1, 2, 3], wide: false, alpha: true, grey: false },
        ),
        PixelFormat::Bgr24 => Some(
            PackedLayout { bytes: 3, order: [2, 1, 0, 0], wide: false, alpha: false, grey: false },
        ),
        PixelFormat::Bgra => Some(
            PackedLayout { bytes: 4, order: [2, 1, 0, 3], wide: false, alpha: true, grey: false },
        ),
        PixelFormat::Rgb48Le => Some(
            PackedLayout { bytes: 6, order: [0, 1, 2, 0], wide: true, alpha: false, grey: false },
        ),
        PixelFormat::Rgba64Le => Some(
            PackedLayout { bytes: 8, order: [0, 1, 2, 3], wide: true, alpha: true, grey: false },
        ),
        PixelFormat::Ya8 => Some(
            PackedLayout { bytes: 2, order: [0, 0, 0, 1], wide: false, alpha: true, grey: true },
        ),
        PixelFormat::Ya16Le => Some(
            PackedLayout { bytes: 4, order: [0, 0, 0, 1], wide: true, alpha: true, grey: true },
        ),
        _ => None,
    }
}

impl PackedLayout {
    /// The planar layout of the converted picture.
    pub open spec fn format(self) -> HeifPixelFormat {
        HeifPixelFormat {
            chroma: if self.grey {
                Chroma::Mono
            } else {
                Chroma::Yuv444
            },
            bit_depth: if self.wide {
                16
            } else {
                8
            },
            has_alpha: self.alpha,
        }
    }

    /// Every channel lies inside a pixel.
    pub open spec fn wf(self) -> bool {
        forall|k: int|
            0 <= k < 4 ==> 0 <= (#[trigger] self.order[k]) && self.order[k] + 1 <= (if self.wide {
                self.bytes as int / 2
            } else {
                self.bytes as int
            })
    }

    /// The value of channel `ch` of the pixel at byte `i`.
    pub open spec fn channel(self, data: Seq<u8>, i: int, ch: usize) -> u16 {
        if self.wide {
            (data[i + 2 * ch] + 256 * data[i + 2 * ch + 1]) as u16
        } else {
            data[i + ch] as u16
        }
    }

    /// The colour of the pixel at byte `i`, in 16-bit parts.
    pub open spec fn colour(self, data: Seq<u8>, i: int) -> [u16; 3] {
        let k: int = if self.wide {
            1
        } else {
            257
        };
        [
            (self.channel(data, i, self.order[0]) * k) as u16,
            (self.channel(data, i, self.order[1]) * k) as u16,
            (self.channel(data, i, self.order[2]) * k) as u16,
        ]
    }

    /// The sample of plane `p` for the pixel at byte `i`: its alpha, or its
    /// colour through the matrix and range of `colr`.
    pub open spec fn planar(self, data: Seq<u8>, i: int, p: int, colr: ColrModel) -> u16 {
        if self.format().is_alpha(p) {
            self.channel(data, i, self.order[3])
        } else {
            let (matrix, full_range) = matrix_of(Some(colr));
            let v = fill_values(
                self.colour(data, i),
                self.format().bit_depth as nat,
                matrix,
                full_range,
            );
            if p == 0 {
                to_sample(v.0)
            } else if p == 1 {
                to_sample(v.1)
            } else {
                to_sample(v.2)
            }
        }
    }
}

/// The planar picture of a packed frame.
pub open spec fn unpacked(
    v: VideoModel,
    width: u32,
    height: u32,
    pf: PixelFormat,
    colr: ColrModel,
) -> Outcome<Picture> {
    match packed_layout(pf) {
        None => Err(ErrorKind::Unsupported),
        Some(l) => if v.planes.len() == 0 || height == 0 || !v.planes[0].holds(
            width * l.bytes,
            height as int,
        ) {
            Err(ErrorKind::Invalid)
        } else {
            match size_refusal(width, height) {
                Some(e) => Err(e),
                None => Ok(
                    picture_of(
                        width,
                        height,
                        l.format(),
                        |p: int, x: int, y: int|
                            l.planar(
                                v.planes[0].data,
                                y * v.planes[0].stride + x * l.bytes,
                                p,
                                colr,
                            ),
                    ),
                ),
            }
        },
    }
}

fn layout_of_packed(pf: PixelFormat) -> (r: Option<PackedLayout>)
    ensures
        r == packed_layout(pf),
        r matches Some(l) ==> l.wf() && 0 < l.bytes <= 8,
{
    match pf {
        PixelFormat::Rgb24 => Some(
            PackedLayout { bytes: 3, order: [0, 1, 2, 0], wide: false, alpha: false, grey: false },
        ),
        PixelFormat::Rgba => Some(
            PackedLayout { bytes: 4, order: [0, 1, 2, 3], wide: false, alpha: true, grey: false },
        ),
        PixelFormat::Bgr24 => Some(
            PackedLayout { bytes: 3, order: [2, 1, 0, 0], wide: false, alpha: false, grey: false },
        ),
        PixelFormat::Bgra => Some(
            PackedLayout { bytes: 4, order: [2, 1, 0, 3], wide: false, alpha: true, grey: false },
        ),
        PixelFormat::Rgb48Le => Some(
            PackedLayout { bytes: 6, order: [0, 1, 2, 0], wide: true, alpha: false, grey: false },
        ),
        PixelFormat::Rgba64Le => Some(
            PackedLayout { bytes: 8, order: [0, 1, 2, 3], wide: true, alpha: true, grey: false },
        ),
        PixelFormat::Ya8 => Some(
            PackedLayout { bytes: 2, order: [0, 0, 0, 1], wide: false, alpha: true, grey: true },
        ),
        PixelFormat::Ya16Le => Some(
            PackedLayout { bytes: 4, order: [0, 0, 0, 1], wide: true, alpha: true, grey: true },
        ),
        _ => None,
    }
}

fn read_channel(l: &PackedLayout, data: &[u8], i: usize, k: usize) -> (r: u16)
    requires
        l.wf(),
        k < 4,
        i + l.bytes <= data@.len(),
    ensures
        r == l.channel(data@, i as int, l.order[k as int]),
        !l.wide ==> r <= 255,
{
    let ch: usize = l.order[k];
    assert(data.len() == data@.len());
    assert(ch == l.order[k as int]);
    if l.wide {
        data[i + 2 * ch] as u16 + 256 * (data[i + 2 * ch + 1] as u16)
    } else {
        data[i + ch] as u16
    }
}

fn planar_sample(l: &PackedLayout, data: &[u8], i: usize, p: usize, colr: &Colr) -> (r: u16)
    requires
        l.wf(),
        i + l.bytes <= data@.len(),
        p < l.format().planes(),
    ensures
        r == l.planar(data@, i as int, p as int, colr@),
        !l.wide ==> r <= 255,
{
    let colours: usize = if l.grey {
        1
    } else {
        3
    };
    if l.alpha && p == colours {
        return read_channel(l, data, i, 3);
    }
    let (r, g, b): (u16, u16, u16) = (
        read_channel(l, data, i, 0),
        read_channel(l, data, i, 1),
        read_channel(l, data, i, 2),
    );
    let rgb: [u16; 3] = if l.wide {
        [r, g, b]
    } else {
        [r * 257, g * 257, b * 257]
    };
    let depth: u8 = if l.wide {
        16
    } else {
        8
    };
    assert(rgb == l.colour(data@, i as int)) by {
        assert(rgb@ =~= l.colour(data@, i as int)@);
    }
    let ycc: [u16; 3] = fill_to_ycbcr(rgb, depth, Some(colr));
    proof {
        let (matrix, full_range) = matrix_of(Some(colr@));
        lemma_fill_bound(rgb, depth as nat, matrix, full_range);
        vstd::arithmetic::power2::lemma2_to64();
    }
    if p == 0 {
        ycc[0]
    } else if p == 1 {
        ycc[1]
    } else {
        ycc[2]
    }
}

/// A planar sample fits its layout.
proof fn lemma_planar_stored(l: PackedLayout, data: Seq<u8>, i: int, p: int, colr: ColrModel)
    ensures
        l.format().stored(l.planar(data, i, p, colr)) == l.planar(data, i, p, colr),
{
    let (matrix, full_range) = matrix_of(Some(colr));
    lemma_fill_bound(l.colour(data, i), l.format().bit_depth as nat, matrix, full_range);
    vstd::arithmetic::power2::lemma2_to64();
}

/// Where a pixel lies in its plane.
proof fn lemma_pixel_inside(len: int, stride: int, bytes: int, w: int, h: int, x: int, y: int)
    requires
        stride >= w * bytes,
        len >= stride * (h - 1) + w * bytes,
        0 <= x < w,
        0 <= y < h,
        bytes > 0,
    ensures
        0 <= y * stride,
        0 <= x * bytes,
        y * stride + x * bytes + bytes <= len,
{
    assert(0 <= y * stride && 0 <= x * bytes && y * stride + x * bytes + bytes <= len)
        by (nonlinear_arith)
        requires
            stride >= w * bytes,
            len >= stride * (h - 1) + w * bytes,
            0 <= x < w,
            0 <= y < h,
            bytes > 0,
    ;
}

/// Convert a packed RGB / RGBA / BGR / BGRA (8 or 16-bit) or packed
/// grey + alpha frame to the planar layout the encoder consumes: 4:4:4
/// YCbCr (or monochrome for grey + alpha) at the source depth, through
/// the H.273 matrix and range of `colr` (the MIAF default — BT.601,
/// full range — for an ICC one), with the alpha carried as a
/// plane. Row-major, `stride` honoured.
pub fn packed_to_planar(
    vf: &VideoFrame,
    width: u32,
    height: u32,
    pf: PixelFormat,
    colr: &Colr,
) -> (r: Result<HeifFrame>)
    ensures
        pictured(r) == unpacked(vf@, width, height, pf, colr@),
        r matches Ok(out) ==> out@.wf() && out@.packed(),
{
    let l: PackedLayout = match layout_of_packed(pf) {
        Some(l) => l,
        None => {
            return Err(
                HeifError::unsupported(
                    "framework pixel format is neither planar YCbCr / grey nor packed RGB(A)",
                ),
            );
        },
    };
    if vf.planes.len() == 0 || height == 0 {
        return Err(HeifError::invalid("packed frame without a plane"));
    }
    let src: &HeifPlane = &vf.planes[0];
    assert(vf@.planes[0] == src@);
    proof {
        assert(width * l.bytes <= 0xffff_ffff * 8) by (nonlinear_arith)
            requires
                0 <= width <= 0xffff_ffff,
                0 <= l.bytes <= 8,
        ;
        assert(src.stride * (height - 1) <= 0xffff_ffff_ffff_ffff * 0xffff_ffff) by (nonlinear_arith)
            requires
                0 <= src.stride <= 0xffff_ffff_ffff_ffff,
                0 <= height - 1 <= 0xffff_ffff,
        ;
    }
    let row: u64 = width as u64 * l.bytes as u64;
    let last: u128 = src.stride as u128 * (height - 1) as u128;
    if (src.stride as u64) < row || (src.data.len() as u128) < last + row as u128 {
        return Err(HeifError::invalid("packed frame too small"));
    }
    let fmt: HeifPixelFormat = HeifPixelFormat {
        chroma: if l.grey {
            Chroma::Mono
        } else {
            Chroma::Yuv444
        },
        bit_depth: if l.wide {
            16
        } else {
            8
        },
        has_alpha: l.alpha,
    };
    let data: &[u8] = src.data.as_slice();
    let stride: usize = src.stride;
    let read = |p: usize, x: u32, y: u32| -> (v: u16)
        requires
            l.wf(),
            l.bytes > 0,
            fmt == l.format(),
            fmt.has(width, height, p as int, x as int, y as int),
            stride >= width * l.bytes,
            data@.len() >= stride * (height - 1) + width * l.bytes,
        ensures
            v == l.planar(data@, y * stride + x * l.bytes, p as int, colr@),
        {
            proof {
                lemma_pixel_inside(
                    data@.len() as int,
                    stride as int,
                    l.bytes as int,
                    width as int,
                    height as int,
                    x as int,
                    y as int,
                );
            }
            assert(data.len() == data@.len());
            let i: usize = y as usize * stride + x as usize * l.bytes;
            planar_sample(&l, data, i, p, colr)
        };
    let ghost g = |p: int, x: int, y: int| l.planar(data@, y * stride + x * l.bytes, p, colr@);
    proof {
        assert forall|p: int, x: int, y: int| fmt.has(width, height, p, x, y) implies fmt.stored(
            #[trigger] g(p, x, y),
        ) == g(p, x, y) by {
            lemma_planar_stored(l, data@, y * stride + x * l.bytes, p, colr@);
        }
        assert(forall|p: int, x: int, y: int|
            #[trigger] g(p, x, y) == l.planar(
                vf@.planes[0].data,
                y * vf@.planes[0].stride + x * l.bytes,
                p,
                colr@,
            ));
    }
    let r: Result<HeifFrame> = build_picture(width, height, fmt, read, Ghost(g));
    proof {
        let k = |p: int, x: int, y: int|
            l.planar(
                vf@.planes[0].data,
                y * vf@.planes[0].stride + x * l.bytes,
                p,
                colr@,
            );
        assert(picture_of(width, height, fmt, g) =~= picture_of(width, height, fmt, k));
    }
    r
}

/// The picture of a frame that comes in for a stream of known size and format,
/// planar or packed.
pub open spec fn incoming(
    v: VideoModel,
    width: Option<u32>,
    height: Option<u32>,
    pf: Option<PixelFormat>,
    colr: ColrModel,
) -> Outcome<Picture> {
    match (width, height, pf) {
        (Some(w), Some(h), Some(f)) => if w == 0 || h == 0 {
            Err(ErrorKind::Invalid)
        } else {
            match frame_of_core(v, w, h, f) {
                Ok(m) => Ok(m.picture()),
                Err(_) => unpacked(v, w, h, f, colr),
            }
        },
        _ => Err(ErrorKind::Invalid),
    }
}

/// The frame an encoder takes in: planar YCbCr or grey as it is, packed RGB(A)
/// and grey + alpha through [`packed_to_planar`]. The size and the pixel format
/// of the stream must be set.
pub fn input_frame(
    vf: &VideoFrame,
    width: Option<u32>,
    height: Option<u32>,
    pf: Option<PixelFormat>,
    colr: &Colr,
) -> (r: Result<HeifFrame>)
    ensures
        pictured(r) == incoming(vf@, width, height, pf, colr@),
        r matches Ok(f) ==> f@.wf(),
{
    let (w, h): (u32, u32) = match (width, height) {
        (Some(w), Some(h)) => (w, h),
        _ => {
            return Err(HeifError::invalid("heif: width / height must be set"));
        },
    };
    if w == 0 || h == 0 {
        return Err(HeifError::invalid("heif: width / height must be set"));
    }
    let f: PixelFormat = match pf {
        Some(f) => f,
        None => {
            return Err(HeifError::invalid("heif: pixel_format must be set"));
        },
    };
    match HeifFrame::from_core(vf, w, h, f) {
        Ok(hf) => Ok(hf),
        Err(_) => packed_to_planar(vf, w, h, f, colr),
    }
}

} // verus!
