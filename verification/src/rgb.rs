//! YCbCr → RGB conversion of a composed [`HeifFrame`] (H.273 §8.3
//! matrix coefficients, full / limited range), the last step a renderer
//! needs after decoding and composing an item.
//!
//! The conversion is exact per sample (no dithering, round-to-nearest);
//! sub-sampled chroma is replicated to its co-sited luma samples
//! (chroma sample position 0 / "left-sited" in H.273 Figure 1 terms
//! puts the chroma sample at the left luma column of each pair, so
//! nearest replication is exact there for even columns). Monochrome
//! becomes grey; an alpha plane is carried through untouched.
use crate::bytes::{enc16, put16};
use crate::compose::fill::{colr_matrix, lemma_product, matrix_of, option_colr, quantise, quantised};
use crate::compose::lemma_reads;
use crate::error::{view_outcome, ErrorKind, HeifError, Outcome, Result};
use crate::image::{shrink, shrunk, two_to, Chroma, FrameModel, HeifFrame, HeifPixelFormat};
use crate::props::{Colr, ColrModel};
use crate::text::{concat, decimal};
use vstd::arithmetic::power2::pow2;
use vstd::prelude::*;

pub mod laws;

verus! {

/// An interleaved RGB / RGBA picture, one `u16` per sample holding
/// `bit_depth` significant bits.
#[derive(Clone, Debug, PartialEq, Eq)]
pub struct RgbImage {
    /// Width in pixels.
    pub width: u32,
    /// Height in pixels.
    pub height: u32,
    /// 3 (RGB) or 4 (RGBA).
    pub channels: usize,
    /// Bits per sample (8..=16), the source frame's depth.
    pub bit_depth: u8,
    /// `width × height × channels` samples, row-major.
    pub data: Vec<u16>,
}

/// Model of [`RgbImage`].
#[verifier::ext_equal]
pub struct RgbModel {
    /// Width in pixels.
    pub width: u32,
    /// Height in pixels.
    pub height: u32,
    /// 3 (RGB) or 4 (RGBA).
    pub channels: usize,
    /// Bits per sample.
    pub bit_depth: u8,
    /// The samples, row-major.
    pub data: Seq<u16>,
}

impl View for RgbImage {
    type V = RgbModel;

    open spec fn view(&self) -> RgbModel {
        RgbModel {
            width: self.width,
            height: self.height,
            channels: self.channels,
            bit_depth: self.bit_depth,
            data: self.data@,
        }
    }
}

impl RgbModel {
    /// Where channel `c` of the pixel at `(x, y)` is stored.
    pub open spec fn offset(self, x: u32, y: u32, c: usize) -> int {
        (y * self.width + x) * self.channels + c
    }

    /// The samples as bytes: one byte per sample up to 8 bits, big-endian words
    /// above.
    pub open spec fn be_bytes(self) -> Seq<u8> {
        if self.bit_depth <= 8 {
            Seq::new(self.data.len(), |i: int| self.data[i] as u8)
        } else {
            Seq::new(2 * self.data.len(), |i: int| enc16(self.data[i / 2])[i % 2])
        }
    }
}

impl RgbImage {
    /// One sample.
    pub fn sample(&self, x: u32, y: u32, c: usize) -> (v: u16)
        requires
            self@.offset(x, y, c) < self.data@.len(),
        ensures
            v == self.data@[self@.offset(x, y, c)],
    {
        let (w, n) = (self.width, self.channels);
        proof {
            assert(self.data.len() == self.data@.len());
            assert(0 <= y * w && 0 <= (y * w + x) * n) by (nonlinear_arith)
                requires
                    0 <= y,
                    0 <= w,
                    0 <= x,
                    0 <= n,
            ;
            assert(n >= 1 ==> y * w + x <= (y * w + x) * n) by (nonlinear_arith)
                requires
                    0 <= y * w + x,
                    0 <= n,
            ;
            assert(n == 0 ==> (y * w + x) * n == 0) by (nonlinear_arith);
        }
        if n == 0 {
            return self.data[c];
        }
        self.data[(y as usize * w as usize + x as usize) * n + c]
    }

    /// The samples as bytes: one byte per sample at 8 bits, big-endian
    /// words above (PNG / TIFF order).
    pub fn to_be_bytes(&self) -> (r: Vec<u8>)
        ensures
            r@ == self@.be_bytes(),
    {
        let mut out: Vec<u8> = Vec::new();
        if self.bit_depth <= 8 {
            for i in 0..self.data.len()
                invariant
                    out@.len() == i,
                    forall|k: int| 0 <= k < i ==> out@[k] == self.data@[k] as u8,
            {
                out.push(#[verifier::truncate] (self.data[i] as u8));
            }
        } else {
            for i in 0..self.data.len()
                invariant
                    out@.len() == 2 * i,
                    forall|k: int|
                        0 <= k < 2 * i ==> out@[k] == enc16(self.data@[k / 2])[k % 2],
            {
                put16(&mut out, self.data[i]);
            }
        }
        out
    }
}

/// `(Kr, Kb)` of a `matrix_coefficients` code point in ten-thousandths (H.273
/// Table 4); `None` for the codes without weights.
pub open spec fn weights_of(matrix: u16) -> Option<(int, int)> {
    if matrix == 1 {
        Some((2126, 722))
    } else if matrix == 4 {
        Some((3000, 1100))
    } else if matrix == 2 || matrix == 5 || matrix == 6 {
        Some((2990, 1140))
    } else if matrix == 7 {
        Some((2120, 870))
    } else if matrix == 9 {
        Some((2627, 593))
    } else {
        None
    }
}

/// `(Kr, Kb)` of a `matrix_coefficients` code point in ten-thousandths
/// (H.273 Table 4); `None` for the identity matrix (0) and for the
/// constant-luminance / chromaticity-derived / ICtCp variants this crate
/// does not convert.
pub fn matrix_weights(matrix: u16) -> (r: Option<(i128, i128)>)
    ensures
        match r {
            Some(k) => weights_of(matrix) == Some((k.0 as int, k.1 as int)),
            None => weights_of(matrix) is None,
        },
        r matches Some(k) ==> 0 < k.0 <= 3000 && 0 < k.1 <= 1140,
{
    match matrix {
        1 => Some((2126, 722)),
        4 => Some((3000, 1100)),
        // 2 = unspecified: readers assume BT.601 (the MIAF default).
        2 | 5 | 6 => Some((2990, 1140)),
        7 => Some((2120, 870)),
        9 => Some((2627, 593)),
        _ => None,
    }
}

/// How coded values stand for signal values at a depth and range: offset and
/// scale of luma, scale and middle of chroma, and the largest value.
pub struct Scale {
    /// The coded value of luma 0.
    pub y_off: int,
    /// The coded steps of the luma range.
    pub y_scale: int,
    /// The coded steps of the chroma range.
    pub c_scale: int,
    /// The coded value of chroma 0.
    pub mid: int,
    /// The largest coded value.
    pub max: int,
}

/// The scale of a depth and range (H.273 equations 20–22 for limited range).
pub open spec fn scale_of(depth: nat, full_range: bool) -> Scale {
    let max = pow2(depth) - 1;
    let sh = pow2((depth - 8) as nat) as int;
    Scale {
        y_off: if full_range {
            0
        } else {
            16 * sh
        },
        y_scale: if full_range {
            max
        } else {
            219 * sh
        },
        c_scale: if full_range {
            max
        } else {
            224 * sh
        },
        mid: pow2((depth - 1) as nat) as int,
        max,
    }
}

impl Scale {
    /// The output value of a coded luma (or identity-coded) value.
    pub open spec fn level(self, v: int) -> int {
        quantised((v - self.y_off) * self.max, self.y_scale, self.max)
    }

    /// The denominator that luma and chroma signal values share.
    pub open spec fn one(self) -> int {
        10000 * (self.y_scale * self.c_scale)
    }

    /// The luma signal.
    pub open spec fn luma(self, y: int) -> int {
        10000 * ((y - self.y_off) * self.c_scale)
    }

    /// The red (or blue) signal: luma plus `2 * (1 - k)` times the chroma
    /// difference.
    pub open spec fn outer(self, y: int, c: int, k: int) -> int {
        self.luma(y) + 2 * (10000 - k) * ((c - self.mid) * self.y_scale)
    }

    /// Ten thousand times the green signal times its weight: what luma leaves
    /// after red and blue.
    pub open spec fn green(self, y: int, cb: int, cr: int, kr: int, kb: int) -> int {
        10000 * self.luma(y) - kr * self.outer(y, cr, kr) - kb * self.outer(y, cb, kb)
    }
}

/// The RGB value of channel `c` of a coded triple: the identity matrix codes G,
/// B, R; the others follow H.273 equations 38–40 inverted.
pub open spec fn rgb_value(s: Scale, weights: Option<(int, int)>, y: int, cb: int, cr: int, c: int) -> int {
    match weights {
        None => s.level(
            if c == 0 {
                cr
            } else if c == 1 {
                y
            } else {
                cb
            },
        ),
        Some((kr, kb)) => if c == 0 {
            quantised(s.outer(y, cr, kr) * s.max, s.one(), s.max)
        } else if c == 1 {
            quantised(
                s.green(y, cb, cr, kr, kb) * s.max,
                (10000 - kr - kb) * s.one(),
                s.max,
            )
        } else {
            quantised(s.outer(y, cb, kb) * s.max, s.one(), s.max)
        },
    }
}

/// Channel `c` of the RGB pixel at `(x, y)`.
pub open spec fn rgb_sample(f: FrameModel, matrix: u16, full_range: bool, x: int, y: int, c: int) -> u16 {
    let s = scale_of(f.format.bit_depth as nat, full_range);
    let chroma = f.format.chroma;
    let luma = f.sample(0, x, y) as int;
    if c == 3 {
        f.sample(chroma.planes(), x, y)
    } else if chroma == Chroma::Mono {
        s.level(luma) as u16
    } else {
        let cx = shrunk(x, chroma.shift_x());
        let cy = shrunk(y, chroma.shift_y());
        rgb_value(
            s,
            weights_of(matrix),
            luma,
            f.sample(1, cx, cy) as int,
            f.sample(2, cx, cy) as int,
            c,
        ) as u16
    }
}

/// The number of channels of the RGB image of a layout.
pub open spec fn rgb_channels(f: HeifPixelFormat) -> usize {
    if f.has_alpha {
        4
    } else {
        3
    }
}

/// The RGB image of a frame.
pub open spec fn rgb_of(f: FrameModel, colr: Option<ColrModel>) -> Outcome<RgbModel> {
    let (matrix, full_range) = matrix_of(colr);
    let n = rgb_channels(f.format);
    match f.refusal() {
        Some(e) => Err(e),
        None => if f.format.chroma != Chroma::Mono && matrix != 0 && weights_of(matrix) is None {
            Err(ErrorKind::Unsupported)
        } else {
            Ok(
                RgbModel {
                    width: f.width,
                    height: f.height,
                    channels: n,
                    bit_depth: f.format.bit_depth,
                    data: Seq::new(
                        (f.width * f.height * n) as nat,
                        |i: int|
                            rgb_sample(
                                f,
                                matrix,
                                full_range,
                                i / (n as int) % (f.width as int),
                                i / (n as int) / (f.width as int),
                                i % (n as int),
                            ),
                    ),
                },
            )
        },
    }
}

/// The executable form of a [`Scale`].
#[derive(Clone, Copy)]
struct Levels {
    y_off: i128,
    y_scale: i128,
    c_scale: i128,
    mid: i128,
    max: i128,
}

impl Levels {
    spec fn scale(self) -> Scale {
        Scale {
            y_off: self.y_off as int,
            y_scale: self.y_scale as int,
            c_scale: self.c_scale as int,
            mid: self.mid as int,
            max: self.max as int,
        }
    }

    spec fn wf(self) -> bool {
        &&& 0 <= self.y_off <= 65535
        &&& 0 < self.y_scale <= 65535
        &&& 0 < self.c_scale <= 65535
        &&& 0 <= self.mid <= 65535
        &&& 0 < self.max <= 65535
    }

    fn new(depth: u8, full_range: bool) -> (r: Self)
        requires
            8 <= depth <= 16,
        ensures
            r.wf(),
            r.scale() == scale_of(depth as nat, full_range),
    {
        proof {
            vstd::arithmetic::power2::lemma2_to64();
            crate::image::lemma_two_to_bound(16);
            crate::image::lemma_two_to_bound(15);
            crate::image::lemma_two_to_bound(8);
            if depth > 8 {
                vstd::arithmetic::power2::lemma_pow2_strictly_increases(8, depth as nat);
            }
        }
        let max: i128 = two_to(depth) as i128 - 1;
        let sh: i128 = two_to(depth - 8) as i128;
        let mid: i128 = two_to(depth - 1) as i128;
        if full_range {
            Levels { y_off: 0, y_scale: max, c_scale: max, mid, max }
        } else {
            Levels { y_off: 16 * sh, y_scale: 219 * sh, c_scale: 224 * sh, mid, max }
        }
    }

    fn level(&self, v: u16) -> (r: u16)
        requires
            self.wf(),
        ensures
            r == self.scale().level(v as int),
    {
        proof {
            lemma_product(v - self.y_off, self.max as int, 65535, 65535);
        }
        quantise((v as i128 - self.y_off) * self.max, self.y_scale, self.max) as u16
    }

    fn one(&self) -> (r: i128)
        requires
            self.wf(),
        ensures
            r == self.scale().one(),
            0 < r <= 42949672960000,
    {
        proof {
            lemma_product(self.y_scale as int, self.c_scale as int, 65535, 65535);
            assert(0 < self.y_scale * self.c_scale) by (nonlinear_arith)
                requires
                    0 < self.y_scale,
                    0 < self.c_scale,
            ;
        }
        10000 * (self.y_scale * self.c_scale)
    }

    fn luma(&self, y: u16) -> (r: i128)
        requires
            self.wf(),
        ensures
            r == self.scale().luma(y as int),
            -42949672960000 <= r <= 42949672960000,
    {
        proof {
            lemma_product(y - self.y_off, self.c_scale as int, 65535, 65535);
        }
        10000 * ((y as i128 - self.y_off) * self.c_scale)
    }

    fn outer(&self, y: u16, c: u16, k: i128) -> (r: i128)
        requires
            self.wf(),
            0 <= k <= 10000,
        ensures
            r == self.scale().outer(y as int, c as int, k as int),
            -128849018880000 <= r <= 128849018880000,
    {
        proof {
            lemma_product(c - self.mid, self.y_scale as int, 65535, 65535);
            lemma_product(
                2 * (10000 - k),
                (c - self.mid) * self.y_scale,
                20000,
                4294967296,
            );
        }
        self.luma(y) + 2 * (10000 - k) * ((c as i128 - self.mid) * self.y_scale)
    }

    /// The RGB values of a coded triple.
    fn convert(&self, weights: Option<(i128, i128)>, y: u16, cb: u16, cr: u16) -> (r: (u16, u16, u16))
        requires
            self.wf(),
            weights matches Some(k) ==> 0 < k.0 <= 3000 && 0 < k.1 <= 1140,
        ensures
            ({
                let w = match weights {
                    Some(k) => Some((k.0 as int, k.1 as int)),
                    None => None,
                };
                let s = self.scale();
                &&& r.0 == rgb_value(s, w, y as int, cb as int, cr as int, 0)
                &&& r.1 == rgb_value(s, w, y as int, cb as int, cr as int, 1)
                &&& r.2 == rgb_value(s, w, y as int, cb as int, cr as int, 2)
            }),
    {
        match weights {
            // Identity: Y = G, Cb = B, Cr = R (equations 41–43).
            None => (self.level(cr), self.level(y), self.level(cb)),
            Some((kr, kb)) => {
                let one: i128 = self.one();
                let r: i128 = self.outer(y, cr, kr);
                let b: i128 = self.outer(y, cb, kb);
                proof {
                    lemma_product(kr as int, r as int, 10000, 128849018880000);
                    lemma_product(kb as int, b as int, 10000, 128849018880000);
                }
                let g: i128 = 10000 * self.luma(y) - kr * r - kb * b;
                proof {
                    lemma_product(r as int, self.max as int, 128849018880000, 65535);
                    lemma_product(b as int, self.max as int, 128849018880000, 65535);
                    lemma_product(
                        g as int,
                        self.max as int,
                        4294967296000000000,
                        65535,
                    );
                    lemma_product(
                        10000 - kr - kb,
                        one as int,
                        10000,
                        42949672960000,
                    );
                    assert(0 < (10000 - kr - kb) * one) by (nonlinear_arith)
                        requires
                            kr <= 3000,
                            kb <= 1140,
                            0 < one,
                    ;
                }
                (
                    quantise(r * self.max, one, self.max) as u16,
                    quantise(g * self.max, (10000 - kr - kb) * one, self.max) as u16,
                    quantise(b * self.max, one, self.max) as u16,
                )
            },
        }
    }
}

/// A pixel of a frame.
proof fn lemma_pixel(n: int, w: int, h: int)
    requires
        0 <= n < w * h,
        0 < w,
    ensures
        0 <= n % w < w,
        0 <= n / w < h,
{
    vstd::arithmetic::div_mod::lemma_fundamental_div_mod(n, w);
    assert(0 <= n / w < h) by (nonlinear_arith)
        requires
            0 <= n < w * h,
            n == w * (n / w) + n % w,
            0 <= n % w < w,
            0 < w,
    ;
}

/// Convert `frame` to RGB(A) using the matrix / range of `colr`
/// (`nclx`; an ICC or absent `colr` falls back to the MIAF default:
/// BT.601 matrix, full range).
pub fn to_rgb(frame: &HeifFrame, colr: Option<&Colr>) -> (r: Result<RgbImage>)
    requires
        frame.format.wf(),
    ensures
        view_outcome(r) == rgb_of(frame@, option_colr(colr)),
{
    frame.validate()?;
    let (matrix, full_range) = colr_matrix(colr);
    let chroma: Chroma = frame.format.chroma;
    let mono: bool = chroma == Chroma::Mono;
    let weights: Option<(i128, i128)> = matrix_weights(matrix);
    if !mono && matrix != 0 && weights.is_none() {
        let n: String = decimal(matrix as u64);
        return Err(
            HeifError::unsupported(concat(&["matrix_coefficients ", n.as_str(), " conversion"])),
        );
    }
    let levels: Levels = Levels::new(frame.format.bit_depth, full_range);
    let alpha: bool = frame.format.has_alpha;
    let channels: usize = if alpha {
        4
    } else {
        3
    };
    let ghost f = frame@;
    assert(f.wf());
    let (w, h) = (frame.width, frame.height);
    let (sx, sy) = chroma.shift();
    let planes: usize = chroma.colour_planes();
    proof {
        assert(0 <= w * h) by (nonlinear_arith)
            requires
                0 <= w,
                0 <= h,
        ;
    }
    let count: usize = w as usize * h as usize;
    let ghost value = |i: int|
        rgb_sample(
            f,
            matrix,
            full_range,
            i / (channels as int) % (w as int),
            i / (channels as int) / (w as int),
            i % (channels as int),
        );
    let mut data: Vec<u16> = Vec::new();
    for n in 0..count
        invariant
            f == frame@,
            f.wf(),
            chroma == f.format.chroma,
            mono == (chroma == Chroma::Mono),
            sx == chroma.shift_x(),
            sy == chroma.shift_y(),
            planes == chroma.planes(),
            alpha == f.format.has_alpha,
            channels == rgb_channels(f.format),
            w == f.width,
            h == f.height,
            count == w * h,
            levels.wf(),
            levels.scale() == scale_of(f.format.bit_depth as nat, full_range),
            weights matches Some(k) ==> 0 < k.0 <= 3000 && 0 < k.1 <= 1140,
            match weights {
                Some(k) => weights_of(matrix) == Some((k.0 as int, k.1 as int)),
                None => weights_of(matrix) is None,
            },
            value == (|i: int|
                rgb_sample(
                    f,
                    matrix,
                    full_range,
                    i / (channels as int) % (w as int),
                    i / (channels as int) / (w as int),
                    i % (channels as int),
                )),
            data@.len() == n * channels,
            forall|i: int| 0 <= i < n * channels ==> data@[i] == #[trigger] value(i),
    {
        let x: u32 = (n % w as usize) as u32;
        let y: u32 = (n / w as usize) as u32;
        proof {
            lemma_pixel(n as int, w as int, h as int);
            assert(f.has(0, x as int, y as int));
            lemma_reads(f, 0, x as int, y as int);
            assert(value(n * channels) == rgb_sample(f, matrix, full_range, x as int, y as int, 0));
            assert(value(n * channels + 1) == rgb_sample(
                f,
                matrix,
                full_range,
                x as int,
                y as int,
                1,
            ));
            assert(value(n * channels + 2) == rgb_sample(
                f,
                matrix,
                full_range,
                x as int,
                y as int,
                2,
            ));
            assert(alpha ==> value(n * channels + 3) == rgb_sample(
                f,
                matrix,
                full_range,
                x as int,
                y as int,
                3,
            ));
        }
        let luma: u16 = frame.sample(0, x, y);
        let (r, g, b) = if mono {
            let v: u16 = levels.level(luma);
            (v, v, v)
        } else {
            let cx: u32 = shrink(x, sx);
            let cy: u32 = shrink(y, sy);
            proof {
                assert(f.has(1, cx as int, cy as int) && f.has(2, cx as int, cy as int));
                lemma_reads(f, 1, cx as int, cy as int);
                lemma_reads(f, 2, cx as int, cy as int);
            }
            levels.convert(weights, luma, frame.sample(1, cx, cy), frame.sample(2, cx, cy))
        };
        data.push(r);
        data.push(g);
        data.push(b);
        if alpha {
            proof {
                assert(f.has(planes as int, x as int, y as int));
                lemma_reads(f, planes as int, x as int, y as int);
            }
            data.push(frame.sample(planes, x, y));
        }
    }
    let out = RgbImage { width: w, height: h, channels, bit_depth: frame.format.bit_depth, data };
    proof {
        assert(w * h * channels == count * channels);
        assert(out@.data =~= rgb_of(f, option_colr(colr))->Ok_0.data) by {
            assert forall|i: int| 0 <= i < count * channels implies data@[i] == rgb_of(
                f,
                option_colr(colr),
            )->Ok_0.data[i] by {
                assert(data@[i] == value(i));
            }
        }
    }
    Ok(out)
}

/// A fraction can be scaled before it is rounded.
proof fn lemma_quantised_scaled(k: int, n: int, d: int, max: int)
    requires
        k > 0,
        d > 0,
    ensures
        quantised(k * n, k * d, max) == quantised(n, d, max),
{
    assert((k * n <= 0) == (n <= 0)) by (nonlinear_arith)
        requires
            k > 0,
    ;
    assert(2 * (k * n) + k * d == k * (2 * n + d)) by (nonlinear_arith);
    assert(2 * (k * d) == k * (2 * d)) by (nonlinear_arith);
    if n > 0 {
        vstd::arithmetic::div_mod::lemma_div_multiples_vanish_quotient(k, 2 * n + d, 2 * d);
    }
}

/// A pixel without colour is grey, whatever the matrix: with both chroma values
/// in the middle, red, green and blue are the luma level.
#[verifier::rlimit(50)]
pub proof fn law_neutral_chroma_is_grey(matrix: u16, depth: nat, full_range: bool, y: int, c: int)
    requires
        weights_of(matrix) is Some,
        8 <= depth <= 16,
    ensures
        ({
            let s = scale_of(depth, full_range);
            rgb_value(s, weights_of(matrix), y, s.mid, s.mid, c) == s.level(y)
        }),
{
    let s = scale_of(depth, full_range);
    let (kr, kb) = weights_of(matrix)->Some_0;
    vstd::arithmetic::power2::lemma_pow2_pos((depth - 8) as nat);
    vstd::arithmetic::power2::lemma_pow2_strictly_increases(0, depth);
    vstd::arithmetic::power2::lemma2_to64();
    let (l, one, cs) = (s.luma(y), s.one(), s.c_scale);
    assert((s.mid - s.mid) * s.y_scale == 0);
    assert(s.outer(y, s.mid, kr) == l && s.outer(y, s.mid, kb) == l) by {
        assert(2 * (10000 - kr) * 0int == 0 && 2 * (10000 - kb) * 0int == 0);
    }
    let n = (y - s.y_off) * s.max;
    assert(l * s.max == (10000 * cs) * n && one == (10000 * cs) * s.y_scale) by (nonlinear_arith)
        requires
            l == 10000 * ((y - s.y_off) * cs),
            one == 10000 * (s.y_scale * cs),
            n == (y - s.y_off) * s.max,
    ;
    lemma_quantised_scaled(10000 * cs, n, s.y_scale, s.max);
    let kg = 10000 - kr - kb;
    let g = s.green(y, s.mid, s.mid, kr, kb);
    assert(g * s.max == kg * (l * s.max)) by (nonlinear_arith)
        requires
            g == 10000 * l - kr * l - kb * l,
            kg == 10000 - kr - kb,
    ;
    assert(one > 0) by (nonlinear_arith)
        requires
            one == (10000 * cs) * s.y_scale,
            cs > 0,
            s.y_scale > 0,
    ;
    lemma_quantised_scaled(kg, l * s.max, one, s.max);
}

} // verus!
