//! Laws of the pictures that are coded beside the master.
use crate::encode::convert::{box_average, clamped, to_8_bits};
use crate::encode::reduce::{law_edge_is_nearest, law_reduced_edge};
use crate::encode::still::{alpha_of, coded_form, job_of, thumbnail_of, tile_edge, JobModel};
use crate::encode::{aperture, colour_props, CodedPictureModel, EncodeOptions, StillCodec};
use crate::error::ErrorKind;
use crate::image::seen::{inside, seen_opacity};
use crate::image::{shrunk, size_refusal, Chroma, FrameModel, Picture};
use crate::props::{law_resolve_inverts_for_rect, ColrModel, CropRect, PropertyModel};
use vstd::arithmetic::power2::pow2;
use vstd::prelude::*;

verus! {

/// A thumbnail is made exactly of a picture with an edge above the limit that was asked
/// for. Its longer edge is the limit; each edge is the picture's own times the limit over
/// the longer edge, rounded to the nearest integer, and at least one pixel.
pub proof fn law_thumbnail_size(c: Picture, opts: EncodeOptions, d: u32)
    requires
        opts.thumbnail_max_dim == Some(d),
        1 <= d,
        size_refusal(c.width, c.height) is None,
    ensures
        c.width <= d && c.height <= d ==> thumbnail_of(c, opts) == Ok::<
            Option<JobModel>,
            ErrorKind,
        >(None),
        thumbnail_of(c, opts) matches Ok(Some(j)) ==> {
            let (w, h) = (j.size.0 as int, j.size.1 as int);
            let m = if c.width < c.height {
                c.height as int
            } else {
                c.width as int
            };
            &&& m > d
            &&& c.width == m ==> w == d
            &&& c.height == m ==> h == d
            &&& 1 <= w <= c.width && 1 <= h <= c.height
            &&& 2 * (w * m) >= 2 * (c.width * d) - m
            &&& 2 * (w * m) <= 2 * (c.width * d) + m || (w == 1 && 2 * (c.width * d) <= m)
            &&& 2 * (h * m) >= 2 * (c.height * d) - m
            &&& 2 * (h * m) <= 2 * (c.height * d) + m || (h == 1 && 2 * (c.height * d) <= m)
        },
        thumbnail_of(c, opts) is Ok && (c.width > d || c.height > d) ==> thumbnail_of(
            c,
            opts,
        ) matches Ok(Some(_)),
{
    let m = if c.width < c.height {
        c.height
    } else {
        c.width
    };
    let (a, b) = (c.width as int, c.height as int);
    assert(a <= a * b && b <= a * b) by (nonlinear_arith)
        requires
            1 <= a,
            1 <= b,
    ;
    if m > d {
        assert(a < b ==> a * d <= a * b) by (nonlinear_arith)
            requires
                1 <= a,
                d < m,
                a < b ==> m == b,
        ;
        assert(b < a ==> b * d <= a * b) by (nonlinear_arith)
            requires
                1 <= b,
                d < m,
                b < a ==> m == a,
        ;
        law_reduced_edge(c.width as nat, m as nat, d as nat);
        law_reduced_edge(c.height as nat, m as nat, d as nat);
        law_edge_is_nearest(c.width as nat, m as nat, d as nat);
        law_edge_is_nearest(c.height as nat, m as nat, d as nat);
    }
}

/// A picture to encode is the picture itself, brought to whole blocks of the codec, 16
/// pixels for HEVC and 8 for AV1, by repeating its last column and row; it is shown at
/// its own size.
#[verifier::rlimit(40)]
pub proof fn law_job_shows(f: Picture, codec: StillCodec, colr: ColrModel, sets: u8, j: JobModel)
    requires
        job_of(f, codec, colr, sets) == Ok::<JobModel, ErrorKind>(j),
        1 <= f.width <= 0x4000_0000,
        1 <= f.height <= 0x4000_0000,
    ensures
        j.size == (f.width, f.height),
        j.colr == colr,
        j.parameter_sets == sets,
        j.picture.format == f.format,
        ({
            let n: int = match codec {
                StillCodec::Hevc => 16,
                StillCodec::Av1 => 8,
            };
            &&& j.picture.width as int % n == 0 && f.width <= j.picture.width < f.width + n
            &&& j.picture.height as int % n == 0 && f.height <= j.picture.height < f.height + n
        }),
        forall|p: int, x: int, y: int|
            f.format.has(f.width, f.height, p, x, y) ==> #[trigger] (j.picture.at)(p, x, y) == (f.at)(
                p,
                x,
                y,
            ),
        forall|p: int, x: int, y: int|
            #![trigger (j.picture.at)(p, x, y)]
            f.format.has(j.picture.width, j.picture.height, p, x, y) && x >= f.dims(p).0 ==> (
            j.picture.at)(p, x, y) == (j.picture.at)(p, f.dims(p).0 - 1, y),
        forall|p: int, x: int, y: int|
            #![trigger (j.picture.at)(p, x, y)]
            f.format.has(j.picture.width, j.picture.height, p, x, y) && y >= f.dims(p).1 ==> (
            j.picture.at)(p, x, y) == (j.picture.at)(p, x, f.dims(p).1 - 1),
{
    let n: int = match codec {
        StillCodec::Hevc => 16,
        StillCodec::Av1 => 8,
    };
    lemma_aligned(f.width as int, n);
    lemma_aligned(f.height as int, n);
    assert forall|p: int, x: int, y: int| f.format.has(f.width, f.height, p, x, y) implies #[trigger] (
    j.picture.at)(p, x, y) == (f.at)(p, x, y) by {
        assert(f.format.has(j.picture.width, j.picture.height, p, x, y));
    }
}

proof fn lemma_aligned(v: int, n: int)
    requires
        1 <= v,
        n == 16 || n == 8,
    ensures
        v <= crate::encode::aligned(v, n) < v + n,
        crate::encode::aligned(v, n) % n == 0,
{
    if n == 16 {
        assert((v + 15) / 16 * 16 == 16 * ((v + 15) / 16));
    } else {
        assert((v + 7) / 8 * 8 == 8 * ((v + 7) / 8));
    }
}

/// A sample reduced to 8 bits is divided by the power of two between the depths,
/// rounded to the nearest integer and held to 255.
proof fn lemma_to_8_bits(v: int, depth: u8)
    requires
        8 <= depth <= 16,
        0 <= v <= 65535,
        depth == 8 ==> v <= 255,
    ensures
        near_8_bits(v, depth, to_8_bits(v, depth) as int),
{
    vstd::arithmetic::power2::lemma2_to64();
    if depth > 8 {
        let s = (depth - 8) as nat;
        let k = pow2(s) as int;
        let half = pow2((s - 1) as nat) as int;
        vstd::arithmetic::power2::lemma_pow2_unfold(s);
        vstd::arithmetic::power2::lemma_pow2_pos((s - 1) as nat);
        let q = (v + half) / k;
        vstd::arithmetic::div_mod::lemma_fundamental_div_mod(v + half, k);
        assert(k * q == q * k) by (nonlinear_arith);
        assert(0 <= q) by (nonlinear_arith)
            requires
                q == (v + half) / k,
                0 <= v + half,
                0 < k,
        ;
        if q >= 255 {
            assert(255 * k <= q * k) by (nonlinear_arith)
                requires
                    255 <= q,
                    0 < k,
            ;
        }
    } else {
        assert(v * pow2(0) == v) by (nonlinear_arith)
            requires
                pow2(0) == 1,
        ;
    }
}

/// A value of 8 bits is that of `depth` bits over the power of two between the depths,
/// rounded to the nearest integer and held to 255.
pub open spec fn near_8_bits(v: int, depth: u8, r: int) -> bool {
    let k = pow2((depth - 8) as nat) as int;
    &&& 0 <= r <= 255
    &&& 2 * (r * k) <= 2 * v + k
    &&& r < 255 ==> 2 * v < 2 * (r * k) + k
}

/// The 8-bit 4:2:0 form of a picture keeps its size and drops its alpha. Luma is that of
/// the picture in 8 bits; chroma that of the picture in 8 bits where it is 4:2:0, 128 where
/// the picture has none, and of a 4:4:4 picture the average of the four samples that it
/// stands for.
#[verifier::rlimit(60)]
pub proof fn law_reduced_picture(f: Picture, p: int, x: int, y: int)
    requires
        8 <= f.format.bit_depth <= 16,
        forall|q: int, u: int, v: int|
            #[trigger] (f.at)(q, u, v) < pow2(f.format.bit_depth as nat),
        f.reduced().format.has(f.width, f.height, p, x, y),
    ensures
        ({
            let g = f.reduced();
            let d = f.format.bit_depth;
            let r = (g.at)(p, x, y) as int;
            &&& g.width == f.width && g.height == f.height
            &&& g.format.chroma == Chroma::Yuv420 && g.format.bit_depth == 8 && !g.format.has_alpha
            &&& p == 0 ==> near_8_bits((f.at)(0, x, y) as int, d, r)
            &&& p > 0 && f.format.chroma == Chroma::Mono ==> r == 128
            &&& p > 0 && f.format.chroma == Chroma::Yuv420 ==> near_8_bits(
                (f.at)(p, x, y) as int,
                d,
                r,
            )
            &&& p > 0 && f.format.chroma == Chroma::Yuv444 && 2 * x + 1 < f.width && 2 * y + 1
                < f.height ==> exists|m: int|
                {
                    let sum = (f.at)(p, 2 * x, 2 * y) + (f.at)(p, 2 * x + 1, 2 * y) + (f.at)(
                        p,
                        2 * x,
                        2 * y + 1,
                    ) + (f.at)(p, 2 * x + 1, 2 * y + 1);
                    &&& #[trigger] near_8_bits(m, d, r)
                    &&& 4 * m - 2 <= sum <= 4 * m + 2
                }
        }),
{
    let d = f.format.bit_depth;
    crate::compose::overlay::lemma_max(d);
    vstd::arithmetic::power2::lemma2_to64();
    if p == 0 {
        assert((f.at)(0, x, y) < pow2(d as nat));
        lemma_to_8_bits((f.at)(0, x, y) as int, d);
    } else if f.format.chroma != Chroma::Mono {
        let m = box_average(f, p, x, y);
        let (a, b, c, e) = box_samples(f, p, x, y);
        assert(m == (a + b + c + e + 2) / 4);
        assert(0 <= m < pow2(d as nat)) by {
            let (w, h) = f.dims(p);
            let s = f.format.chroma;
            let x0 = shrunk(2 * x, s.shift_x());
            let y0 = shrunk(2 * y, s.shift_y());
            let x1 = clamped(shrunk(2 * x + 1, s.shift_x()), w);
            let y1 = clamped(shrunk(2 * y + 1, s.shift_y()), h);
            assert((f.at)(p, x0, y0) < pow2(d as nat) && (f.at)(p, x1, y0) < pow2(d as nat) && (f.at)(
                p,
                x0,
                y1,
            ) < pow2(d as nat) && (f.at)(p, x1, y1) < pow2(d as nat));
        }
        lemma_to_8_bits(m, d);
        assert(near_8_bits(m, d, (f.reduced().at)(p, x, y) as int));
    }
}

/// The four samples that an average is of.
spec fn box_samples(f: Picture, p: int, x: int, y: int) -> (u16, u16, u16, u16) {
    let c = f.format.chroma;
    let (w, h) = f.dims(p);
    let x0 = shrunk(2 * x, c.shift_x());
    let y0 = shrunk(2 * y, c.shift_y());
    let x1 = clamped(shrunk(2 * x + 1, c.shift_x()), w);
    let y1 = clamped(shrunk(2 * y + 1, c.shift_y()), h);
    ((f.at)(p, x0, y0), (f.at)(p, x1, y0), (f.at)(p, x0, y1), (f.at)(p, x1, y1))
}

/// The alpha auxiliary is made exactly of a frame with an alpha plane, as a picture of the
/// size of the frame whose luma is the opacity of the frame: sample for sample where
/// AV1 codes up to 12 bits, else in 8 bits; in full range, with parameter sets of its own.
#[verifier::rlimit(40)]
pub proof fn law_alpha_job(f: FrameModel, opts: EncodeOptions, x: int, y: int)
    requires
        f.wf(),
        f.width <= 0x4000_0000,
        f.height <= 0x4000_0000,
        8 <= f.format.bit_depth <= 16,
        inside(f.picture(), x, y),
        forall|p: int, u: int, v: int|
            #[trigger] (f.picture().at)(p, u, v) < pow2(f.format.bit_depth as nat),
    ensures
        !f.format.has_alpha ==> alpha_of(f, opts) == Ok::<Option<JobModel>, ErrorKind>(None),
        f.format.has_alpha && alpha_of(f, opts) is Ok ==> (alpha_of(f, opts) matches Ok(Some(j)) && {
            let keep = opts.codec == StillCodec::Av1 && f.format.bit_depth <= 12;
            let v = (j.picture.at)(0, x, y) as int;
            &&& j.size == (f.width, f.height)
            &&& j.colr matches ColrModel::Nclx { full_range, .. } && full_range
            &&& j.parameter_sets == 1
            &&& keep ==> v == seen_opacity(f.picture(), x, y) && j.picture.format.bit_depth
                == f.format.bit_depth && j.picture.format.chroma == Chroma::Mono
            &&& !keep ==> near_8_bits(seen_opacity(f.picture(), x, y), f.format.bit_depth, v)
                && j.picture.format.bit_depth == 8 && j.picture.format.chroma == Chroma::Yuv420
        }),
{
    if f.format.has_alpha {
        let a = f.alpha_frame();
        let keep = opts.codec == StillCodec::Av1 && f.format.bit_depth <= 12;
        let q = coded_form(a, keep);
        crate::compose::pixel_laws::law_alpha_round_trip(f, x, y);
        assert((a.picture().at)(0, x, y) == seen_opacity(f.picture(), x, y));
        if let Ok(Some(j)) = alpha_of(f, opts) {
            law_job_shows(q, opts.codec, j.colr, 1, j);
            assert(q.format.has(q.width, q.height, 0, x, y));
            assert((j.picture.at)(0, x, y) == (q.at)(0, x, y));
            if !keep {
                assert(f.picture().format.has(f.width, f.height, f.format.chroma.planes(), x, y));
                assert(seen_opacity(f.picture(), x, y) == (f.picture().at)(
                    f.format.chroma.planes(),
                    x,
                    y,
                ));
                lemma_to_8_bits(seen_opacity(f.picture(), x, y), f.format.bit_depth);
                crate::compose::overlay::lemma_max(f.format.bit_depth);
                vstd::arithmetic::power2::lemma2_to64();
            }
        }
    }
}

/// The visible size of a coded picture: without a clean aperture exactly when it is the
/// coded size, else by an essential aperture that selects the upper left corner of
/// the picture in that size.
pub proof fn law_aperture(pic: CodedPictureModel, w: u32, h: u32)
    requires
        1 <= w <= pic.size.0 <= i32::MAX,
        1 <= h <= pic.size.1 <= i32::MAX,
    ensures
        pic.size == (w, h) <==> aperture(pic, w, h).len() == 0,
        pic.size != (w, h) ==> aperture(pic, w, h).len() == 1 && aperture(pic, w, h)[0].1 && (aperture(
            pic,
            w,
            h,
        )[0].0 matches PropertyModel::Clap(c) && c.rect(pic.size.0, pic.size.1) == Ok::<
            CropRect,
            ErrorKind,
        >((CropRect { x: 0, y: 0, width: w, height: h }))),
{
    if pic.size != (w, h) {
        law_resolve_inverts_for_rect(
            pic.size.0,
            pic.size.1,
            CropRect { x: 0, y: 0, width: w, height: h },
        );
    }
}

/// The colour properties of an item conform to what is asked of colour information; CICP is
/// written as it is without a profile, and beside one with its matrix and range.
pub proof fn law_written_colours(colr: ColrModel, icc: Option<Seq<u8>>)
    requires
        colr is Nclx,
    ensures
        ({
            let v = colour_props(colr, icc);
            &&& icc is None ==> v == seq![(PropertyModel::Colr(colr), false)]
            &&& icc matches Some(b) ==> v.len() == 2 && (v[0].0 matches PropertyModel::Colr(
                ColrModel::Nclx { primaries, transfer, matrix, full_range },
            ) && primaries == 2 && transfer == 2 && matrix == colr->matrix && full_range
                == colr->full_range) && v[1].0 == PropertyModel::Colr(
                ColrModel::Icc { restricted: false, profile: b },
            )
        }),
{
}

/// A picture is cut into tiles exactly when tiles were asked for and an edge of the
/// picture is longer than one. The edge of a tile is then the one asked for, at least 64
/// pixels, brought up to whole pairs of blocks: a multiple of 32 for HEVC and of 16 for AV1.
pub proof fn law_tile_edge(c: Picture, opts: EncodeOptions)
    ensures
        tile_edge(c, opts) is Some <==> (opts.grid_tile matches Some(t) && t > 0 && (c.width > t
            || c.height > t)),
        tile_edge(c, opts) matches Some(e) ==> {
            let t = opts.grid_tile->0 as int;
            let n: int = match opts.codec {
                StillCodec::Hevc => 32,
                StillCodec::Av1 => 16,
            };
            &&& e % n == 0
            &&& e >= 64 && e >= t
            &&& e < t + n || e == 64
        },
{
    if let Some(t) = opts.grid_tile {
        let v = if t > 64 {
            t as int
        } else {
            64
        };
        assert((v + 31) / 32 * 32 == 32 * ((v + 31) / 32));
        assert((v + 15) / 16 * 16 == 16 * ((v + 15) / 16));
    }
}

} // verus!
