//! AV1 still items: one picture at its own (depth, chroma) pairing, coded with
//! a reduced still-picture header.
use crate::av1c::{av1_config_of, Av1Config};
use crate::decode::{av1_layout, av1_layout_of};
use crate::encode::{CodedPicture, CodedPictureModel, EncodeOptions};
use crate::error::{view_outcome, ErrorKind, HeifError, Outcome, Result};
use crate::image::{Chroma, FrameModel, HeifFrame, HeifPixelFormat, Picture};
use crate::meta::ITEM_TYPE_AV01;
use crate::props::{Colr, ColrModel, Property, PropertyModel};
use crate::text::same_text;
use oxideav_av1::encoder::{encode_still_yuv, ChromaFormat, StillOptions, StillSpeed, YuvFrame};
use vstd::prelude::*;

verus! {

/// A refusal of the AV1 still encoder.
#[verifier::external_type_specification]
#[verifier::external_body]
pub struct ExAv1Error(oxideav_av1::Error);

/// Search effort of the AV1 encoder.
#[derive(Clone, Copy, Debug, PartialEq, Eq, Structural)]
pub enum Speed {
    /// The shortest search.
    Fast,
    /// In between.
    Balanced,
    /// The longest search.
    Thorough,
}

/// What the AV1 still encoder is handed: the planes, row by row, and how they
/// are coded.
#[derive(Debug)]
pub struct StillRequest {
    /// Width in pixels.
    pub width: u32,
    /// Height in pixels.
    pub height: u32,
    /// Bits per sample.
    pub bit_depth: u8,
    /// Chroma layout.
    pub chroma: Chroma,
    /// Luma samples.
    pub y: Vec<u16>,
    /// Cb samples, none for a monochrome picture.
    pub u: Vec<u16>,
    /// Cr samples, none for a monochrome picture.
    pub v: Vec<u16>,
    /// Quality, 100 for lossless.
    pub quality: u8,
    /// Search effort.
    pub speed: Speed,
    /// Whether the samples use the full range.
    pub full_range: bool,
    /// H.273 primaries, transfer and matrix, when known.
    pub color_description: Option<(u8, u8, u8)>,
    /// Whether the sequence header is the reduced one of a still picture.
    pub reduced_header: bool,
}

/// Model of [`StillRequest`].
#[verifier::ext_equal]
pub struct StillRequestModel {
    /// Width in pixels.
    pub width: u32,
    /// Height in pixels.
    pub height: u32,
    /// Bits per sample.
    pub bit_depth: u8,
    /// Chroma layout.
    pub chroma: Chroma,
    /// Luma samples.
    pub y: Seq<u16>,
    /// Cb samples.
    pub u: Seq<u16>,
    /// Cr samples.
    pub v: Seq<u16>,
    /// Quality.
    pub quality: u8,
    /// Search effort.
    pub speed: Speed,
    /// Whether the samples use the full range.
    pub full_range: bool,
    /// H.273 primaries, transfer and matrix.
    pub color_description: Option<(u8, u8, u8)>,
    /// Whether the sequence header is the reduced one.
    pub reduced_header: bool,
}

impl View for StillRequest {
    type V = StillRequestModel;

    open spec fn view(&self) -> StillRequestModel {
        StillRequestModel {
            width: self.width,
            height: self.height,
            bit_depth: self.bit_depth,
            chroma: self.chroma,
            y: self.y@,
            u: self.u@,
            v: self.v@,
            quality: self.quality,
            speed: self.speed,
            full_range: self.full_range,
            color_description: self.color_description,
            reduced_header: self.reduced_header,
        }
    }
}

/// The `av1C` record and the temporal unit
/// `oxideav_av1::encoder::encode_still_yuv` makes of a picture, `None` when it
/// refuses the picture.
pub uninterp spec fn av1_still_of(r: StillRequestModel) -> Option<(Seq<u8>, Seq<u8>)>;

/// Whether `oxideav_av1::encoder::encode_still_yuv` may make this of a picture whose
/// blocks it weighs by their activity.
pub uninterp spec fn av1_may_make(
    r: StillRequestModel,
    out: Option<(Seq<u8>, Seq<u8>)>,
) -> bool;

impl StillRequestModel {
    /// Whether the encoder weighs the blocks of the picture by their activity: the
    /// longest search of a picture that is not lossless does.
    pub open spec fn weighs_activity(self) -> bool {
        self.speed == Speed::Thorough && self.quality < 100
    }
}

/// Whether the encoder makes `out` of a picture.
pub open spec fn av1_makes(r: StillRequestModel, out: Option<(Seq<u8>, Seq<u8>)>) -> bool {
    if r.weighs_activity() {
        av1_may_make(r, out)
    } else {
        out == av1_still_of(r)
    }
}

/// `oxideav_av1::encoder::encode_still_yuv` with the options of
/// `StillOptions::from_quality` and those of the request, on one thread: the
/// bytes of the `av1C` record and the temporal unit, or a refusal. It depends on
/// the request alone, except where blocks are weighed by their activity: a
/// floating-point logarithm is rounded there, whose last bits may differ from
/// machine to machine, and the answer is one of those that may come.
#[verifier::external_body]
fn encode_still_av1(r: StillRequest) -> (res: core::result::Result<
    (Vec<u8>, Vec<u8>),
    oxideav_av1::Error,
>)
    ensures
        match res {
            Ok(s) => if r@.weighs_activity() {
                av1_may_make(r@, Some((s.0@, s.1@)))
            } else {
                av1_still_of(r@) == Some((s.0@, s.1@))
            },
            Err(_) => if r@.weighs_activity() {
                av1_may_make(r@, None)
            } else {
                av1_still_of(r@) is None
            },
        },
{
    let StillRequest { width, height, bit_depth, chroma, y, u, v, quality, speed, full_range, color_description, reduced_header } = r;
    let format = match chroma {
        Chroma::Mono => ChromaFormat::Monochrome,
        Chroma::Yuv420 => ChromaFormat::Yuv420,
        Chroma::Yuv422 => ChromaFormat::Yuv422,
        Chroma::Yuv444 => ChromaFormat::Yuv444,
    };
    let speed = match speed {
        Speed::Fast => StillSpeed::Fast,
        Speed::Balanced => StillSpeed::Balanced,
        Speed::Thorough => StillSpeed::Thorough,
    };
    let o = StillOptions { speed, full_range, color_description, reduced_header, ..StillOptions::from_quality(quality) };
    let s = encode_still_yuv(&YuvFrame { width, height, bit_depth, format, y, u, v }, &o)?;
    Ok((s.codec_config.to_bytes(), s.temporal_unit_bytes))
}

/// The samples of plane `p`, row by row.
pub open spec fn plane_samples(f: Picture, p: int) -> Seq<u16> {
    let (w, h) = f.dims(p);
    Seq::new((w * h) as nat, |i: int| (f.at)(p, i % (w as int), i / (w as int)))
}

/// The colour description and the range an encoder signals.
pub open spec fn signalled(c: ColrModel) -> (bool, Option<(u8, u8, u8)>) {
    match c {
        ColrModel::Nclx { primaries, transfer, matrix, full_range } => (
            full_range,
            Some(((primaries % 256) as u8, (transfer % 256) as u8, (matrix % 256) as u8)),
        ),
        _ => (true, None),
    }
}

/// The quality a picture is coded at: 100, the lossless one, unless a lower one
/// is set.
pub open spec fn coded_quality(q: Option<u8>) -> u8 {
    match q {
        Some(v) => if v < 100 {
            v
        } else {
            100
        },
        None => 100,
    }
}

/// The search effort a text names.
pub open spec fn named_speed(t: Seq<char>) -> Speed {
    if t == "balanced"@ {
        Speed::Balanced
    } else if t == "thorough"@ {
        Speed::Thorough
    } else {
        Speed::Fast
    }
}

/// What the encoder is handed for a picture without alpha.
pub open spec fn request_of(f: Picture, opts: EncodeOptions) -> StillRequestModel {
    let mono = f.format.chroma == Chroma::Mono;
    StillRequestModel {
        width: f.width,
        height: f.height,
        bit_depth: f.format.bit_depth,
        chroma: f.format.chroma,
        y: plane_samples(f, 0),
        u: if mono {
            Seq::empty()
        } else {
            plane_samples(f, 1)
        },
        v: if mono {
            Seq::empty()
        } else {
            plane_samples(f, 2)
        },
        quality: coded_quality(opts.av1_quality),
        speed: named_speed(opts.av1_speed@),
        full_range: signalled(opts.colr@).0,
        color_description: signalled(opts.colr@).1,
        reduced_header: true,
    }
}

/// The samples of a plane, row after row.
pub(crate) fn samples_of(f: &HeifFrame, p: usize) -> (r: Vec<u16>)
    requires
        f@.wf(),
        p < f.format.planes(),
    ensures
        r@ == plane_samples(f@.picture(), p as int),
{
    let ghost pic = f@.picture();
    let (w, h): (u32, u32) = f.plane_dims(p);
    let mut out: Vec<u16> = Vec::new();
    for y in 0..h
        invariant
            f@.wf(),
            p < f.format.planes(),
            pic == f@.picture(),
            (w, h) == pic.dims(p as int),
            w > 0,
            out@.len() == y * w,
            forall|i: int|
                0 <= i < out@.len() ==> #[trigger] out@[i] == (pic.at)(
                    p as int,
                    i % (w as int),
                    i / (w as int),
                ),
    {
        for x in 0..w
            invariant
                f@.wf(),
                p < f.format.planes(),
                pic == f@.picture(),
                (w, h) == pic.dims(p as int),
                y < h,
                w > 0,
                out@.len() == y * w + x,
                forall|i: int|
                    0 <= i < out@.len() ==> #[trigger] out@[i] == (pic.at)(
                        p as int,
                        i % (w as int),
                        i / (w as int),
                    ),
        {
            proof {
                crate::compose::lemma_reads(f@, p as int, x as int, y as int);
                let i = y * w + x;
                vstd::arithmetic::div_mod::lemma_fundamental_div_mod_converse(
                    i,
                    w as int,
                    y as int,
                    x as int,
                );
            }
            out.push(f.sample(p, x, y));
        }
        proof {
            assert(y * w + w == (y + 1) * w) by (nonlinear_arith);
        }
    }
    proof {
        assert(h * w == w * h) by (nonlinear_arith);
        assert(out@ =~= plane_samples(pic, p as int));
    }
    out
}

/// The request for a frame without alpha.
fn still_request(f: &HeifFrame, opts: &EncodeOptions) -> (r: StillRequest)
    requires
        f@.wf(),
        !f.format.has_alpha,
    ensures
        r@ == request_of(f@.picture(), *opts),
{
    let (full_range, color_description): (bool, Option<(u8, u8, u8)>) = match &opts.colr {
        Colr::Nclx { primaries, transfer, matrix, full_range } => (
            *full_range,
            Some(((*primaries % 256) as u8, (*transfer % 256) as u8, (*matrix % 256) as u8)),
        ),
        _ => (true, None),
    };
    let (u, v): (Vec<u16>, Vec<u16>) = if f.format.chroma == Chroma::Mono {
        (Vec::new(), Vec::new())
    } else {
        (samples_of(f, 1), samples_of(f, 2))
    };
    let quality: u8 = match opts.av1_quality {
        Some(q) => if q < 100 {
            q
        } else {
            100
        },
        None => 100,
    };
    let speed: Speed = if same_text(opts.av1_speed.as_str(), "balanced") {
        Speed::Balanced
    } else if same_text(opts.av1_speed.as_str(), "thorough") {
        Speed::Thorough
    } else {
        Speed::Fast
    };
    let r: StillRequest = StillRequest {
        width: f.width,
        height: f.height,
        bit_depth: f.format.bit_depth,
        chroma: f.format.chroma,
        y: samples_of(f, 0),
        u,
        v,
        quality,
        speed,
        full_range,
        color_description,
        reduced_header: true,
    };
    assert(r@ =~= request_of(f@.picture(), *opts));
    r
}

/// The item of a coded AV1 picture, from its record and its temporal unit.
pub open spec fn av1_item_of(record: Seq<u8>, unit: Seq<u8>, size: (u32, u32)) -> Outcome<
    CodedPictureModel,
> {
    match av1_config_of(record) {
        Err(e) => Err(e),
        Ok(c) => match av1_layout_of(c) {
            Err(e) => Err(e),
            Ok(layout) => Ok(
                CodedPictureModel {
                    item_type: ITEM_TYPE_AV01,
                    data: unit,
                    config: PropertyModel::Av1C(c),
                    size,
                    layout,
                },
            ),
        },
    }
}

/// The item of a coded AV1 picture, from its record and its temporal unit.
pub fn av1_item(record: &[u8], unit: Vec<u8>, width: u32, height: u32) -> (r: Result<CodedPicture>)
    ensures
        view_outcome(r) == av1_item_of(record@, unit@, (width, height)),
{
    let cfg: Av1Config = Av1Config::parse(record)?;
    let layout: HeifPixelFormat = av1_layout(&cfg)?;
    Ok(
        CodedPicture {
            item_type: ITEM_TYPE_AV01,
            data: unit,
            config: Property::Av1C(cfg),
            coded_width: width,
            coded_height: height,
            layout,
        },
    )
}

/// The item of what the encoder made of a picture of the given size.
pub open spec fn made_item(out: Option<(Seq<u8>, Seq<u8>)>, size: (u32, u32)) -> Outcome<
    CodedPictureModel,
> {
    match out {
        None => Err(ErrorKind::Unsupported),
        Some((record, unit)) => av1_item_of(record, unit, size),
    }
}

/// Whether `out` is the item of a picture.
pub open spec fn av1_codes(
    f: Picture,
    opts: EncodeOptions,
    out: Outcome<CodedPictureModel>,
) -> bool {
    let d = f.format.bit_depth;
    if d != 8 && d != 10 && d != 12 {
        out == Err::<CodedPictureModel, ErrorKind>(ErrorKind::Unsupported)
    } else {
        exists|o: Option<(Seq<u8>, Seq<u8>)>|
            {
                &&& #[trigger] av1_makes(request_of(f, opts), o)
                &&& out == made_item(o, (f.width, f.height))
            }
    }
}

/// What contracts say of an answer of the encoder.
pub open spec fn made(r: core::result::Result<(Vec<u8>, Vec<u8>), oxideav_av1::Error>) -> Option<
    (Seq<u8>, Seq<u8>),
> {
    match r {
        Ok(s) => Some((s.0@, s.1@)),
        Err(_) => None,
    }
}

/// The colour planes of a frame are a frame.
pub(crate) proof fn lemma_colour_only(f: FrameModel)
    requires
        f.wf(),
    ensures
        f.colour_only().wf(),
{
    let c = f.colour_only();
    assert forall|p: int| 0 <= p < c.planes.len() implies (#[trigger] c.planes[p]).holds(
        c.dims(p).0 * c.format.bps(),
        c.dims(p).1 as int,
    ) by {
        assert(c.planes[p] == f.planes[p]);
    }
}

/// The colour planes of a frame make the same request as the frame.
proof fn lemma_colour_request(f: FrameModel, opts: EncodeOptions)
    requires
        f.wf(),
    ensures
        request_of(f.colour_only().picture(), opts) == request_of(f.picture(), opts),
{
    let c = f.colour_only();
    assert forall|p: int| 0 <= p < f.format.chroma.planes() implies #[trigger] plane_samples(
        c.picture(),
        p,
    ) == plane_samples(f.picture(), p) by {
        assert(c.planes[p] == f.planes[p]);
        assert(plane_samples(c.picture(), p) =~= plane_samples(f.picture(), p));
    }
    assert(plane_samples(c.picture(), 0) == plane_samples(f.picture(), 0));
    if f.format.chroma != Chroma::Mono {
        assert(plane_samples(c.picture(), 1) == plane_samples(f.picture(), 1));
        assert(plane_samples(c.picture(), 2) == plane_samples(f.picture(), 2));
    }
}

/// Encode one picture as an AV1 still item (`reduced_still_picture_header`)
/// at its own (depth, chroma) pairing — 8 / 10 / 12-bit, 4:0:0 /
/// 4:2:0 / 4:2:2 / 4:4:4 — lossless when `opts.av1_quality` is `None`
/// or 100, else at that quality. Dimensions must be multiples of 8.
pub fn encode_av1_picture(frame: &HeifFrame, opts: &EncodeOptions) -> (r: Result<CodedPicture>)
    requires
        frame@.wf(),
    ensures
        av1_codes(frame@.picture(), *opts, view_outcome(r)),
{
    let d: u8 = frame.format.bit_depth;
    if d != 8 && d != 10 && d != 12 {
        return Err(HeifError::unsupported("AV1 items code 8 / 10 / 12-bit pictures"));
    }
    proof {
        lemma_colour_only(frame@);
    }
    let t: HeifFrame = frame.without_alpha();
    proof {
        lemma_colour_request(frame@, *opts);
    }
    let answer: core::result::Result<(Vec<u8>, Vec<u8>), oxideav_av1::Error> = encode_still_av1(
        still_request(&t, opts),
    );
    let ghost o = made(answer);
    let r: Result<CodedPicture> = match answer {
        Err(_) => Err(HeifError::unsupported("AV1 still encoder")),
        Ok(s) => {
            let (record, unit): (Vec<u8>, Vec<u8>) = s;
            av1_item(record.as_slice(), unit, frame.width, frame.height)
        },
    };
    proof {
        assert(av1_makes(request_of(frame@.picture(), *opts), o));
        assert(view_outcome(r) == made_item(o, (frame.width, frame.height)));
    }
    r
}

} // verus!
