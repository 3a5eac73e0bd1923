//! Pictures through the HEVC encoder: one frame in, one access unit out.
use crate::decode::CODEC_ID_HEVC;
use crate::encode::av1::{plane_samples, samples_of};
use crate::encode::items::{hevc_picture, hevc_picture_of};
use crate::encode::{option_texts, push_pair, CodedPicture, CodedPictureModel};
use crate::error::{view_outcome, ErrorKind, HeifError, Outcome, Result};
use crate::image::core_bridge::plane_models;
use crate::image::{Chroma, HeifFrame, HeifPlane, Picture, PlaneModel};
use crate::text::{decimal, decimal_chars};
use oxideav_core::{CodecParameters, Error as CoreError, Frame, VideoFrame, VideoPlane};
use vstd::prelude::*;

verus! {

/// What the encoder hands out for one frame.
#[verifier::ext_equal]
pub struct Emitted {
    /// The data of its packets, in order.
    pub packets: Seq<Seq<u8>>,
    /// Whether it had no more to give when it stopped.
    pub ended: bool,
}

/// The model of what the encoder handed out.
pub open spec fn emitted(packets: Seq<Vec<u8>>, ended: bool) -> Emitted {
    Emitted { packets: Seq::new(packets.len(), |i: int| packets[i]@), ended }
}

/// Whether the encoder of `oxideav_h265::make_encoder` may hand this out for one
/// 4:2:0 frame, for its options and the picture size; `None` when no encoder is
/// made for them.
pub uninterp spec fn hevc_may_emit(
    options: Seq<(Seq<char>, Seq<char>)>,
    size: (u32, u32),
    planes: Seq<PlaneModel>,
    e: Option<Emitted>,
) -> bool;

/// Whether planes are those of a 4:2:0 picture of the given size, row after row.
pub open spec fn tight_420(planes: Seq<PlaneModel>, width: u32, height: u32) -> bool {
    forall|p: int|
        0 <= p < planes.len() ==> ({
            let half = p == 1 || p == 2;
            let w = if half {
                (width + 1) / 2
            } else {
                width as int
            };
            let h = if half {
                (height + 1) / 2
            } else {
                height as int
            };
            (#[trigger] planes[p]).stride == w && planes[p].data.len() == w * h
        })
}

/// `oxideav_h265::make_encoder` for pictures of the given size with the given
/// options, of which a later one replaces an earlier one of the same name, and
/// what its encoder hands out for one frame: its packets one by one, and whether
/// it had no more to give when it stopped rather than failed. No pixel format
/// is named, which means 8-bit 4:2:0. It is one of the answers that may come for
/// the options, the size and the planes: the encoder weighs its choices with a
/// floating-point power, whose last bits may differ from machine to machine.
/// The planes come row after row: the encoder multiplies their strides unchecked.
#[verifier::external_body]
fn hevc_packets(
    options: &Vec<(String, String)>,
    width: u32,
    height: u32,
    planes: Vec<HeifPlane>,
) -> (r: core::result::Result<(Vec<Vec<u8>>, bool), oxideav_core::Error>)
    requires
        tight_420(plane_models(planes@), width, height),
    ensures
        match r {
            Ok(x) => hevc_may_emit(
                option_texts(options@),
                (width, height),
                plane_models(planes@),
                Some(emitted(x.0@, x.1)),
            ),
            Err(_) => hevc_may_emit(
                option_texts(options@),
                (width, height),
                plane_models(planes@),
                None,
            ),
        },
{
    let mut params = CodecParameters::video(CODEC_ID_HEVC.into());
    params.width = Some(width);
    params.height = Some(height);
    for (k, v) in options {
        params.options.insert(k, v);
    }
    let mut enc = oxideav_h265::make_encoder(&params)?;
    let mut last = enc.send_frame(&Frame::Video(VideoFrame { pts: Some(0), planes: planes.into_iter()
        .map(|HeifPlane { stride, data }| VideoPlane { stride, data }).collect() }))
        .and_then(|_| enc.flush());
    let mut packets = Vec::new();
    while last.is_ok() {
        last = enc.receive_packet().map(|p| packets.push(p.data));
    }
    Ok((packets, matches!(last, Err(CoreError::NeedMore | CoreError::Eof))))
}

/// The first `n` packets one after the other.
pub open spec fn joined(packets: Seq<Seq<u8>>, n: int) -> Seq<u8>
    decreases n,
{
    if 0 < n <= packets.len() {
        joined(packets, n - 1) + packets[n - 1]
    } else {
        Seq::empty()
    }
}

/// The planes of an 8-bit picture, row after row.
pub open spec fn tight_planes(f: Picture) -> Seq<PlaneModel> {
    Seq::new(
        f.format.planes() as nat,
        |p: int|
            PlaneModel {
                stride: f.dims(p).0 as usize,
                data: plane_samples(f, p).map_values(|v: u16| v as u8),
            },
    )
}

/// The item of what the encoder handed out: its packets joined to one access
/// unit. An encoder that failed has none.
pub open spec fn emitted_picture(e: Emitted) -> Outcome<CodedPictureModel> {
    if e.ended {
        hevc_picture_of(joined(e.packets, e.packets.len() as int))
    } else {
        Err(ErrorKind::Invalid)
    }
}

/// The item of an answer of the encoder.
pub open spec fn answered(e: Option<Emitted>) -> Outcome<CodedPictureModel> {
    match e {
        None => Err(ErrorKind::Unsupported),
        Some(x) => emitted_picture(x),
    }
}

/// Whether `out` is the item of an 8-bit 4:2:0 picture coded with the given options;
/// others are refused (see [`crate::encode::to_yuv420_8`]).
pub open spec fn hevc_codes(
    f: Picture,
    options: Seq<(Seq<char>, Seq<char>)>,
    out: Outcome<CodedPictureModel>,
) -> bool {
    if f.format.chroma != Chroma::Yuv420 || f.format.bit_depth != 8 {
        out == Err::<CodedPictureModel, ErrorKind>(ErrorKind::Unsupported)
    } else {
        exists|e: Option<Emitted>|
            {
                &&& #[trigger] hevc_may_emit(options, (f.width, f.height), tight_planes(f), e)
                &&& out == answered(e)
            }
    }
}

/// The model of an answer of the encoder.
pub open spec fn answer_of(
    r: core::result::Result<(Vec<Vec<u8>>, bool), oxideav_core::Error>,
) -> Option<Emitted> {
    match r {
        Ok(x) => Some(emitted(x.0@, x.1)),
        Err(_) => None,
    }
}

fn byte_plane(f: &HeifFrame, p: usize) -> (r: HeifPlane)
    requires
        f@.wf(),
        p < f.format.planes(),
    ensures
        r@ == tight_planes(f@.picture())[p as int],
{
    let ghost pic = f@.picture();
    let (w, _) = f.plane_dims(p);
    let samples: Vec<u16> = samples_of(f, p);
    let ghost all = plane_samples(pic, p as int).map_values(|v: u16| v as u8);
    let mut data: Vec<u8> = Vec::new();
    for i in 0..samples.len()
        invariant
            samples@ == plane_samples(pic, p as int),
            all == plane_samples(pic, p as int).map_values(|v: u16| v as u8),
            data@ == all.take(i as int),
    {
        data.push(samples[i] as u8);
        assert(data@ =~= all.take(i + 1));
    }
    assert(data@ =~= all);
    HeifPlane { stride: w as usize, data }
}

/// The coded picture of what the encoder handed out.
pub fn picture_of_packets(packets: &[Vec<u8>], ended: bool) -> (r: Result<CodedPicture>)
    ensures
        view_outcome(r) == emitted_picture(emitted(packets@, ended)),
{
    if !ended {
        return Err(HeifError::invalid("HEVC encoder failed"));
    }
    let ghost all = emitted(packets@, ended).packets;
    let mut stream: Vec<u8> = Vec::new();
    for i in 0..packets.len()
        invariant
            all == emitted(packets@, ended).packets,
            stream@ == joined(all, i as int),
    {
        assert(all[i as int] == packets@[i as int]@);
        stream.extend_from_slice(packets[i].as_slice());
    }
    hevc_picture(stream.as_slice())
}

/// Code a picture with the given encoder options.
pub(crate) fn encode_hevc(frame: &HeifFrame, options: &Vec<(String, String)>) -> (r: Result<
    CodedPicture,
>)
    requires
        frame@.wf(),
    ensures
        hevc_codes(frame@.picture(), option_texts(options@), view_outcome(r)),
{
    let ghost pic = frame@.picture();
    if frame.format.chroma != Chroma::Yuv420 || frame.format.bit_depth != 8 {
        return Err(HeifError::unsupported("HEVC item encoding takes 8-bit 4:2:0 input"));
    }
    let n: usize = frame.format.plane_count();
    let mut planes: Vec<HeifPlane> = Vec::new();
    for p in 0..n
        invariant
            frame@.wf(),
            pic == frame@.picture(),
            n == frame.format.planes(),
            plane_models(planes@) == tight_planes(pic).take(p as int),
    {
        let ghost before = plane_models(planes@);
        let plane: HeifPlane = byte_plane(frame, p);
        planes.push(plane);
        assert(plane_models(planes@) =~= before.push(plane@));
        assert(before.push(plane@) =~= tight_planes(pic).take(p + 1));
    }
    assert(plane_models(planes@) =~= tight_planes(pic));
    assert(tight_420(tight_planes(pic), frame.width, frame.height)) by {
        assert forall|p: int| 0 <= p < tight_planes(pic).len() implies (#[trigger] tight_planes(
            pic,
        )[p]).stride == pic.dims(p).0 && tight_planes(pic)[p].data.len() == pic.dims(p).0
            * pic.dims(p).1 by {}
    }
    let answer: core::result::Result<(Vec<Vec<u8>>, bool), oxideav_core::Error> = hevc_packets(
        options,
        frame.width,
        frame.height,
        planes,
    );
    let ghost e = answer_of(answer);
    let r: Result<CodedPicture> = match answer {
        Err(_) => Err(HeifError::unsupported("HEVC encoder refused its options")),
        Ok(x) => picture_of_packets(x.0.as_slice(), x.1),
    };
    proof {
        assert(hevc_may_emit(
            option_texts(options@),
            (pic.width, pic.height),
            tight_planes(pic),
            e,
        ));
        assert(view_outcome(r) == answered(e));
    }
    r
}

/// The texts of a list of codec options.
pub open spec fn extra_texts(v: Seq<(&str, &str)>) -> Seq<(Seq<char>, Seq<char>)> {
    Seq::new(v.len(), |i: int| (v[i].0@, v[i].1@))
}

/// The options of the encoder: the coding mode and the quantiser first.
pub open spec fn coding_options(mode: Seq<char>, qp: u8, extra: Seq<(Seq<char>, Seq<char>)>) -> Seq<
    (Seq<char>, Seq<char>),
> {
    seq![("mode"@, mode), ("qp"@, decimal_chars(qp as nat))] + extra
}

/// [`encode_hevc_picture`] with extra codec options (`ctb`, `vpsid`,
/// …) passed through to the HEVC encoder.
pub fn encode_hevc_picture_with(
    frame: &HeifFrame,
    mode: &str,
    qp: u8,
    extra: &[(&str, &str)],
) -> (r: Result<CodedPicture>)
    requires
        frame@.wf(),
    ensures
        hevc_codes(
            frame@.picture(),
            coding_options(mode@, qp, extra_texts(extra@)),
            view_outcome(r),
        ),
{
    let mut options: Vec<(String, String)> = Vec::new();
    assert(option_texts(options@) =~= Seq::empty());
    push_pair(&mut options, "mode", mode);
    let q: String = decimal(qp as u64);
    push_pair(&mut options, "qp", q.as_str());
    let ghost head = option_texts(options@);
    for i in 0..extra.len()
        invariant
            option_texts(options@) == head + extra_texts(extra@).take(i as int),
    {
        let ghost before = option_texts(options@);
        let e: (&str, &str) = extra[i];
        push_pair(&mut options, e.0, e.1);
        assert(option_texts(options@) =~= head + extra_texts(extra@).take(i + 1));
    }
    assert(option_texts(options@) =~= coding_options(mode@, qp, extra_texts(extra@)));
    encode_hevc(frame, &options)
}

/// Encode one 8-bit 4:2:0 picture as an HEVC item, in the given coding mode
/// and with the given quantiser.
pub fn encode_hevc_picture(frame: &HeifFrame, mode: &str, qp: u8) -> (r: Result<CodedPicture>)
    requires
        frame@.wf(),
    ensures
        hevc_codes(
            frame@.picture(),
            coding_options(mode@, qp, Seq::empty()),
            view_outcome(r),
        ),
{
    let none: [(&str, &str); 0] = [];
    assert(extra_texts(none@) =~= Seq::empty());
    encode_hevc_picture_with(frame, mode, qp, &none)
}

} // verus!
