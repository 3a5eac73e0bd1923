//! Coded items through the codecs: one packet in, one picture out.
use crate::compose::pictured;
use crate::decode::session::{output_of, step_of, Progress, Session, SessionModel, Step};
use crate::decode::{
    frame_from_planes, lacks, parameters_of, payload_of, planes_picture, CodedParameters,
    ItemDecoder, ParametersModel, CODEC_ID_AV1, CODEC_ID_AVC, CODEC_ID_HEVC, MAX_ITEM_DECODES,
};
use crate::derived::{ImageNode, NodeModel};
use crate::error::{ErrorKind, HeifError, Outcome, Result};
use crate::file::{FileModel, HeifFile};
use crate::image::core_bridge::plane_models;
use crate::image::{HeifFrame, HeifPixelFormat, HeifPlane, Picture, PlaneModel};
use crate::text::same_text;
use oxideav_core::{CodecParameters, Error as CoreError, Frame, Packet, TimeBase};
use vstd::prelude::*;

verus! {

/// A refusal of a codec.
#[verifier::external_type_specification]
#[verifier::external_body]
pub struct ExCoreError(oxideav_core::Error);

/// What a decoder hands out for one packet.
#[verifier::ext_equal]
pub struct HandedOut {
    /// Its frames: the planes of a picture, or a frame that is no picture.
    pub frames: Seq<Option<Seq<PlaneModel>>>,
    /// Whether it had no more to give when it stopped.
    pub ended: bool,
}

/// The model of what a decoder handed out.
pub open spec fn handed_out(frames: Seq<Option<Vec<HeifPlane>>>, ended: bool) -> HandedOut {
    HandedOut {
        frames: Seq::new(
            frames.len(),
            |i: int|
                match frames[i] {
                    Some(p) => Some(plane_models(p@)),
                    None => None,
                },
        ),
        ended,
    }
}

/// What the decoder of `oxideav_h265::make_decoder` hands out for one packet, for a
/// configuration record; `None` when no decoder is made for the record.
pub uninterp spec fn hevc_frames_of(record: Seq<u8>, packet: Seq<u8>) -> Option<HandedOut>;

/// `oxideav_h265::make_decoder` with a configuration record, and what its decoder
/// hands out for one packet: its frames one by one, the pictures with their
/// planes, and whether it had no more to give when it stopped rather than
/// failed. All of it depends on the record and the packet alone.
/// That it does not panic on a malformed payload is the decoder's own promise.
#[verifier::external_body]
fn hevc_frames(record: Vec<u8>, data: Vec<u8>) -> (r: core::result::Result<
    (Vec<Option<Vec<HeifPlane>>>, bool),
    oxideav_core::Error,
>)
    ensures
        match r {
            Ok(x) => hevc_frames_of(record@, data@) == Some(handed_out(x.0@, x.1)),
            Err(_) => hevc_frames_of(record@, data@) is None,
        },
{
    let mut params = CodecParameters::video(CODEC_ID_HEVC.into());
    params.extradata = record;
    let mut dec = oxideav_h265::make_decoder(&params)?;
    let mut last = dec.send_packet(&Packet::new(0, TimeBase::new(1, 1), data).with_pts(0)).and_then(
        |_| dec.flush());
    let mut frames = Vec::new();
    while last.is_ok() {
        last = dec.receive_frame().map(|f| frames.push(match f {
            Frame::Video(v) => Some(v.image_planes().iter().map(
                |p| HeifPlane { stride: p.stride, data: p.data.clone() }).collect()),
            _ => None,
        }));
    }
    Ok((frames, matches!(last, Err(CoreError::NeedMore | CoreError::Eof))))
}

/// What the decoder of `oxideav_av1::registry::make_decoder` hands out for one packet, for a
/// configuration record; `None` when no decoder is made for the record.
pub uninterp spec fn av1_frames_of(record: Seq<u8>, packet: Seq<u8>) -> Option<HandedOut>;

/// `oxideav_av1::registry::make_decoder` with a configuration record, and what its decoder
/// hands out for one packet: its frames one by one, the pictures with their
/// planes, and whether it had no more to give when it stopped rather than
/// failed. All of it depends on the record and the packet alone.
/// That it does not panic on a malformed payload is the decoder's own promise.
#[verifier::external_body]
fn av1_frames(record: Vec<u8>, data: Vec<u8>) -> (r: core::result::Result<
    (Vec<Option<Vec<HeifPlane>>>, bool),
    oxideav_core::Error,
>)
    ensures
        match r {
            Ok(x) => av1_frames_of(record@, data@) == Some(handed_out(x.0@, x.1)),
            Err(_) => av1_frames_of(record@, data@) is None,
        },
{
    let mut params = CodecParameters::video(CODEC_ID_AV1.into());
    params.extradata = record;
    let mut dec = oxideav_av1::registry::make_decoder(&params)?;
    let mut last = dec.send_packet(&Packet::new(0, TimeBase::new(1, 1), data).with_pts(0)).and_then(
        |_| dec.flush());
    let mut frames = Vec::new();
    while last.is_ok() {
        last = dec.receive_frame().map(|f| frames.push(match f {
            Frame::Video(v) => Some(v.image_planes().iter().map(
                |p| HeifPlane { stride: p.stride, data: p.data.clone() }).collect()),
            _ => None,
        }));
    }
    Ok((frames, matches!(last, Err(CoreError::NeedMore | CoreError::Eof))))
}

/// Whether the decoder of `oxideav_h264::h264_decoder::make_decoder` may hand this out
/// for one packet and a configuration record; `None` when no decoder is made for the
/// record.
pub uninterp spec fn avc_may_hand_out(
    record: Seq<u8>,
    packet: Seq<u8>,
    h: Option<HandedOut>,
) -> bool;

/// `oxideav_h264::h264_decoder::make_decoder` with a configuration record, and what its decoder
/// hands out for one packet: its frames one by one, the pictures with their
/// planes, and whether it had no more to give when it stopped rather than
/// failed. It is one of the answers that may come for the record and the packet:
/// the decoder leaves out deblocking where the environment asks for that, so two
/// processes may get different samples.
/// That it does not panic on a malformed payload is the decoder's own promise.
#[verifier::external_body]
fn avc_frames(record: Vec<u8>, data: Vec<u8>) -> (r: core::result::Result<
    (Vec<Option<Vec<HeifPlane>>>, bool),
    oxideav_core::Error,
>)
    ensures
        match r {
            Ok(x) => avc_may_hand_out(record@, data@, Some(handed_out(x.0@, x.1))),
            Err(_) => avc_may_hand_out(record@, data@, None),
        },
{
    let mut params = CodecParameters::video(CODEC_ID_AVC.into());
    params.extradata = record;
    let mut dec = oxideav_h264::h264_decoder::make_decoder(&params)?;
    let mut last = dec.send_packet(&Packet::new(0, TimeBase::new(1, 1), data).with_pts(0)).and_then(
        |_| dec.flush());
    let mut frames = Vec::new();
    while last.is_ok() {
        last = dec.receive_frame().map(|f| frames.push(match f {
            Frame::Video(v) => Some(v.image_planes().iter().map(
                |p| HeifPlane { stride: p.stride, data: p.data.clone() }).collect()),
            _ => None,
        }));
    }
    Ok((frames, matches!(last, Err(CoreError::NeedMore | CoreError::Eof))))
}

/// The first picture among frames from `i` on.
pub open spec fn first_picture(frames: Seq<Option<Seq<PlaneModel>>>, i: int) -> Option<
    Seq<PlaneModel>,
>
    decreases frames.len() - i,
{
    if 0 <= i < frames.len() {
        match frames[i] {
            Some(p) => Some(p),
            None => first_picture(frames, i + 1),
        }
    } else {
        None
    }
}

/// The picture of what a decoder handed out: its first one, in the announced
/// layout and cropped to the announced size. A decoder that failed has none.
pub open spec fn decoded_picture(
    h: HandedOut,
    layout: HeifPixelFormat,
    size: Option<(u32, u32)>,
) -> Outcome<Picture> {
    if !h.ended {
        Err(ErrorKind::Invalid)
    } else {
        match first_picture(h.frames, 0) {
            None => Err(ErrorKind::Invalid),
            Some(planes) => planes_picture(planes, layout, size),
        }
    }
}

/// The picture of what a decoder handed out for an item.
pub fn picture_of_frames(
    frames: &[Option<Vec<HeifPlane>>],
    ended: bool,
    layout: HeifPixelFormat,
    ispe: Option<(u32, u32)>,
    item_id: u32,
) -> (r: Result<HeifFrame>)
    requires
        layout.wf(),
    ensures
        pictured(r) == decoded_picture(handed_out(frames@, ended), layout, ispe),
        r matches Ok(f) ==> f@.wf(),
{
    if !ended {
        return Err(lacks(item_id, "decode failed"));
    }
    let ghost all = handed_out(frames@, ended).frames;
    let ghost goal = first_picture(all, 0);
    for i in 0..frames.len()
        invariant
            ended,
            layout.wf(),
            all == handed_out(frames@, ended).frames,
            goal == first_picture(all, 0),
            goal == first_picture(all, i as int),
    {
        if let Some(p) = &frames[i] {
            assert(all[i as int] == Some(plane_models(p@)));
            return frame_from_planes(p.as_slice(), layout, ispe, item_id);
        }
    }
    Err(lacks(item_id, "decoder produced no picture"))
}

/// The model of an answer of a codec.
pub open spec fn answer_of(
    r: core::result::Result<(Vec<Option<Vec<HeifPlane>>>, bool), oxideav_core::Error>,
) -> Option<HandedOut> {
    match r {
        Ok(x) => Some(handed_out(x.0@, x.1)),
        Err(_) => None,
    }
}

/// Whether `h` is an answer of the codec with the given id: the one that the HEVC
/// and the AV1 decoder have, one of those that the AVC decoder may have.
pub open spec fn codec_gives(
    codec: Seq<char>,
    record: Seq<u8>,
    packet: Seq<u8>,
    h: Option<HandedOut>,
) -> bool {
    if codec == CODEC_ID_HEVC@ {
        h == hevc_frames_of(record, packet)
    } else if codec == CODEC_ID_AV1@ {
        h == av1_frames_of(record, packet)
    } else {
        avc_may_hand_out(record, packet, h)
    }
}

/// The picture of an answer of a codec.
pub open spec fn answered(
    h: Option<HandedOut>,
    layout: HeifPixelFormat,
    size: Option<(u32, u32)>,
) -> Outcome<Picture> {
    match h {
        None => Err(ErrorKind::Unsupported),
        Some(x) => decoded_picture(x, layout, size),
    }
}

/// Whether a coded item decodes to `out`, before its transformative properties.
pub open spec fn decodes_to(
    f: FileModel,
    n: NodeModel,
    decoder: ItemDecoder,
    out: Outcome<Picture>,
) -> bool {
    match parameters_of(n) {
        Err(e) => out == Err::<Picture, ErrorKind>(e),
        Ok(p) => match payload_of(f, n, decoder.base_layer) {
            Err(e) => out == Err::<Picture, ErrorKind>(e),
            Ok(data) => exists|h: Option<HandedOut>|
                {
                    &&& #[trigger] codec_gives(p.codec_id, p.extradata, data, h)
                    &&& out == answered(h, p.layout, p.size)
                },
        },
    }
}

impl ItemDecoder {
    /// Decode one coded item to its reconstructed picture (no
    /// transformative properties applied).
    pub fn decode_coded(&self, file: &HeifFile, node: &ImageNode) -> (r: Result<HeifFrame>)
        ensures
            decodes_to(file@, node@, *self, pictured(r)),
            r matches Ok(f) ==> f@.wf(),
    {
        let params: CodedParameters = ItemDecoder::codec_parameters(node)?;
        let data: Vec<u8> = self.payload(file, node)?;
        let ghost (p, packet) = (params@, data@);
        let answer: core::result::Result<
            (Vec<Option<Vec<HeifPlane>>>, bool),
            oxideav_core::Error,
        > = if same_text(params.codec_id, CODEC_ID_HEVC) {
            hevc_frames(params.extradata, data)
        } else if same_text(params.codec_id, CODEC_ID_AV1) {
            av1_frames(params.extradata, data)
        } else {
            avc_frames(params.extradata, data)
        };
        let ghost h = answer_of(answer);
        let r: Result<HeifFrame> = match answer {
            Err(_) => Err(HeifError::unsupported("no decoder for the item's configuration")),
            Ok(x) => picture_of_frames(
                x.0.as_slice(),
                x.1,
                params.layout,
                params.size,
                node.item.id,
            ),
        };
        proof {
            assert(parameters_of(node@) == Ok::<ParametersModel, ErrorKind>(p));
            assert(payload_of(file@, node@, self.base_layer) == Ok::<Seq<u8>, ErrorKind>(packet));
            assert(codec_gives(p.codec_id, p.extradata, packet, h));
            assert(pictured(r) == answered(h, p.layout, p.size));
        }
        r
    }
}

impl SessionModel {
    /// The session with one more decoded item.
    pub open spec fn with_picture(self, id: u32, p: Picture) -> SessionModel {
        SessionModel {
            pictures: self.pictures.insert(id, p),
            decodes: (self.decodes + 1) as usize,
            ..self
        }
    }
}

/// Whether an image gets as far as `out` when every coded item it needs is decoded
/// in turn: its output image or the gain map to apply, and the session then.
pub open spec fn runs(
    f: FileModel,
    n: NodeModel,
    s: SessionModel,
    out: Outcome<(Step<Picture>, SessionModel)>,
) -> bool
    decreases MAX_ITEM_DECODES - s.decodes,
{
    match output_of(n, s) {
        Err(e) => out == Err::<(Step<Picture>, SessionModel), ErrorKind>(e),
        Ok(Step::Decode(m)) => exists|x: Outcome<Picture>|
            {
                &&& #[trigger] decodes_to(f, m, s.decoder, x)
                &&& match x {
                    Err(e) => out == Err::<(Step<Picture>, SessionModel), ErrorKind>(e),
                    Ok(p) => if s.decodes >= MAX_ITEM_DECODES {
                        out == Err::<(Step<Picture>, SessionModel), ErrorKind>(ErrorKind::Exhausted)
                    } else {
                        runs(f, n, s.with_picture(m.item.id, p), out)
                    },
                }
            },
        Ok(other) => out == Ok::<(Step<Picture>, SessionModel), ErrorKind>((other, s)),
    }
}

impl Session {
    /// Decode every coded item a node needs, one by one, until its output image
    /// is composed or a gain map has to be applied first.
    pub fn run<'a>(&mut self, file: &HeifFile, node: &'a ImageNode) -> (r: Result<Progress<'a>>)
        requires
            old(self).wf(),
        ensures
            final(self).wf(),
            match r {
                Err(e) => runs(
                    file@,
                    node@,
                    old(self)@,
                    Err::<(Step<Picture>, SessionModel), ErrorKind>(e.kind()),
                ),
                Ok(p) => {
                    &&& step_of(r) matches Ok(s) && runs(
                        file@,
                        node@,
                        old(self)@,
                        Ok::<(Step<Picture>, SessionModel), ErrorKind>((s, final(self)@)),
                    )
                    &&& p matches Progress::Output(f) ==> f@.wf()
                    &&& !(p is Decode)
                },
            },
    {
        let ghost start = self@;
        loop
            invariant
                self.wf(),
                start == old(self)@,
                forall|out: Outcome<(Step<Picture>, SessionModel)>| #[trigger]
                    runs(file@, node@, self@, out) ==> runs(file@, node@, start, out),
            decreases MAX_ITEM_DECODES - self@.decodes,
        {
            let ghost before = self@;
            let progress: Result<Progress<'a>> = self.output(node);
            match progress {
                Err(e) => {
                    assert(runs(
                        file@,
                        node@,
                        before,
                        Err::<(Step<Picture>, SessionModel), ErrorKind>(e.kind()),
                    ));
                    return Err(e);
                },
                Ok(Progress::Decode(item)) => {
                    let decoded: Result<HeifFrame> = self.decoder().decode_coded(file, item);
                    let ghost x = pictured(decoded);
                    assert(decodes_to(file@, item@, before.decoder, x));
                    match decoded {
                        Err(e) => {
                            assert(runs(
                                file@,
                                node@,
                                before,
                                Err::<(Step<Picture>, SessionModel), ErrorKind>(e.kind()),
                            ));
                            return Err(e);
                        },
                        Ok(frame) => {
                            let kept: Result<()> = self.decoded(item.item.id, frame);
                            if let Err(e) = kept {
                                assert(runs(
                                    file@,
                                    node@,
                                    before,
                                    Err::<(Step<Picture>, SessionModel), ErrorKind>(e.kind()),
                                ));
                                return Err(e);
                            }
                            assert forall|out: Outcome<(Step<Picture>, SessionModel)>| #[trigger]
                                runs(file@, node@, self@, out) implies runs(
                                file@,
                                node@,
                                start,
                                out,
                            ) by {
                                assert(runs(file@, node@, before, out));
                            }
                        },
                    }
                },
                Ok(other) => {
                    let r: Result<Progress<'a>> = Ok(other);
                    assert(runs(
                        file@,
                        node@,
                        before,
                        Ok::<(Step<Picture>, SessionModel), ErrorKind>((step_of(r)->Ok_0, before)),
                    ));
                    return r;
                },
            }
        }
    }
}

/// An HEVC or AV1 item decodes to one picture, or is refused in one way: only the AVC
/// decoder may answer differently.
#[verifier::rlimit(50)]
pub proof fn law_one_coded_picture(
    f: FileModel,
    n: NodeModel,
    decoder: ItemDecoder,
    a: Outcome<Picture>,
    b: Outcome<Picture>,
)
    requires
        parameters_of(n) matches Ok(p) ==> p.codec_id == CODEC_ID_HEVC@ || p.codec_id
            == CODEC_ID_AV1@,
        decodes_to(f, n, decoder, a),
        decodes_to(f, n, decoder, b),
    ensures
        a == b,
{
}

} // verus!
