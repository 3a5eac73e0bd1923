//! Coded video packets → an `msf1` image-sequence file.
//!
//! HEVC packets may arrive either Annex B framed (parameter sets in band) or
//! `hvcC` + length-prefixed (a stream demuxed from another ISOBMFF file); the
//! parameter sets are lifted into the sample entry's `hvcC` and every sample is
//! re-framed with 4-byte length prefixes (ISO/IEC 14496-15). AV1 packets are
//! temporal units and need an `av1C` record in the stream's `extradata`. The
//! first packet also becomes the file-level `meta` still (cover image, HEIF
//! §7.1) when it is a sync sample of a self-contained codec configuration.
//!
//! A `"heif"` still stream (every packet is a complete file) is passed through:
//! exactly one packet, written as the file; a second packet is refused.
use crate::av1c::{av1_config_of, Av1Config, Av1Model};
use crate::boxes::FourCc;
use crate::bytes::copy_of;
use crate::decode::{av1_layout, av1_layout_of, hevc_layout};
use crate::demux::CODEC_ID;
use crate::encode::annexb::{hevc_item_from_annex_b, hevc_item_in};
use crate::encode::items::{ItemModel, ItemSpec};
use crate::encode::{channels, pixi_of};
use crate::error::{ErrorKind, HeifError, Outcome, Result};
use crate::file::{file_of, HeifFile};
use crate::hvcc::{
    hevc_config_of, join_length_prefixed, joined, split_from, split_length_prefixed, units_fit,
    HevcConfig, HevcModel,
};
use crate::image::{coded_layout, HeifPixelFormat};
use crate::meta::{ITEM_TYPE_AV01, ITEM_TYPE_HVC1};
use crate::props::{Colr, ColrModel, Ispe, Property, PropertyModel};
use crate::text::same_text;
use vstd::prelude::*;

pub mod laws;

verus! {

/// Container name the muxer is registered under.
pub const MUXER_NAME: &'static str = "heif";

/// What a muxed stream carries.
#[derive(Clone, Copy, Debug, PartialEq, Eq, Structural)]
pub enum MuxCodec {
    /// HEVC access units.
    Hevc,
    /// AV1 temporal units.
    Av1,
    /// One complete file.
    Still,
}

/// The codec a stream names.
pub open spec fn named_codec(id: Seq<char>) -> Option<MuxCodec> {
    if id == "h265"@ || id == "hevc"@ {
        Some(MuxCodec::Hevc)
    } else if id == "av1"@ {
        Some(MuxCodec::Av1)
    } else if id == CODEC_ID@ {
        Some(MuxCodec::Still)
    } else {
        None
    }
}

/// A sample of the sequence.
#[derive(Debug)]
pub struct MuxSample {
    /// The sample, its NAL units behind 4-byte length prefixes.
    pub data: Vec<u8>,
    /// Duration in ticks.
    pub duration: u32,
    /// Whether it is a sync sample.
    pub is_sync: bool,
}

/// Model of [`MuxSample`].
#[verifier::ext_equal]
pub struct MuxSampleModel {
    /// The sample.
    pub data: Seq<u8>,
    /// Duration in ticks.
    pub duration: u32,
    /// Whether it is a sync sample.
    pub is_sync: bool,
}

impl View for MuxSample {
    type V = MuxSampleModel;

    open spec fn view(&self) -> MuxSampleModel {
        MuxSampleModel { data: self.data@, duration: self.duration, is_sync: self.is_sync }
    }
}

/// The models of a list of samples.
pub open spec fn sample_models(v: Seq<MuxSample>) -> Seq<MuxSampleModel> {
    Seq::new(v.len(), |i: int| v[i]@)
}

/// The packets of a stream, gathered for an image-sequence file.
#[derive(Debug)]
pub struct HeifSequenceMuxer {
    codec: MuxCodec,
    hvcc: Option<HevcConfig>,
    av1c: Option<Av1Config>,
    size: Option<(u32, u32)>,
    samples: Vec<MuxSample>,
    still: Option<Vec<u8>>,
}

/// Model of [`HeifSequenceMuxer`].
#[verifier::ext_equal]
pub struct MuxModel {
    /// What the stream carries.
    pub codec: MuxCodec,
    /// The `hvcC` record, once known.
    pub hvcc: Option<HevcModel>,
    /// The `av1C` record, once known.
    pub av1c: Option<Av1Model>,
    /// Picture size, once known.
    pub size: Option<(u32, u32)>,
    /// The samples so far.
    pub samples: Seq<MuxSampleModel>,
    /// The file of a still stream.
    pub still: Option<Seq<u8>>,
}

impl View for HeifSequenceMuxer {
    type V = MuxModel;

    closed spec fn view(&self) -> MuxModel {
        MuxModel {
            codec: self.codec,
            hvcc: match self.hvcc {
                Some(c) => Some(c@),
                None => None,
            },
            av1c: match self.av1c {
                Some(c) => Some(c@),
                None => None,
            },
            size: self.size,
            samples: sample_models(self.samples@),
            still: match self.still {
                Some(b) => Some(b@),
                None => None,
            },
        }
    }
}

/// What contracts say of a new muxer.
pub open spec fn mux_outcome(r: Result<HeifSequenceMuxer>) -> Outcome<MuxModel> {
    match r {
        Ok(m) => Ok(m@),
        Err(e) => Err(e.kind()),
    }
}

/// The size both of whose edges are known and not zero.
pub open spec fn known_size(w: Option<u32>, h: Option<u32>) -> Option<(u32, u32)> {
    match (w, h) {
        (Some(a), Some(b)) => if a > 0 && b > 0 {
            Some((a, b))
        } else {
            None
        },
        _ => None,
    }
}

/// A muxer for a stream: an `hvcC` that cannot be parsed is ignored (the
/// parameter sets come in band), an `av1C` that cannot be parsed is refused.
pub open spec fn new_muxer(
    codec_id: Seq<char>,
    extradata: Seq<u8>,
    width: Option<u32>,
    height: Option<u32>,
) -> Outcome<MuxModel> {
    match named_codec(codec_id) {
        None => Err(ErrorKind::Unsupported),
        Some(codec) => {
            let m = MuxModel {
                codec,
                hvcc: None,
                av1c: None,
                size: known_size(width, height),
                samples: Seq::empty(),
                still: None,
            };
            if extradata.len() == 0 {
                Ok(m)
            } else {
                match codec {
                    MuxCodec::Hevc => match hevc_config_of(extradata) {
                        Ok(c) => Ok(MuxModel { hvcc: Some(c), ..m }),
                        Err(_) => Ok(m),
                    },
                    MuxCodec::Av1 => match av1_config_of(extradata) {
                        Ok(c) => Ok(MuxModel { av1c: Some(c), ..m }),
                        Err(e) => Err(e),
                    },
                    MuxCodec::Still => Ok(m),
                }
            }
        },
    }
}

/// A duration in ticks: at least one, one when unknown.
pub open spec fn ticks(d: Option<i64>) -> u32 {
    match d {
        Some(v) => if v < 1 {
            1
        } else {
            v as u32
        },
        None => 1,
    }
}

/// Whether a packet starts with an Annex B start code.
pub open spec fn starts_annex_b(b: Seq<u8>) -> bool {
    (b.len() >= 3 && b[0] == 0 && b[1] == 0 && b[2] == 1) || (b.len() >= 4 && b[0] == 0 && b[1] == 0
        && b[2] == 0 && b[3] == 1)
}

/// A length-prefixed sample with 4-byte prefixes.
pub open spec fn reframed(b: Seq<u8>, length_size: u8) -> Outcome<Seq<u8>> {
    if !(1 <= length_size <= 4) {
        Err(ErrorKind::Invalid)
    } else {
        match split_from(b, 0, length_size as int, Seq::empty()) {
            Err(_) => Err(ErrorKind::Invalid),
            Ok(units) => if length_size == 4 {
                Ok(b)
            } else if units_fit(units, 4) {
                Ok(joined(units, 4))
            } else {
                Err(ErrorKind::Invalid)
            },
        }
    }
}

impl MuxModel {
    /// The muxer with one more sample.
    pub open spec fn with_sample(self, data: Seq<u8>, duration: u32, is_sync: bool) -> MuxModel {
        MuxModel {
            samples: self.samples.push(MuxSampleModel { data, duration, is_sync }),
            ..self
        }
    }

    /// The muxer after a packet.
    pub open spec fn after(self, b: Seq<u8>, duration: Option<i64>, key: bool) -> Outcome<MuxModel> {
        let d = ticks(duration);
        match self.codec {
            MuxCodec::Still => if self.still is Some || file_of(b) is Err {
                Err(ErrorKind::Invalid)
            } else {
                Ok(MuxModel { still: Some(b), ..self })
            },
            MuxCodec::Hevc => if starts_annex_b(b) {
                match hevc_item_in(b) {
                    Err(e) => Err(e),
                    Ok(i) => {
                        let known = if self.hvcc is Some {
                            self
                        } else {
                            MuxModel {
                                hvcc: Some(i.config),
                                size: match self.size {
                                    Some(s) => Some(s),
                                    None => Some(i.size),
                                },
                                ..self
                            }
                        };
                        Ok(known.with_sample(i.data, d, key))
                    },
                }
            } else {
                match self.hvcc {
                    None => Err(ErrorKind::Invalid),
                    Some(c) => match reframed(b, c.length_size) {
                        Err(e) => Err(e),
                        Ok(data) => Ok(self.with_sample(data, d, key)),
                    },
                }
            },
            MuxCodec::Av1 => match self.av1c {
                None => Err(ErrorKind::Invalid),
                Some(_) => Ok(self.with_sample(b, d, key)),
            },
        }
    }
}

fn is_annex_b(b: &[u8]) -> (r: bool)
    ensures
        r == starts_annex_b(b@),
{
    (b.len() >= 3 && b[0] == 0 && b[1] == 0 && b[2] == 1) || (b.len() >= 4 && b[0] == 0 && b[1] == 0
        && b[2] == 0 && b[3] == 1)
}

fn reframe(b: &[u8], length_size: u8) -> (r: Result<Vec<u8>>)
    ensures
        crate::error::view_outcome(r) == reframed(b@, length_size),
{
    let units: Vec<&[u8]> = split_length_prefixed(b, length_size)?;
    if length_size == 4 {
        Ok(copy_of(b))
    } else {
        join_length_prefixed(units.as_slice(), 4)
    }
}

impl HeifSequenceMuxer {
    /// A muxer for a video stream with the given codec id, configuration record
    /// and picture size.
    pub fn new(codec_id: &str, extradata: &[u8], width: Option<u32>, height: Option<u32>) -> (r: Result<
        Self,
    >)
        ensures
            mux_outcome(r) == new_muxer(codec_id@, extradata@, width, height),
    {
        let codec: MuxCodec = if same_text(codec_id, "h265") || same_text(codec_id, "hevc") {
            MuxCodec::Hevc
        } else if same_text(codec_id, "av1") {
            MuxCodec::Av1
        } else if same_text(codec_id, CODEC_ID) {
            MuxCodec::Still
        } else {
            return Err(
                HeifError::unsupported("heif muxer: heif still, h265 / av1 sequences supported"),
            );
        };
        let mut hvcc: Option<HevcConfig> = None;
        let mut av1c: Option<Av1Config> = None;
        if extradata.len() > 0 {
            match codec {
                MuxCodec::Hevc => {
                    if let Ok(c) = HevcConfig::parse(extradata) {
                        hvcc = Some(c);
                    }
                },
                MuxCodec::Av1 => {
                    let c: Av1Config = Av1Config::parse(extradata)?;
                    av1c = Some(c);
                },
                MuxCodec::Still => {},
            }
        }
        let size: Option<(u32, u32)> = match (width, height) {
            (Some(w), Some(h)) => if w > 0 && h > 0 {
                Some((w, h))
            } else {
                None
            },
            _ => None,
        };
        let m: HeifSequenceMuxer = HeifSequenceMuxer {
            codec,
            hvcc,
            av1c,
            size,
            samples: Vec::new(),
            still: None,
        };
        assert(m@.samples =~= Seq::empty());
        Ok(m)
    }

    /// Whether no packet was taken in.
    pub fn is_empty(&self) -> (r: bool)
        ensures
            r == (self@.samples.len() == 0 && self@.still is None),
    {
        self.samples.len() == 0 && self.still.is_none()
    }

    fn add(&mut self, data: Vec<u8>, duration: u32, is_sync: bool)
        ensures
            final(self)@ == old(self)@.with_sample(data@, duration, is_sync),
    {
        let ghost before = self@;
        let s: MuxSample = MuxSample { data, duration, is_sync };
        self.samples.push(s);
        assert(self@.samples =~= before.samples.push(s@));
    }

    /// Take in a packet.
    pub fn push(&mut self, data: &[u8], duration: Option<i64>, keyframe: bool) -> (r: Result<()>)
        ensures
            match r {
                Ok(_) => old(self)@.after(data@, duration, keyframe) == Ok::<MuxModel, ErrorKind>(
                    final(self)@,
                ),
                Err(e) => {
                    &&& old(self)@.after(data@, duration, keyframe) == Err::<MuxModel, ErrorKind>(
                        e.kind(),
                    )
                    &&& final(self)@ == old(self)@
                },
            },
    {
        let ticks: u32 = match duration {
            Some(v) => if v < 1 {
                1
            } else {
                v as u32
            },
            None => 1,
        };
        match self.codec {
            MuxCodec::Still => {
                if self.still.is_some() {
                    return Err(
                        HeifError::invalid(
                            "heif muxer: a still stream carries exactly one packet (one file)",
                        ),
                    );
                }
                match HeifFile::parse(data) {
                    Err(_) => {
                        return Err(HeifError::invalid("heif muxer: still packet is not a HEIF file"));
                    },
                    Ok(_) => {},
                }
                self.still = Some(copy_of(data));
                Ok(())
            },
            MuxCodec::Hevc => {
                if is_annex_b(data) {
                    let (cfg, item, w, h, _) = hevc_item_from_annex_b(data)?;
                    if self.hvcc.is_none() {
                        self.hvcc = Some(cfg);
                        if self.size.is_none() {
                            self.size = Some((w, h));
                        }
                    }
                    self.add(item, ticks, keyframe);
                    Ok(())
                } else {
                    let length_size: u8 = match &self.hvcc {
                        Some(c) => c.length_size,
                        None => {
                            return Err(
                                HeifError::invalid(
                                    "heif muxer: length-prefixed HEVC packets need an hvcC extradata",
                                ),
                            );
                        },
                    };
                    let sample: Vec<u8> = reframe(data, length_size)?;
                    self.add(sample, ticks, keyframe);
                    Ok(())
                }
            },
            MuxCodec::Av1 => {
                if self.av1c.is_none() {
                    return Err(HeifError::invalid("heif muxer: AV1 streams need an av1C extradata"));
                }
                self.add(copy_of(data), ticks, keyframe);
                Ok(())
            },
        }
    }
}

/// An image-sequence file to write.
#[derive(Debug)]
pub struct SequencePlan<'a> {
    /// Sample-entry type.
    pub entry_type: FourCc,
    /// Decoder configuration of the sample entry.
    pub config: Property,
    /// Picture width.
    pub width: u16,
    /// Picture height.
    pub height: u16,
    /// Colour information of the sample entry.
    pub colr: Colr,
    /// The samples, in decode order.
    pub samples: &'a Vec<MuxSample>,
    /// The cover image, the primary item of the file.
    pub cover: Option<ItemSpec>,
}

/// Model of [`SequencePlan`].
pub struct SequenceModel {
    /// Sample-entry type.
    pub entry_type: FourCc,
    /// Decoder configuration.
    pub config: PropertyModel,
    /// Picture width.
    pub width: u16,
    /// Picture height.
    pub height: u16,
    /// Colour information of the sample entry.
    pub colr: ColrModel,
    /// The samples.
    pub samples: Seq<MuxSampleModel>,
    /// The cover image.
    pub cover: Option<ItemModel>,
}

/// What a muxer writes.
#[derive(Debug)]
pub enum MuxPlan<'a> {
    /// A file as it came.
    Still(&'a [u8]),
    /// An image sequence.
    Sequence(SequencePlan<'a>),
}

/// Model of [`MuxPlan`].
pub enum MuxPlanModel {
    /// A file as it came.
    Still(Seq<u8>),
    /// An image sequence.
    Sequence(SequenceModel),
}

impl<'a> View for MuxPlan<'a> {
    type V = MuxPlanModel;

    open spec fn view(&self) -> MuxPlanModel {
        match self {
            MuxPlan::Still(b) => MuxPlanModel::Still(b@),
            MuxPlan::Sequence(p) => MuxPlanModel::Sequence(
                SequenceModel {
                    entry_type: p.entry_type,
                    config: p.config@,
                    width: p.width,
                    height: p.height,
                    colr: p.colr@,
                    samples: sample_models(p.samples@),
                    cover: match p.cover {
                        Some(i) => Some(i@),
                        None => None,
                    },
                },
            ),
        }
    }
}

/// The record of the sample entry: its prefixes are 4 bytes wide.
pub open spec fn four_byte_record(c: HevcModel) -> HevcModel {
    if c.length_size == 4 {
        c
    } else {
        let d = HevcModel { length_size: 4, ..c };
        HevcModel { raw: d.bytes(), ..d }
    }
}

/// The cover image: the first sample, when it is a sync sample.
pub open spec fn cover_of(
    samples: Seq<MuxSampleModel>,
    entry_type: FourCc,
    config: PropertyModel,
    size: (u32, u32),
    layout: HeifPixelFormat,
) -> Option<ItemModel> {
    if samples.len() > 0 && samples[0].is_sync {
        Some(
            ItemModel {
                item_type: entry_type,
                data: samples[0].data,
                props: seq![
                    (config, true),
                    (PropertyModel::Ispe(Ispe { width: size.0, height: size.1 }), false),
                    (channels(layout.bit_depth, layout.chroma.planes()), false),
                    (PropertyModel::Colr(ColrModel::miaf_default()), false),
                ],
            },
        )
    } else {
        None
    }
}

/// The sequence of samples with a known configuration.
pub open spec fn sequence_of(
    samples: Seq<MuxSampleModel>,
    entry_type: FourCc,
    config: PropertyModel,
    size: (u32, u32),
    layout: Outcome<HeifPixelFormat>,
) -> Outcome<MuxPlanModel> {
    match layout {
        Err(e) => Err(e),
        Ok(l) => Ok(
            MuxPlanModel::Sequence(
                SequenceModel {
                    entry_type,
                    config,
                    width: size.0 as u16,
                    height: size.1 as u16,
                    colr: ColrModel::miaf_default(),
                    samples,
                    cover: cover_of(samples, entry_type, config, size, l),
                },
            ),
        ),
    }
}

impl MuxModel {
    /// What is written in the end.
    pub open spec fn finished(self) -> Outcome<MuxPlanModel> {
        match self.codec {
            MuxCodec::Still => match self.still {
                Some(b) => Ok(MuxPlanModel::Still(b)),
                None => Err(ErrorKind::Invalid),
            },
            MuxCodec::Hevc => match (self.size, self.hvcc) {
                (Some(size), Some(c)) => {
                    let d = four_byte_record(c);
                    sequence_of(
                        self.samples,
                        ITEM_TYPE_HVC1,
                        PropertyModel::HvcC(d),
                        size,
                        coded_layout(d.chroma_format_idc, d.bit_depth_luma_minus8),
                    )
                },
                _ => Err(ErrorKind::Invalid),
            },
            MuxCodec::Av1 => match (self.size, self.av1c) {
                (Some(size), Some(c)) => sequence_of(
                    self.samples,
                    ITEM_TYPE_AV01,
                    PropertyModel::Av1C(c),
                    size,
                    av1_layout_of(c),
                ),
                _ => Err(ErrorKind::Invalid),
            },
        }
    }
}

/// What contracts say of a plan.
pub open spec fn plan_outcome(r: Result<MuxPlan>) -> Outcome<MuxPlanModel> {
    match r {
        Ok(p) => Ok(p@),
        Err(e) => Err(e.kind()),
    }
}

fn make_cover(
    samples: &Vec<MuxSample>,
    entry_type: FourCc,
    config: &Property,
    size: (u32, u32),
    layout: HeifPixelFormat,
) -> (r: Option<ItemSpec>)
    ensures
        match r {
            Some(i) => cover_of(sample_models(samples@), entry_type, config@, size, layout) == Some(
                i@,
            ),
            None => cover_of(sample_models(samples@), entry_type, config@, size, layout) is None,
        },
{
    if samples.len() == 0 {
        return None;
    }
    assert(sample_models(samples@)[0] == samples@[0]@);
    if !samples[0].is_sync {
        return None;
    }
    let mut props: Vec<(Property, bool)> = Vec::new();
    let record: Property = config.clone();
    let bits: Property = pixi_of(layout.bit_depth, layout.chroma.colour_planes());
    props.push((record, true));
    props.push((Property::Ispe(Ispe { width: size.0, height: size.1 }), false));
    props.push((bits, false));
    props.push((Property::Colr(Colr::miaf_default()), false));
    let i: ItemSpec = ItemSpec {
        item_type: entry_type,
        data: copy_of(samples[0].data.as_slice()),
        props,
    };
    proof {
        assert(i@.props =~= seq![
            (config@, true),
            (PropertyModel::Ispe(Ispe { width: size.0, height: size.1 }), false),
            (channels(layout.bit_depth, layout.chroma.planes()), false),
            (PropertyModel::Colr(ColrModel::miaf_default()), false),
        ]);
    }
    Some(i)
}

fn make_sequence<'a>(
    samples: &'a Vec<MuxSample>,
    entry_type: FourCc,
    config: Property,
    size: (u32, u32),
    layout: HeifPixelFormat,
) -> (r: MuxPlan<'a>)
    ensures
        sequence_of(sample_models(samples@), entry_type, config@, size, Ok(layout)) == Ok::<
            MuxPlanModel,
            ErrorKind,
        >(r@),
{
    let cover: Option<ItemSpec> = make_cover(samples, entry_type, &config, size, layout);
    MuxPlan::Sequence(
        SequencePlan {
            entry_type,
            config,
            width: size.0 as u16,
            height: size.1 as u16,
            colr: Colr::miaf_default(),
            samples,
            cover,
        },
    )
}

impl HeifSequenceMuxer {
    /// What is written once every packet was taken in: the file of a still
    /// stream as it came, else the sequence of samples with the first sync
    /// sample as the cover image.
    pub fn finish<'a>(&'a self) -> (r: Result<MuxPlan<'a>>)
        ensures
            plan_outcome(r) == self@.finished(),
    {
        if self.codec == MuxCodec::Still {
            return match &self.still {
                Some(b) => Ok(MuxPlan::Still(b.as_slice())),
                None => Err(HeifError::invalid("heif muxer: no still packet was written")),
            };
        }
        let size: (u32, u32) = match self.size {
            Some(s) => s,
            None => {
                return Err(HeifError::invalid("heif muxer: unknown picture size"));
            },
        };
        if self.codec == MuxCodec::Hevc {
            match &self.hvcc {
                None => Err(HeifError::invalid("heif muxer: no HEVC parameter sets seen")),
                Some(known) => {
                    let mut c: HevcConfig = known.clone();
                    if c.length_size != 4 {
                        c.length_size = 4;
                        let ghost before = c@;
                        c.raw = c.serialize();
                        assert(c@ =~= HevcModel { raw: before.bytes(), ..before });
                        assert(before =~= HevcModel { length_size: 4, ..known@ });
                    }
                    assert(c@ == four_byte_record(known@));
                    let layout: HeifPixelFormat = hevc_layout(&c)?;
                    Ok(
                        make_sequence(
                            &self.samples,
                            ITEM_TYPE_HVC1,
                            Property::HvcC(c),
                            size,
                            layout,
                        ),
                    )
                },
            }
        } else {
            match &self.av1c {
                None => Err(HeifError::invalid("heif muxer: AV1 streams need an av1C extradata")),
                Some(known) => {
                    let layout: HeifPixelFormat = av1_layout(known)?;
                    Ok(
                        make_sequence(
                            &self.samples,
                            ITEM_TYPE_AV01,
                            Property::Av1C(known.clone()),
                            size,
                            layout,
                        ),
                    )
                },
            }
        }
    }
}

proof fn lemma_units_not_empty(b: Seq<u8>, p: int, k: int, acc: Seq<Seq<u8>>)
    requires
        0 <= p,
        forall|i: int| 0 <= i < acc.len() ==> (#[trigger] acc[i]).len() > 0,
    ensures
        split_from(b, p, k, acc) matches Ok(units) ==> forall|i: int|
            0 <= i < units.len() ==> (#[trigger] units[i]).len() > 0,
    decreases b.len() - p,
{
    if p < b.len() && 1 <= k <= 4 && p + k <= b.len() {
        let end = p + k + crate::hvcc::length_at(b, p, k);
        if p + k < end <= b.len() {
            lemma_units_not_empty(b, end, k, acc.push(b.subrange(p + k, end)));
        }
    }
}

/// A re-framed sample holds the NAL units of the packet it came from.
#[verifier::rlimit(50)]
pub proof fn law_reframed_units(b: Seq<u8>, length_size: u8)
    ensures
        reframed(b, length_size) matches Ok(d) ==> split_from(d, 0, 4, Seq::empty()) == split_from(
            b,
            0,
            length_size as int,
            Seq::empty(),
        ),
{
    if let Ok(units) = split_from(b, 0, length_size as int, Seq::empty()) {
        if 1 <= length_size <= 4 && length_size != 4 && units_fit(units, 4) {
            lemma_units_not_empty(b, 0, length_size as int, Seq::empty());
            crate::hvcc::law_split_of_joined(units, 4);
        }
    }
}

/// A packet that is taken in adds one sample (or is the file of a still stream)
/// and changes none of the samples before it; a record once known stays.
#[verifier::rlimit(50)]
pub proof fn law_packets_append(m: MuxModel, b: Seq<u8>, duration: Option<i64>, key: bool)
    ensures
        m.after(b, duration, key) matches Ok(n) ==> {
            &&& n.codec == m.codec
            &&& m.codec == MuxCodec::Still ==> n.samples == m.samples && n.still == Some(b)
            &&& m.codec != MuxCodec::Still ==> n.samples.len() == m.samples.len() + 1
                && n.samples.drop_last() == m.samples && n.samples.last().is_sync == key && n.still
                == m.still
            &&& m.hvcc is Some ==> n.hvcc == m.hvcc
            &&& m.size is Some ==> n.size == m.size
        },
{
    if let Ok(n) = m.after(b, duration, key) {
        if m.codec != MuxCodec::Still {
            assert(n.samples.drop_last() =~= m.samples);
        }
    }
}

} // verus!
