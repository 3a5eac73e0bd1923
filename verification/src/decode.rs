//! Coded image items → pixels: what a codec is handed, and what is made of its
//! answer.
//!
//! An `hvc1` / `hev1` item is one HEVC access unit of length-prefixed
//! NAL units (HEIF Annex B.2.2) whose parameter sets live in the `hvcC`
//! property; an HEVC decoder takes exactly that shape (the `hvcC` record as
//! `extradata`, length-prefixed packets). An `av01` item is one AV1 temporal
//! unit (AVIF §2.1) with the `av1C` record as `extradata`.
//!
//! [`missing_item`] names the next picture a composition needs, the caller has
//! it decoded, and [`output_image`] composes the pictures of a graph.
use crate::av1c::{Av1Config, Av1Model};
use crate::avcc::{AvcConfig, AvcModel};
use crate::boxes::{fourcc_eq, fourcc_str};
use crate::bytes::{be32, copy_of, get32, put, span, views};
use crate::derived::{declared_size, ImageKind, ImageNode, KindModel, NodeModel};
use crate::compose::pictured;
use crate::error::{layered_message, plain_outcome, view_outcome, ErrorKind, HeifError, Outcome, Result};
use crate::file::{Cow, FileModel, HeifFile};
use crate::hvcc::{layer_id_of, split_from, split_length_prefixed, HevcConfig, HevcModel};
use crate::image::core_bridge::{copy_planes, plane_models, PixelFormat};
use crate::image::{
    coded_layout, layout_of_codes, lemma_picture, picture_of, sample_in, size_refusal, HeifFrame,
    HeifPixelFormat, HeifPlane, Picture, PlaneModel,
};
use crate::lhvc::{all_units, LhevcConfig, LhevcModel, OperatingPoint};
use crate::meta::{
    ITEM_TYPE_AV01, ITEM_TYPE_AVC1, ITEM_TYPE_HEV1, ITEM_TYPE_HVC1, ITEM_TYPE_LHV1,
};
use crate::props::{ItemProperties, ItemPropertiesModel, PropertyKind, PropertyModel};
use crate::text::{concat, decimal};
use vstd::prelude::*;

pub mod codec;
pub mod describe;
pub mod item;
pub mod laws;
pub mod session;

pub use describe::{DecodedImage, GainMapAttachment};
pub use item::{decode_item, decode_primary};
pub use session::{Progress, Session};

verus! {

/// Codec id the HEVC decoder is registered under.
pub const CODEC_ID_HEVC: &'static str = "h265";

/// Codec id the AV1 decoder is registered under.
pub const CODEC_ID_AV1: &'static str = "av1";

/// Codec id the AVC decoder is registered under.
pub const CODEC_ID_AVC: &'static str = "h264";

/// Upper bound on the number of coded items decoded for one image.
pub const MAX_ITEM_DECODES: usize = 4096;

/// The coded item kinds this crate decodes.
#[derive(Clone, Copy, Debug)]
pub enum CodedKind<'a> {
    /// `hvc1` / `hev1` with its `hvcC`.
    Hevc(&'a HevcConfig),
    /// `av01` with its `av1C`.
    Av1(&'a Av1Config),
    /// `avc1` with its `avcC`.
    Avc(&'a AvcConfig),
    /// `lhv1` with its `lhvC` (base layer decoded).
    LayeredHevc(&'a LhevcConfig),
}

/// Model of [`CodedKind`].
pub enum CodedModel {
    /// `hvc1` / `hev1` with its `hvcC`.
    Hevc(HevcModel),
    /// `av01` with its `av1C`.
    Av1(Av1Model),
    /// `avc1` with its `avcC`.
    Avc(AvcModel),
    /// `lhv1` with its `lhvC`.
    LayeredHevc(LhevcModel),
}

impl<'a> View for CodedKind<'a> {
    type V = CodedModel;

    open spec fn view(&self) -> CodedModel {
        match self {
            CodedKind::Hevc(c) => CodedModel::Hevc(c@),
            CodedKind::Av1(c) => CodedModel::Av1(c@),
            CodedKind::Avc(c) => CodedModel::Avc(c@),
            CodedKind::LayeredHevc(c) => CodedModel::LayeredHevc(c@),
        }
    }
}

/// Classification of a graph node for decoding.
#[derive(Clone, Copy, Debug)]
pub enum ItemKind<'a> {
    /// A coded item this crate can hand to a codec.
    Coded(CodedKind<'a>),
    /// A derived item (composed by the `compose` module).
    Derived,
}

/// What contracts say of a classification: the coding, `None` for a derived
/// item.
pub open spec fn coding(k: ItemKind) -> Option<CodedModel> {
    match k {
        ItemKind::Coded(c) => Some(c@),
        ItemKind::Derived => None,
    }
}

/// The classification of a node.
pub open spec fn class_of(n: NodeModel) -> Outcome<Option<CodedModel>> {
    match n.kind {
        KindModel::Coded(t) => if t == ITEM_TYPE_HVC1 || t == ITEM_TYPE_HEV1 {
            match n.properties.first(PropertyKind::HvcC) {
                Some(PropertyModel::HvcC(c)) => Ok(Some(CodedModel::Hevc(c))),
                _ => Err(ErrorKind::Invalid),
            }
        } else if t == ITEM_TYPE_AV01 {
            match n.properties.first(PropertyKind::Av1C) {
                Some(PropertyModel::Av1C(c)) => Ok(Some(CodedModel::Av1(c))),
                _ => Err(ErrorKind::Invalid),
            }
        } else if t == ITEM_TYPE_AVC1 {
            match n.properties.first(PropertyKind::AvcC) {
                Some(PropertyModel::AvcC(c)) => Ok(Some(CodedModel::Avc(c))),
                _ => Err(ErrorKind::Invalid),
            }
        } else if t == ITEM_TYPE_LHV1 {
            match n.properties.first(PropertyKind::LhvC) {
                Some(PropertyModel::LhvC(c)) => Ok(Some(CodedModel::LayeredHevc(c))),
                _ => Err(ErrorKind::Invalid),
            }
        } else {
            Err(ErrorKind::Unsupported)
        },
        _ => Ok(None),
    }
}

pub(crate) fn lacks(id: u32, what: &str) -> (e: HeifError)
    ensures
        e.kind() == ErrorKind::Invalid,
{
    let n: String = decimal(id as u64);
    HeifError::invalid(concat(&["item ", n.as_str(), ": ", what]))
}

/// Classify a node: coded (with its decoder configuration) or derived.
pub fn classify<'a>(node: &'a ImageNode) -> (r: Result<ItemKind<'a>>)
    ensures
        match r {
            Ok(k) => class_of(node@) == Ok::<Option<CodedModel>, ErrorKind>(coding(k)),
            Err(e) => class_of(node@) == Err::<Option<CodedModel>, ErrorKind>(e.kind()),
        },
{
    let id: u32 = node.item.id;
    match &node.kind {
        ImageKind::Coded(t) => {
            if fourcc_eq(t, &ITEM_TYPE_HVC1) || fourcc_eq(t, &ITEM_TYPE_HEV1) {
                match node.properties.hvcc() {
                    Some(cfg) => Ok(ItemKind::Coded(CodedKind::Hevc(cfg))),
                    None => Err(lacks(id, "hvc1 item without an hvcC property")),
                }
            } else if fourcc_eq(t, &ITEM_TYPE_AV01) {
                match node.properties.av1c() {
                    Some(cfg) => Ok(ItemKind::Coded(CodedKind::Av1(cfg))),
                    None => Err(lacks(id, "av01 item without an av1C property")),
                }
            } else if fourcc_eq(t, &ITEM_TYPE_AVC1) {
                match node.properties.avcc() {
                    Some(cfg) => Ok(ItemKind::Coded(CodedKind::Avc(cfg))),
                    None => Err(lacks(id, "avc1 item without an avcC property (HEIF E.2.3)")),
                }
            } else if fourcc_eq(t, &ITEM_TYPE_LHV1) {
                match node.properties.lhvc() {
                    Some(cfg) => Ok(ItemKind::Coded(CodedKind::LayeredHevc(cfg))),
                    None => Err(lacks(id, "lhv1 item without an lhvC property (HEIF B.2.3.2)")),
                }
            } else {
                let n: String = decimal(id as u64);
                let name: String = fourcc_str(t);
                Err(
                    HeifError::unsupported(
                        concat(
                            &[
                                "item ",
                                n.as_str(),
                                ": coded image type '",
                                name.as_str(),
                                "' has no decoder in this crate",
                            ],
                        ),
                    ),
                )
            }
        },
        _ => Ok(ItemKind::Derived),
    }
}

/// Sample layout an `hvcC` record announces.
pub fn hevc_layout(cfg: &HevcConfig) -> (r: Result<HeifPixelFormat>)
    ensures
        plain_outcome(r) == coded_layout(cfg.chroma_format_idc, cfg.bit_depth_luma_minus8),
        r matches Ok(f) ==> f.wf(),
{
    layout_of_codes(cfg.chroma_format_idc, cfg.bit_depth_luma_minus8)
}

/// The layout an `av1C` record announces.
pub open spec fn av1_layout_of(c: Av1Model) -> Outcome<HeifPixelFormat> {
    coded_layout(c.chroma_idc(), (c.depth() - 8) as u8)
}

/// Sample layout an `av1C` record announces.
pub fn av1_layout(cfg: &Av1Config) -> (r: Result<HeifPixelFormat>)
    ensures
        plain_outcome(r) == av1_layout_of(cfg@),
        r matches Ok(f) && f.wf(),
{
    layout_of_codes(cfg.chroma_format_idc(), cfg.bit_depth() - 8)
}

/// The layout of the base layer of a layered item: that of the operating point
/// of output layer set 0, else of the first.
pub open spec fn layered_layout_of(p: ItemPropertiesModel) -> Outcome<HeifPixelFormat> {
    match p.first(PropertyKind::Oinf) {
        Some(PropertyModel::Oinf(o)) => {
            let op = match o.point(0) {
                Some(x) => Some(x),
                None => if o.operating_points.len() > 0 {
                    Some(o.operating_points[0])
                } else {
                    None
                },
            };
            match op {
                None => Err(ErrorKind::Invalid),
                Some(x) => coded_layout(x.max_chroma_format, x.max_bit_depth_minus8),
            }
        },
        _ => Err(ErrorKind::Invalid),
    }
}

/// Sample layout of an `lhv1` item's base layer: the `oinf` operating
/// point of output layer set 0 (its `maxChromaFormat` /
/// `maxBitDepthMinus8`), else that of the first operating point.
pub fn layered_base_layout(props: &ItemProperties) -> (r: Result<HeifPixelFormat>)
    ensures
        plain_outcome(r) == layered_layout_of(props@),
        r matches Ok(f) ==> f.wf(),
{
    match props.oinf() {
        None => Err(HeifError::invalid("lhv1 item without an oinf property (HEIF B.2.2.1.3)")),
        Some(o) => {
            let found: Option<&OperatingPoint> = match o.operating_point(0) {
                Some(x) => Some(x),
                None => if o.operating_points.len() > 0 {
                    Some(&o.operating_points[0])
                } else {
                    None
                },
            };
            match found {
                None => Err(HeifError::invalid("oinf without operating points")),
                Some(x) => layout_of_codes(x.max_chroma_format, x.max_bit_depth_minus8),
            }
        },
    }
}

/// The layout the properties of an item announce.
pub open spec fn announced_layout(p: ItemPropertiesModel) -> Option<HeifPixelFormat> {
    let r = match p.first(PropertyKind::HvcC) {
        Some(PropertyModel::HvcC(h)) => coded_layout(h.chroma_format_idc, h.bit_depth_luma_minus8),
        _ => match p.first(PropertyKind::Av1C) {
            Some(PropertyModel::Av1C(a)) => av1_layout_of(a),
            _ => match p.first(PropertyKind::AvcC) {
                Some(PropertyModel::AvcC(a)) => a.layout(),
                _ => match p.first(PropertyKind::LhvC) {
                    Some(PropertyModel::LhvC(_)) => layered_layout_of(p),
                    _ => Err(ErrorKind::Invalid),
                },
            },
        },
    };
    match r {
        Ok(f) => Some(f),
        Err(_) => None,
    }
}

fn to_option(r: Result<HeifPixelFormat>) -> (o: Option<HeifPixelFormat>)
    ensures
        match plain_outcome(r) {
            Ok(f) => o == Some(f),
            Err(_) => o is None,
        },
{
    match r {
        Ok(f) => Some(f),
        Err(_) => None,
    }
}

/// Same-layout properties helper used by callers that only hold a
/// property list (no graph node).
pub fn layout_of(props: &ItemProperties) -> (r: Option<HeifPixelFormat>)
    ensures
        r == announced_layout(props@),
        r matches Some(f) ==> f.wf(),
{
    if let Some(h) = props.hvcc() {
        return to_option(hevc_layout(h));
    }
    if let Some(a) = props.av1c() {
        return to_option(av1_layout(a));
    }
    if let Some(a) = props.avcc() {
        return to_option(a.layout());
    }
    if props.lhvc().is_some() {
        return to_option(layered_base_layout(props));
    }
    None
}

/// The units of the base layer among the first `n`, each behind a start code.
pub open spec fn base_units(units: Seq<Seq<u8>>, n: int) -> Seq<u8>
    decreases n,
{
    if n <= 0 {
        Seq::empty()
    } else {
        base_units(units, n - 1) + (if layer_id_of(units[n - 1]) == Some(0u8) {
            seq![0u8, 0, 0, 1] + units[n - 1]
        } else {
            Seq::empty()
        })
    }
}

/// The base layer of a layered access unit as an Annex B stream.
pub open spec fn base_layer_of(c: LhevcModel, item: Seq<u8>) -> Outcome<Seq<u8>> {
    if !(1 <= c.length_size <= 4) {
        Err(ErrorKind::Invalid)
    } else {
        match split_from(item, 0, c.length_size as int, Seq::empty()) {
            Err(_) => Err(ErrorKind::Invalid),
            Ok(units) => {
                let sets = all_units(c.arrays);
                let out = base_units(sets, sets.len() as int) + base_units(
                    units,
                    units.len() as int,
                );
                if out.len() == 0 {
                    Err(ErrorKind::Invalid)
                } else {
                    Ok(out)
                }
            },
        }
    }
}

fn put_base_units(out: &mut Vec<u8>, units: &Vec<&[u8]>)
    ensures
        final(out)@ == old(out)@ + base_units(views(units@), units@.len() as int),
{
    let ghost start = out@;
    let ghost all = views(units@);
    assert(out@ =~= start + base_units(all, 0));
    for i in 0..units.len()
        invariant
            all == views(units@),
            out@ == start + base_units(all, i as int),
    {
        let ghost before = out@;
        assert(all[i as int] == units@[i as int]@);
        let base: bool = match crate::lhvc::nuh_layer_id(units[i]) {
            Some(l) => l == 0,
            None => false,
        };
        if base {
            out.push(0);
            out.push(0);
            out.push(0);
            out.push(1);
            put(out, units[i]);
        }
        assert(out@ =~= start + base_units(all, i + 1));
    }
}

/// The base layer (`nuh_layer_id` 0) of an `lhv1` access unit as an
/// Annex B stream: the record's parameter sets first, then the item's
/// length-prefixed NAL units, every unit filtered to layer 0.
pub fn base_layer_annex_b(cfg: &LhevcConfig, item: &[u8]) -> (r: Result<Vec<u8>>)
    ensures
        view_outcome(r) == base_layer_of(cfg@, item@),
{
    let mut out: Vec<u8> = Vec::new();
    let sets: Vec<&[u8]> = cfg.nal_units();
    put_base_units(&mut out, &sets);
    let units: Vec<&[u8]> = split_length_prefixed(item, cfg.length_size)?;
    put_base_units(&mut out, &units);
    proof {
        let a = all_units(cfg@.arrays);
        let b = views(units@);
        assert(out@ =~= base_units(a, a.len() as int) + base_units(b, b.len() as int));
    }
    if out.len() == 0 {
        return Err(HeifError::invalid("lhv1 item carries no base-layer NAL units"));
    }
    Ok(out)
}

/// The bytes of an Exif item from the TIFF header on.
pub open spec fn exif_of(item: Seq<u8>) -> Outcome<Seq<u8>> {
    if item.len() < 4 || 4 + be32(item, 0) > item.len() {
        Err(ErrorKind::Invalid)
    } else {
        Ok(item.skip(4 + be32(item, 0)))
    }
}

/// Strip the `exif_tiff_header_offset` word of an `Exif` item body
/// (HEIF Annex A.2.1) and return the bytes from the TIFF header on.
pub fn exif_payload(item: &[u8]) -> (r: Result<Vec<u8>>)
    ensures
        view_outcome(r) == exif_of(item@),
{
    if item.len() < 4 {
        return Err(HeifError::invalid("Exif item shorter than its offset word"));
    }
    let off: u32 = get32(item, 0);
    if off as u64 > item.len() as u64 - 4 {
        let n: String = decimal(off as u64);
        return Err(
            HeifError::invalid(concat(&["Exif tiff header offset ", n.as_str(), " past the item"])),
        );
    }
    let start: usize = 4 + off as usize;
    assert(item@.skip(start as int) =~= item@.subrange(start as int, item@.len() as int));
    Ok(copy_of(span(item, start, item.len())))
}

/// The size of the picture a decoder emitted: what its luma plane holds.
pub open spec fn emitted_size(luma: PlaneModel, bps: int) -> (u32, u32) {
    ((luma.stride as int / bps) as u32, (luma.data.len() as int / luma.stride as int) as u32)
}

/// The picture of the planes a codec emitted, in the announced layout and
/// cropped to the declared size.
pub open spec fn planes_picture(
    planes: Seq<PlaneModel>,
    layout: HeifPixelFormat,
    ispe: Option<(u32, u32)>,
) -> Outcome<Picture> {
    let bps = layout.bps();
    let need = layout.planes();
    if planes.len() < need {
        Err(ErrorKind::Invalid)
    } else if planes[0].stride == 0 || planes[0].stride as int % bps != 0 || planes[0].data.len()
        == 0 {
        Err(ErrorKind::Invalid)
    } else {
        let emitted = emitted_size(planes[0], bps);
        let (w, h) = match ispe {
            Some(s) => s,
            None => emitted,
        };
        if w > emitted.0 || h > emitted.1 || w == 0 || h == 0 {
            Err(ErrorKind::Invalid)
        } else if exists|p: int|
            0 <= p < need && !(#[trigger] planes[p]).holds(
                layout.dims(p, w, h).0 * bps,
                layout.dims(p, w, h).1 as int,
            ) {
            Err(ErrorKind::Invalid)
        } else {
            match size_refusal(w, h) {
                Some(e) => Err(e),
                None => Ok(
                    picture_of(
                        w,
                        h,
                        layout,
                        |p: int, x: int, y: int|
                            sample_in(planes[p].data, y * planes[p].stride + x * bps, bps),
                    ),
                ),
            }
        }
    }
}

/// Interpret the planes a codec emitted as a tightly packed
/// [`HeifFrame`] of the announced layout, cropped to `ispe` when the
/// decoded picture is larger (codecs may emit the coded size).
pub fn frame_from_planes(
    planes: &[HeifPlane],
    layout: HeifPixelFormat,
    ispe: Option<(u32, u32)>,
    item_id: u32,
) -> (r: Result<HeifFrame>)
    requires
        layout.wf(),
    ensures
        pictured(r) == planes_picture(plane_models(planes@), layout, ispe),
        r matches Ok(f) ==> f@.wf() && f@.packed(),
{
    let ghost all = plane_models(planes@);
    let bps: usize = layout.bytes_per_sample();
    let need: usize = layout.plane_count();
    if planes.len() < need {
        return Err(lacks(item_id, "decoder emitted too few planes for the layout"));
    }
    assert(all[0] == planes@[0]@);
    let stride: usize = planes[0].stride;
    if stride == 0 || stride % bps != 0 || planes[0].data.len() == 0 {
        return Err(lacks(item_id, "luma plane stride incompatible with the sample size"));
    }
    let dec_w: u32 = (stride / bps) as u32;
    let dec_h: u32 = (planes[0].data.len() / stride) as u32;
    let (w, h): (u32, u32) = match ispe {
        Some(s) => s,
        None => (dec_w, dec_h),
    };
    if w > dec_w || h > dec_h || w == 0 || h == 0 {
        return Err(lacks(item_id, "ispe larger than the decoded picture"));
    }
    for p in 0..need
        invariant
            all == plane_models(planes@),
            layout.wf(),
            bps == layout.bps(),
            need == layout.planes(),
            need <= planes@.len(),
            0 < h,
            all.len() >= need,
            all[0].stride != 0,
            all[0].stride as int % bps as int == 0,
            all[0].data.len() != 0,
            (w, h) == (match ispe {
                Some(s) => s,
                None => emitted_size(all[0], bps as int),
            }),
            w <= emitted_size(all[0], bps as int).0,
            h <= emitted_size(all[0], bps as int).1,
            w != 0,
            forall|q: int|
                0 <= q < p ==> (#[trigger] all[q]).holds(
                    layout.dims(q, w, h).0 * bps,
                    layout.dims(q, w, h).1 as int,
                ),
    {
        let (pw, ph): (u32, u32) = layout.plane_dims(p, w, h);
        let row: u64 = pw as u64 * bps as u64;
        let src: &HeifPlane = &planes[p];
        assert(all[p as int] == src@);
        proof {
            assert(src.stride * (ph - 1) <= 0xffff_ffff_ffff_ffff * 0xffff_ffff) by (nonlinear_arith)
                requires
                    0 <= src.stride <= 0xffff_ffff_ffff_ffff,
                    0 <= ph - 1 <= 0xffff_ffff,
            ;
        }
        let last: u128 = src.stride as u128 * (ph - 1) as u128;
        if (src.stride as u64) < row || (src.data.len() as u128) < last + row as u128 {
            return Err(lacks(item_id, "plane too small for the picture"));
        }
    }
    let frame: HeifFrame = HeifFrame {
        width: w,
        height: h,
        format: layout,
        planes: copy_planes(planes, need),
    };
    proof {
        assert forall|q: int| 0 <= q < need implies (#[trigger] frame@.planes[q]).holds(
            layout.dims(q, w, h).0 * bps,
            layout.dims(q, w, h).1 as int,
        ) by {
            assert(frame@.planes[q] == all[q]);
        }
    }
    frame.validate()?;
    let out: HeifFrame = frame.tight();
    proof {
        let g = |p: int, x: int, y: int| sample_in(all[p].data, y * all[p].stride + x * bps, bps as int);
        assert forall|p: int, x: int, y: int|
            layout.has(w, h, p, x, y) implies #[trigger] out@.sample(p, x, y) == g(p, x, y) by {
            assert(frame@.planes[p] == all[p]);
        }
        lemma_picture(out@, w, h, layout, g);
    }
    Ok(out)
}

/// What a decoder needs to know of a coded item, as a container demuxer would
/// fill it: codec id, configuration record, `ispe` geometry, sample layout and
/// the framework format of that layout, when there is one.
#[derive(Debug)]
pub struct CodedParameters {
    /// Codec id.
    pub codec_id: &'static str,
    /// Configuration record handed to the decoder.
    pub extradata: Vec<u8>,
    /// Declared size.
    pub size: Option<(u32, u32)>,
    /// Announced sample layout.
    pub layout: HeifPixelFormat,
    /// Framework format of the layout.
    pub pixel_format: Option<PixelFormat>,
}

/// Model of [`CodedParameters`].
pub struct ParametersModel {
    /// Codec id.
    pub codec_id: Seq<char>,
    /// Configuration record.
    pub extradata: Seq<u8>,
    /// Declared size.
    pub size: Option<(u32, u32)>,
    /// Announced sample layout.
    pub layout: HeifPixelFormat,
    /// Framework format of the layout.
    pub pixel_format: Option<PixelFormat>,
}

impl View for CodedParameters {
    type V = ParametersModel;

    open spec fn view(&self) -> ParametersModel {
        ParametersModel {
            codec_id: self.codec_id@,
            extradata: self.extradata@,
            size: self.size,
            layout: self.layout,
            pixel_format: self.pixel_format,
        }
    }
}

/// The layout a coded item announces.
pub open spec fn coding_layout(c: CodedModel, p: ItemPropertiesModel) -> Outcome<HeifPixelFormat> {
    match c {
        CodedModel::Hevc(h) => coded_layout(h.chroma_format_idc, h.bit_depth_luma_minus8),
        CodedModel::Av1(a) => av1_layout_of(a),
        CodedModel::Avc(a) => a.layout(),
        CodedModel::LayeredHevc(_) => layered_layout_of(p),
    }
}

/// The codec a coded item is decoded with, and the record it is handed. The
/// base layer of a layered item travels with its parameter sets in band, so
/// there the decoder gets no record.
pub open spec fn coding_record(c: CodedModel) -> (Seq<char>, Seq<u8>) {
    match c {
        CodedModel::Hevc(h) => (CODEC_ID_HEVC@, h.raw),
        CodedModel::Av1(a) => (CODEC_ID_AV1@, a.raw),
        CodedModel::Avc(a) => (CODEC_ID_AVC@, a.raw),
        CodedModel::LayeredHevc(_) => (CODEC_ID_HEVC@, Seq::empty()),
    }
}

/// The parameters of a coded item.
pub open spec fn parameters_of(n: NodeModel) -> Outcome<ParametersModel> {
    match class_of(n) {
        Err(e) => Err(e),
        Ok(None) => Err(ErrorKind::Invalid),
        Ok(Some(c)) => match coding_layout(c, n.properties) {
            Err(e) => Err(e),
            Ok(layout) => Ok(
                ParametersModel {
                    codec_id: coding_record(c).0,
                    extradata: coding_record(c).1,
                    size: declared_size(n.properties),
                    layout,
                    pixel_format: layout.core_format(),
                },
            ),
        },
    }
}

/// The bytes a coded item hands to its decoder. An `lhv1` item whose output
/// layer set has enhancement layers is refused unless `base_layer` settles for
/// the base layer.
pub open spec fn payload_of(f: FileModel, n: NodeModel, base_layer: bool) -> Outcome<Seq<u8>> {
    match class_of(n) {
        Err(e) => Err(e),
        Ok(None) => Err(ErrorKind::Invalid),
        Ok(Some(CodedModel::LayeredHevc(c))) => if needs_enhancement(n.properties) && !base_layer {
            Err(ErrorKind::Unsupported)
        } else {
            match f.item_bytes(n.item.id) {
                Err(e) => Err(e),
                Ok(b) => base_layer_of(c, b),
            }
        },
        Ok(Some(_)) => match f.item_bytes(n.item.id) {
            Err(e) => Err(e),
            Ok(b) => if b.len() == 0 {
                Err(ErrorKind::Invalid)
            } else {
                Ok(b)
            },
        },
    }
}

/// The output layer set an item asks for.
pub open spec fn target_set(p: ItemPropertiesModel) -> u16 {
    match p.first(PropertyKind::Tols) {
        Some(PropertyModel::Tols(v)) => v,
        _ => 0,
    }
}

/// Whether the output layer set an item asks for has a layer above the base
/// layer (HEIF B.2.2.1.3).
pub open spec fn needs_enhancement(p: ItemPropertiesModel) -> bool {
    match p.first(PropertyKind::Oinf) {
        Some(PropertyModel::Oinf(o)) => has_enhancement(o.outputs(target_set(p))),
        _ => target_set(p) != 0,
    }
}

/// Whether a list of layers has one above the base layer.
pub open spec fn has_enhancement(layers: Seq<u8>) -> bool {
    exists|i: int| 0 <= i < layers.len() && #[trigger] layers[i] != 0
}

fn wants_enhancement(props: &ItemProperties, tols: u16) -> (r: bool)
    requires
        tols == target_set(props@),
    ensures
        r == needs_enhancement(props@),
{
    match props.oinf() {
        None => tols != 0,
        Some(o) => {
            let layers: Vec<u8> = o.output_layers(tols);
            for i in 0..layers.len()
                invariant
                    forall|j: int| 0 <= j < i ==> #[trigger] layers@[j] == 0,
                    layers@ == o@.outputs(tols),
                    tols == target_set(props@),
                    props@.first(PropertyKind::Oinf) == Some(PropertyModel::Oinf(o@)),
            {
                if layers[i] != 0 {
                    assert(layers@[i as int] != 0);
                    assert(has_enhancement(layers@));
                    return true;
                }
            }
            false
        },
    }
}

/// What a decoded `tmap` (tone-map) derived image item decodes to when it is
/// the item being decoded (HEIF Amd 1 §6.6.2.4).
#[derive(Clone, Copy, Debug, PartialEq, Eq, Structural)]
pub enum ToneMapOutput {
    /// The base input image (the SDR rendition an `altr`-aware reader
    /// without tone-map support displays); the decoded gain map rides
    /// along for on-demand application. The default, so SDR pipelines get an
    /// SDR picture.
    Base,
    /// The normative reconstruction (§6.6.2.4.1): the gain map fully
    /// applied, in the `tmap` item's own `colr`, at the depth its
    /// `pixi` hints (else the base's). A `tmap` that is the *input* of
    /// another derived item is always reconstructed this way.
    Applied,
}

impl Default for ToneMapOutput {
    fn default() -> (r: Self)
        ensures
            r == ToneMapOutput::Base,
    {
        ToneMapOutput::Base
    }
}

/// How coded image items are decoded: what a tone map yields, and whether the
/// base layer of a layered item is good enough.
#[derive(Clone, Copy, Debug, PartialEq, Eq, Structural)]
pub struct ItemDecoder {
    /// What a decoded `tmap` item yields.
    pub tone_map: ToneMapOutput,
    /// Whether an `lhv1` item that asks for enhancement layers decodes to its
    /// base layer.
    pub base_layer: bool,
}

impl Default for ItemDecoder {
    fn default() -> (r: Self)
        ensures
            r == (ItemDecoder { tone_map: ToneMapOutput::Base, base_layer: false }),
    {
        ItemDecoder { tone_map: ToneMapOutput::Base, base_layer: false }
    }
}

impl ItemDecoder {
    /// The base rendition of tone maps, and no base layer in place of an
    /// output layer set with enhancement layers.
    pub fn direct() -> (r: Self)
        ensures
            r == (ItemDecoder { tone_map: ToneMapOutput::Base, base_layer: false }),
    {
        ItemDecoder { tone_map: ToneMapOutput::Base, base_layer: false }
    }

    /// Select what a decoded `tmap` item yields (see [`ToneMapOutput`]).
    pub fn with_tone_map(self, output: ToneMapOutput) -> (r: Self)
        ensures
            r == (ItemDecoder { tone_map: output, ..self }),
    {
        ItemDecoder { tone_map: output, ..self }
    }

    /// The normative tone-mapped reconstruction for `tmap` items.
    pub fn tone_mapped(self) -> (r: Self)
        ensures
            r == (ItemDecoder { tone_map: ToneMapOutput::Applied, ..self }),
    {
        self.with_tone_map(ToneMapOutput::Applied)
    }

    /// The selected [`ToneMapOutput`].
    pub fn tone_map_output(&self) -> (r: ToneMapOutput)
        ensures
            r == self.tone_map,
    {
        self.tone_map
    }

    /// Decode the base layer of an `lhv1` item whose `tols` asks for
    /// an output layer set with enhancement layers, instead of the
    /// [`HeifError::layered_hevc`] refusal.
    pub fn base_layer_fallback(self) -> (r: Self)
        ensures
            r == (ItemDecoder { base_layer: true, ..self }),
    {
        ItemDecoder { base_layer: true, ..self }
    }

    /// The codec parameters a coded item needs, as a container demuxer
    /// would fill them: id, `extradata`, `ispe` geometry, pixel format.
    pub fn codec_parameters(node: &ImageNode) -> (r: Result<CodedParameters>)
        ensures
            view_outcome(r) == parameters_of(node@),
            r matches Ok(p) ==> p.layout.wf(),
    {
        let kind: CodedKind = match classify(node)? {
            ItemKind::Coded(k) => k,
            ItemKind::Derived => {
                return Err(lacks(node.item.id, "not a coded image"));
            },
        };
        let (codec_id, extradata, layout): (&'static str, Vec<u8>, HeifPixelFormat) = match kind {
            CodedKind::Hevc(cfg) => (CODEC_ID_HEVC, copy_of(cfg.raw.as_slice()), hevc_layout(cfg)?),
            CodedKind::Av1(cfg) => (CODEC_ID_AV1, copy_of(cfg.raw.as_slice()), av1_layout(cfg)?),
            CodedKind::Avc(cfg) => (CODEC_ID_AVC, copy_of(cfg.raw.as_slice()), cfg.layout()?),
            CodedKind::LayeredHevc(_) => (
                CODEC_ID_HEVC,
                Vec::new(),
                layered_base_layout(&node.properties)?,
            ),
        };
        Ok(
            CodedParameters {
                codec_id,
                extradata,
                size: node.ispe(),
                layout,
                pixel_format: layout.to_core(),
            },
        )
    }

    /// The bytes a coded item hands to its decoder: the item's data, or the
    /// base layer of an `lhv1` item as an Annex B stream (HEIF B.2.2.1.3: the
    /// item's `tols` names the output layer set; anything beyond the base layer
    /// is a refusal unless the caller settles for the base).
    pub fn payload(&self, file: &HeifFile, node: &ImageNode) -> (r: Result<Vec<u8>>)
        ensures
            view_outcome(r) == payload_of(file@, node@, self.base_layer),
            (class_of(node@) matches Ok(Some(CodedModel::LayeredHevc(_)))) && needs_enhancement(
                node@.properties,
            ) && !self.base_layer ==> (r matches Err(e) && e.message() == layered_message(
                node.item.id,
                target_set(node@.properties),
            )),
    {
        let kind: CodedKind = match classify(node)? {
            ItemKind::Coded(k) => k,
            ItemKind::Derived => {
                return Err(lacks(node.item.id, "not a coded image"));
            },
        };
        match kind {
            CodedKind::LayeredHevc(cfg) => {
                let tols: u16 = match node.properties.tols() {
                    Some(v) => v,
                    None => 0,
                };
                if wants_enhancement(&node.properties, tols) && !self.base_layer {
                    return Err(HeifError::layered_hevc(node.item.id, tols));
                }
                let data: Cow = file.item_data(node.item.id)?;
                base_layer_annex_b(cfg, data.as_ref())
            },
            _ => {
                let data: Vec<u8> = file.item_data_owned(node.item.id)?;
                if data.len() == 0 {
                    return Err(lacks(node.item.id, "empty payload"));
                }
                Ok(data)
            },
        }
    }
}

} // verus!
