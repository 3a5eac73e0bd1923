//! Annex B HEVC access units → items: the parameter sets move into the `hvcC`
//! record, the coded slices are re-framed with 4-byte length prefixes (HEIF
//! Annex B.2.2).
use crate::bytes::{lists, views};
use crate::encode::avc::unescaped;
use crate::error::{ErrorKind, HeifError, Outcome, Result};
use crate::hvcc::{
    join_length_prefixed, joined, units_fit, HevcConfig, HevcModel, NalArray, NalArrayModel, NAL_PPS,
    NAL_SPS, NAL_VPS,
};
use crate::image::{pixel_format, two_to, Chroma, HeifPixelFormat};
use vstd::arithmetic::power2::pow2;
use vstd::prelude::*;

verus! {

/// A refusal of `oxideav_h265` to split a byte stream.
#[verifier::external_type_specification]
#[verifier::external_body]
pub struct ExHevcNalError(oxideav_h265::NalError);

/// A refusal of `oxideav_h265` to parse a sequence parameter set.
#[verifier::external_type_specification]
#[verifier::external_body]
pub struct ExHevcSpsError(oxideav_h265::SpsError);

/// An HEVC NAL unit.
#[derive(Debug, Clone)]
pub struct HevcUnit {
    /// `nal_unit_type`.
    pub nal_unit_type: u8,
    /// `nuh_layer_id`.
    pub nuh_layer_id: u8,
    /// `TemporalId`.
    pub temporal_id: u8,
    /// The payload as coded, without the two header bytes.
    pub escaped: Vec<u8>,
    /// The payload without emulation prevention.
    pub rbsp: Vec<u8>,
}

/// Model of [`HevcUnit`].
#[verifier::ext_equal]
pub struct HevcUnitModel {
    /// `nal_unit_type`.
    pub nal_unit_type: u8,
    /// `nuh_layer_id`.
    pub nuh_layer_id: u8,
    /// `TemporalId`.
    pub temporal_id: u8,
    /// The payload as coded.
    pub escaped: Seq<u8>,
    /// The payload without emulation prevention.
    pub rbsp: Seq<u8>,
}

impl View for HevcUnit {
    type V = HevcUnitModel;

    open spec fn view(&self) -> HevcUnitModel {
        HevcUnitModel {
            nal_unit_type: self.nal_unit_type,
            nuh_layer_id: self.nuh_layer_id,
            temporal_id: self.temporal_id,
            escaped: self.escaped@,
            rbsp: self.rbsp@,
        }
    }
}

/// The models of a list of units.
pub open spec fn unit_models(v: Seq<HevcUnit>) -> Seq<HevcUnitModel> {
    Seq::new(v.len(), |i: int| v[i]@)
}

impl HevcUnitModel {
    /// The header fields fit the bits of a NAL unit header.
    pub open spec fn fits(self) -> bool {
        self.nal_unit_type < 64 && self.nuh_layer_id < 64 && self.temporal_id < 7
    }

    /// The unit as coded: two header bytes and the payload.
    pub open spec fn coded(self) -> Seq<u8> {
        seq![
            (self.nal_unit_type * 2 + self.nuh_layer_id / 32) as u8,
            (self.nuh_layer_id % 32 * 8 + self.temporal_id + 1) as u8,
        ] + self.escaped
    }
}

/// What an HEVC sequence parameter set says of the picture and its profile.
#[derive(Debug, Clone, Copy)]
pub struct HevcSps {
    /// `general_profile_space`.
    pub profile_space: u8,
    /// `general_tier_flag`.
    pub tier_flag: bool,
    /// `general_profile_idc`.
    pub profile_idc: u8,
    /// `general_level_idc`.
    pub level_idc: u8,
    /// `chroma_format_idc`.
    pub chroma_format_idc: u8,
    /// `bit_depth_luma_minus8`.
    pub bit_depth_luma_minus8: u8,
    /// `bit_depth_chroma_minus8`.
    pub bit_depth_chroma_minus8: u8,
    /// `pic_width_in_luma_samples`.
    pub width: u32,
    /// `pic_height_in_luma_samples`.
    pub height: u32,
    /// `conf_win_left_offset`.
    pub left: u32,
    /// `conf_win_right_offset`.
    pub right: u32,
    /// `conf_win_top_offset`.
    pub top: u32,
    /// `conf_win_bottom_offset`.
    pub bottom: u32,
}

/// The first start code at or after `p`: where it begins, `00 00 01` or
/// `00 00 00 01`, and where it ends.
pub open spec fn hevc_start_code(s: Seq<u8>, p: int) -> Option<(int, int)>
    decreases s.len() - p,
{
    if p + 2 < s.len() {
        if s[p] == 0 && s[p + 1] == 0 && s[p + 2] == 1 {
            Some((p, p + 3))
        } else if s[p] == 0 && s[p + 1] == 0 && s[p + 2] == 0 && p + 3 < s.len() && s[p + 3] == 1 {
            Some((p, p + 4))
        } else {
            hevc_start_code(s, p + 1)
        }
    } else {
        None
    }
}

/// What stands between the start codes of a byte stream from `p` on.
pub open spec fn hevc_stream_units(s: Seq<u8>, p: int) -> Seq<Seq<u8>>
    decreases s.len() - p,
    via hevc_stream_units_shrink
{
    match hevc_start_code(s, p) {
        None => Seq::empty(),
        Some((_, a)) => {
            let e = match hevc_start_code(s, a) {
                Some((n, _)) => n,
                None => s.len() as int,
            };
            seq![s.subrange(a, e)] + hevc_stream_units(s, e)
        },
    }
}

proof fn lemma_hevc_start_code(s: Seq<u8>, p: int)
    ensures
        hevc_start_code(s, p) matches Some((a, b)) ==> p <= a < b <= s.len(),
    decreases s.len() - p,
{
    if p + 2 < s.len() {
        lemma_hevc_start_code(s, p + 1);
    }
}

#[via_fn]
proof fn hevc_stream_units_shrink(s: Seq<u8>, p: int) {
    lemma_hevc_start_code(s, p);
    if let Some((_, a)) = hevc_start_code(s, p) {
        lemma_hevc_start_code(s, a);
    }
}

/// The unit of what stands behind a start code: two header bytes and the payload, as
/// coded and without emulation prevention. `None` when it is shorter, its first bit
/// is set or its temporal id is missing.
pub open spec fn hevc_unit_of(coded: Seq<u8>) -> Option<HevcUnitModel> {
    let u = unescaped(coded);
    if u.len() < 2 || u[0] >= 128 || u[1] % 8 == 0 {
        None
    } else {
        Some(
            HevcUnitModel {
                nal_unit_type: u[0] / 2,
                nuh_layer_id: (u[0] % 2 * 32 + u[1] / 8) as u8,
                temporal_id: (u[1] % 8 - 1) as u8,
                escaped: coded.skip(2),
                rbsp: u.skip(2),
            },
        )
    }
}

/// The NAL units of an Annex B byte stream; `None` when it has no start code or a unit
/// without a valid header.
pub open spec fn hevc_units(stream: Seq<u8>) -> Option<Seq<HevcUnitModel>> {
    let coded = hevc_stream_units(stream, 0);
    if coded.len() == 0 || exists|i: int|
        0 <= i < coded.len() && hevc_unit_of(#[trigger] coded[i]) is None {
        None
    } else {
        Some(Seq::new(coded.len(), |i: int| hevc_unit_of(coded[i])->0))
    }
}

/// The header fields of a unit come from a six-bit, a six-bit and a nonzero three-bit
/// field.
proof fn lemma_units_fit(stream: Seq<u8>)
    ensures
        hevc_units(stream) matches Some(v) ==> forall|i: int|
            0 <= i < v.len() ==> (#[trigger] v[i]).fits(),
{
    if let Some(v) = hevc_units(stream) {
        let coded = hevc_stream_units(stream, 0);
        assert forall|i: int| 0 <= i < v.len() implies (#[trigger] v[i]).fits() by {
            assert(hevc_unit_of(coded[i]) is Some);
        }
    }
}

/// `oxideav_h265::collect_nal_units`: the units of an Annex B byte stream, or a refusal
/// where it has no start code or a unit has no valid header.
#[verifier::external_body]
fn split_hevc(stream: &[u8]) -> (r: core::result::Result<Vec<HevcUnit>, oxideav_h265::NalError>)
    ensures
        match r {
            Ok(v) => hevc_units(stream@) == Some(unit_models(v@)),
            Err(_) => hevc_units(stream@) is None,
        },
{
    let convert = |u: oxideav_h265::NalUnit| HevcUnit {
        nal_unit_type: u.header.nal_unit_type,
        nuh_layer_id: u.header.nuh_layer_id,
        temporal_id: u.header.temporal_id,
        escaped: u.escaped,
        rbsp: u.rbsp,
    };
    Ok(oxideav_h265::collect_nal_units(stream)?.into_iter().map(convert).collect())
}

/// The sequence parameter set `oxideav_h265::SeqParameterSet::parse` reads from
/// a payload, `None` when it refuses the payload.
pub uninterp spec fn hevc_sps_of(rbsp: Seq<u8>) -> Option<HevcSps>;

/// `oxideav_h265::SeqParameterSet::parse`: the fields of a sequence parameter
/// set, or a refusal; both depend on the payload alone.
#[verifier::external_body]
fn parse_hevc_sps(rbsp: &[u8]) -> (r: core::result::Result<HevcSps, oxideav_h265::SpsError>)
    ensures
        match r {
            Ok(s) => hevc_sps_of(rbsp@) == Some(s),
            Err(_) => hevc_sps_of(rbsp@) is None,
        },
{
    oxideav_h265::SeqParameterSet::parse(rbsp).map(|s| HevcSps {
        profile_space: s.ptl.general_profile_space,
        tier_flag: s.ptl.general_tier_flag,
        profile_idc: s.ptl.general_profile_idc,
        level_idc: s.ptl.general_level_idc,
        chroma_format_idc: s.chroma_format_idc,
        bit_depth_luma_minus8: s.bit_depth_luma_minus8,
        bit_depth_chroma_minus8: s.bit_depth_chroma_minus8,
        width: s.pic_width_in_luma_samples,
        height: s.pic_height_in_luma_samples,
        left: s.conformance_window.left_offset,
        right: s.conformance_window.right_offset,
        top: s.conformance_window.top_offset,
        bottom: s.conformance_window.bottom_offset,
    })
}

/// The units of type `t`, as coded.
pub open spec fn typed_units(units: Seq<HevcUnitModel>, t: u8) -> Seq<Seq<u8>>
    decreases units.len(),
{
    if units.len() == 0 {
        Seq::empty()
    } else if units.last().nal_unit_type == t {
        typed_units(units.drop_last(), t).push(units.last().coded())
    } else {
        typed_units(units.drop_last(), t)
    }
}

/// The coded slices: the units of a type below 32, as coded.
pub open spec fn slice_units(units: Seq<HevcUnitModel>) -> Seq<Seq<u8>>
    decreases units.len(),
{
    if units.len() == 0 {
        Seq::empty()
    } else if units.last().nal_unit_type < 32 {
        slice_units(units.drop_last()).push(units.last().coded())
    } else {
        slice_units(units.drop_last())
    }
}

/// The record array of the units of type `t`; none when there are no units.
pub open spec fn array_of(units: Seq<HevcUnitModel>, t: u8) -> Seq<NalArrayModel> {
    let v = typed_units(units, t);
    if v.len() == 0 {
        Seq::empty()
    } else {
        seq![NalArrayModel { complete: true, reserved_bit: false, nal_unit_type: t, nal_units: v }]
    }
}

/// `general_profile_compatibility_flags` of a profile: its own bit (bit 31 ↔
/// profile 0), plus the Main flag for Main Still Picture and Main 10 and the
/// Main 10 flag for Main Still Picture (H.265 A.3.2 / A.3.3 compatibility
/// rules).
pub open spec fn compat_flags(profile_idc: u8) -> int {
    (if profile_idc < 32 {
        pow2((31 - profile_idc) as nat) as int
    } else {
        0
    }) + (if profile_idc == 2 || profile_idc == 3 {
        0x4000_0000int
    } else {
        0
    }) + (if profile_idc == 3 {
        0x2000_0000int
    } else {
        0
    })
}

/// `general_profile_compatibility_flags` with the bit of `profile_idc`
/// set (bit 31 ↔ profile 0), plus the Main flag for Main Still Picture
/// and Main 10 (H.265 A.3.2 / A.3.3 compatibility rules).
pub fn profile_compat_flags(profile_idc: u8) -> (r: u32)
    ensures
        r == compat_flags(profile_idc),
{
    let mut f: u64 = 0;
    if profile_idc < 32 {
        f = two_to(31 - profile_idc);
        proof {
            crate::image::lemma_two_to_bound(31);
            vstd::arithmetic::power2::lemma2_to64();
            if profile_idc == 2 {
                assert(pow2(29) == 0x2000_0000);
            } else if profile_idc == 3 {
                assert(pow2(28) == 0x1000_0000);
            }
        }
    }
    if profile_idc == 3 || profile_idc == 2 {
        f = f + 0x4000_0000;
    }
    if profile_idc == 3 {
        f = f + 0x2000_0000;
    }
    f as u32
}

/// The record of an access unit.
pub open spec fn hevc_record(units: Seq<HevcUnitModel>, sps: HevcSps) -> HevcModel {
    let c = HevcModel {
        configuration_version: 1,
        general_profile_space: sps.profile_space,
        general_tier_flag: sps.tier_flag,
        general_profile_idc: sps.profile_idc,
        general_profile_compatibility_flags: compat_flags(sps.profile_idc) as u32,
        general_constraint_indicator_flags: 0,
        general_level_idc: sps.level_idc,
        min_spatial_segmentation_idc: 0,
        parallelism_type: 0,
        chroma_format_idc: sps.chroma_format_idc,
        bit_depth_luma_minus8: sps.bit_depth_luma_minus8,
        bit_depth_chroma_minus8: sps.bit_depth_chroma_minus8,
        avg_frame_rate: 0,
        constant_frame_rate: 0,
        num_temporal_layers: 1,
        temporal_id_nested: true,
        length_size: 4,
        arrays: array_of(units, NAL_VPS) + array_of(units, NAL_SPS) + array_of(units, NAL_PPS),
        raw: Seq::empty(),
    };
    HevcModel { raw: c.bytes(), ..c }
}

/// How many luma samples a chroma sample covers in each direction.
pub open spec fn chroma_units(idc: int) -> (int, int) {
    if idc == 1 {
        (2, 2)
    } else if idc == 2 {
        (2, 1)
    } else {
        (1, 1)
    }
}

/// The cropped picture size, `None` when the window is larger than the
/// picture.
pub open spec fn hevc_size(sps: HevcSps) -> Option<(u32, u32)> {
    let (ux, uy) = chroma_units(sps.chroma_format_idc as int);
    let w = sps.width - ux * (sps.left + sps.right);
    let h = sps.height - uy * (sps.top + sps.bottom);
    if w < 0 || h < 0 {
        None
    } else {
        Some((w as u32, h as u32))
    }
}

/// The layout of the coded picture.
pub open spec fn hevc_sps_layout(sps: HevcSps) -> Outcome<HeifPixelFormat> {
    let chroma = match Chroma::of_idc(sps.chroma_format_idc as int) {
        Some(c) => c,
        None => Chroma::Yuv420,
    };
    if sps.bit_depth_luma_minus8 > 8 {
        Err(ErrorKind::Unsupported)
    } else {
        pixel_format(chroma, (sps.bit_depth_luma_minus8 + 8) as u8, false)
    }
}

/// What an access unit gives: the record, the item data, the picture size and
/// the layout.
pub struct HevcItemModel {
    /// The `hvcC` record.
    pub config: HevcModel,
    /// The item data.
    pub data: Seq<u8>,
    /// Picture size.
    pub size: (u32, u32),
    /// Sample layout.
    pub layout: HeifPixelFormat,
}

/// The item of an access unit whose first sequence parameter set is `sps`.
pub open spec fn hevc_item_of(units: Seq<HevcUnitModel>, sps: HevcSps) -> Outcome<HevcItemModel> {
    let slices = slice_units(units);
    if slices.len() == 0 || !units_fit(slices, 4) {
        Err(ErrorKind::Invalid)
    } else {
        match hevc_size(sps) {
            None => Err(ErrorKind::Invalid),
            Some(size) => match hevc_sps_layout(sps) {
                Err(e) => Err(e),
                Ok(layout) => Ok(
                    HevcItemModel {
                        config: hevc_record(units, sps),
                        data: joined(slices, 4),
                        size,
                        layout,
                    },
                ),
            },
        }
    }
}

/// What contracts say of an HEVC item.
pub open spec fn hevc_item(
    r: Result<(HevcConfig, Vec<u8>, u32, u32, HeifPixelFormat)>,
) -> Outcome<HevcItemModel> {
    match r {
        Err(e) => Err(e.kind()),
        Ok(i) => Ok(HevcItemModel { config: i.0@, data: i.1@, size: (i.2, i.3), layout: i.4 }),
    }
}

fn coded_unit(u: &HevcUnit) -> (r: Vec<u8>)
    requires
        u@.fits(),
    ensures
        r@ == u@.coded(),
{
    let mut v: Vec<u8> = Vec::new();
    v.push(u.nal_unit_type * 2 + u.nuh_layer_id / 32);
    v.push(u.nuh_layer_id % 32 * 8 + u.temporal_id + 1);
    crate::bytes::put(&mut v, u.escaped.as_slice());
    assert(v@ =~= u@.coded());
    v
}

fn collect_typed(units: &[HevcUnit], t: u8) -> (r: Vec<Vec<u8>>)
    requires
        forall|i: int| 0 <= i < units@.len() ==> (#[trigger] units@[i])@.fits(),
    ensures
        lists(r@) == typed_units(unit_models(units@), t),
{
    let ghost all = unit_models(units@);
    let mut out: Vec<Vec<u8>> = Vec::new();
    assert(lists(out@) =~= typed_units(all.take(0), t));
    for i in 0..units.len()
        invariant
            all == unit_models(units@),
            forall|k: int| 0 <= k < units@.len() ==> (#[trigger] units@[k])@.fits(),
            lists(out@) == typed_units(all.take(i as int), t),
    {
        let ghost before = lists(out@);
        proof {
            assert(all.take(i + 1).drop_last() =~= all.take(i as int));
            assert(all[i as int] == units@[i as int]@);
        }
        if units[i].nal_unit_type == t {
            let c: Vec<u8> = coded_unit(&units[i]);
            out.push(c);
            assert(lists(out@) =~= before.push(c@));
        }
    }
    assert(all.take(all.len() as int) =~= all);
    out
}

fn collect_slices(units: &[HevcUnit]) -> (r: Vec<Vec<u8>>)
    requires
        forall|i: int| 0 <= i < units@.len() ==> (#[trigger] units@[i])@.fits(),
    ensures
        lists(r@) == slice_units(unit_models(units@)),
{
    let ghost all = unit_models(units@);
    let mut out: Vec<Vec<u8>> = Vec::new();
    assert(lists(out@) =~= slice_units(all.take(0)));
    for i in 0..units.len()
        invariant
            all == unit_models(units@),
            forall|k: int| 0 <= k < units@.len() ==> (#[trigger] units@[k])@.fits(),
            lists(out@) == slice_units(all.take(i as int)),
    {
        let ghost before = lists(out@);
        proof {
            assert(all.take(i + 1).drop_last() =~= all.take(i as int));
            assert(all[i as int] == units@[i as int]@);
        }
        if units[i].nal_unit_type < 32 {
            let c: Vec<u8> = coded_unit(&units[i]);
            out.push(c);
            assert(lists(out@) =~= before.push(c@));
        }
    }
    assert(all.take(all.len() as int) =~= all);
    out
}

fn push_array(arrays: &mut Vec<NalArray>, units: &[HevcUnit], t: u8)
    requires
        forall|i: int| 0 <= i < units@.len() ==> (#[trigger] units@[i])@.fits(),
    ensures
        final(arrays).deep_view() == old(arrays).deep_view() + array_of(unit_models(units@), t),
{
    let ghost before = arrays.deep_view();
    let v: Vec<Vec<u8>> = collect_typed(units, t);
    if v.len() > 0 {
        let a: NalArray = NalArray {
            complete: true,
            reserved_bit: false,
            nal_unit_type: t,
            nal_units: v,
        };
        arrays.push(a);
        proof {
            assert(a@.nal_units =~= typed_units(unit_models(units@), t));
        }
    }
    assert(arrays.deep_view() =~= before + array_of(unit_models(units@), t));
}

pub(crate) fn slices_of(v: &Vec<Vec<u8>>) -> (r: Vec<&[u8]>)
    ensures
        views(r@) == lists(v@),
{
    let mut out: Vec<&[u8]> = Vec::new();
    for i in 0..v.len()
        invariant
            out@.len() == i,
            forall|k: int| 0 <= k < i ==> (#[trigger] out@[k])@ == v@[k]@,
    {
        out.push(v[i].as_slice());
    }
    assert(views(out@) =~= lists(v@));
    out
}

fn window_size(sps: &HevcSps) -> (r: Option<(u32, u32)>)
    ensures
        r == hevc_size(*sps),
{
    let across: u64 = sps.left as u64 + sps.right as u64;
    let down: u64 = sps.top as u64 + sps.bottom as u64;
    let (crop_w, crop_h): (u64, u64) = if sps.chroma_format_idc == 1 {
        (2 * across, 2 * down)
    } else if sps.chroma_format_idc == 2 {
        (2 * across, down)
    } else {
        (across, down)
    };
    proof {
        let (ux, uy) = chroma_units(sps.chroma_format_idc as int);
        assert(crop_w == ux * across && crop_h == uy * down) by {
            if sps.chroma_format_idc == 1 {
                assert(ux == 2 && uy == 2);
            } else if sps.chroma_format_idc == 2 {
                assert(ux == 2 && uy == 1);
            } else {
                assert(ux == 1 && uy == 1);
            }
        }
    }
    if crop_w > sps.width as u64 || crop_h > sps.height as u64 {
        None
    } else {
        Some(((sps.width as u64 - crop_w) as u32, (sps.height as u64 - crop_h) as u32))
    }
}

/// The item of an access unit: its NAL units, and its first sequence parameter
/// set.
pub fn hevc_item_from_units(units: &[HevcUnit], sps: &HevcSps) -> (r: Result<
    (HevcConfig, Vec<u8>, u32, u32, HeifPixelFormat),
>)
    requires
        forall|i: int| 0 <= i < units@.len() ==> (#[trigger] units@[i])@.fits(),
    ensures
        hevc_item(r) == hevc_item_of(unit_models(units@), *sps),
{
    let vcl: Vec<Vec<u8>> = collect_slices(units);
    if vcl.len() == 0 {
        return Err(HeifError::invalid("HEVC access unit without VCL NAL units"));
    }
    let mut arrays: Vec<NalArray> = Vec::new();
    assert(arrays.deep_view() =~= Seq::empty());
    push_array(&mut arrays, units, NAL_VPS);
    push_array(&mut arrays, units, NAL_SPS);
    push_array(&mut arrays, units, NAL_PPS);
    let mut cfg: HevcConfig = HevcConfig {
        configuration_version: 1,
        general_profile_space: sps.profile_space,
        general_tier_flag: sps.tier_flag,
        general_profile_idc: sps.profile_idc,
        general_profile_compatibility_flags: profile_compat_flags(sps.profile_idc),
        general_constraint_indicator_flags: 0,
        general_level_idc: sps.level_idc,
        min_spatial_segmentation_idc: 0,
        parallelism_type: 0,
        chroma_format_idc: sps.chroma_format_idc,
        bit_depth_luma_minus8: sps.bit_depth_luma_minus8,
        bit_depth_chroma_minus8: sps.bit_depth_chroma_minus8,
        avg_frame_rate: 0,
        constant_frame_rate: 0,
        num_temporal_layers: 1,
        temporal_id_nested: true,
        length_size: 4,
        arrays,
        raw: Vec::new(),
    };
    assert(cfg@ =~= (HevcModel { raw: Seq::empty(), ..hevc_record(unit_models(units@), *sps) }));
    cfg.raw = cfg.serialize();
    assert(cfg@ =~= hevc_record(unit_models(units@), *sps));
    let refs: Vec<&[u8]> = slices_of(&vcl);
    let data: Vec<u8> = join_length_prefixed(refs.as_slice(), 4)?;
    let (width, height): (u32, u32) = match window_size(sps) {
        Some(size) => size,
        None => {
            return Err(HeifError::invalid("HEVC SPS window larger than the picture"));
        },
    };
    let chroma: Chroma = match Chroma::from_idc(sps.chroma_format_idc) {
        Some(c) => c,
        None => Chroma::Yuv420,
    };
    if sps.bit_depth_luma_minus8 > 8 {
        return Err(HeifError::unsupported("HEVC SPS bit depth"));
    }
    let layout: HeifPixelFormat = HeifPixelFormat::new(chroma, sps.bit_depth_luma_minus8 + 8, false)?;
    Ok((cfg, data, width, height, layout))
}

/// The first sequence parameter set of the units from `i` on.
pub open spec fn first_sps(units: Seq<HevcUnitModel>, i: int) -> Option<Seq<u8>>
    decreases units.len() - i,
{
    if 0 <= i < units.len() {
        if units[i].nal_unit_type == NAL_SPS {
            Some(units[i].rbsp)
        } else {
            first_sps(units, i + 1)
        }
    } else {
        None
    }
}

/// The item of an Annex B access unit.
pub open spec fn hevc_item_in(stream: Seq<u8>) -> Outcome<HevcItemModel> {
    match hevc_units(stream) {
        None => Err(ErrorKind::Invalid),
        Some(units) => match first_sps(units, 0) {
            None => Err(ErrorKind::Invalid),
            Some(rbsp) => match hevc_sps_of(rbsp) {
                None => Err(ErrorKind::Invalid),
                Some(sps) => hevc_item_of(units, sps),
            },
        },
    }
}

fn find_sps<'a>(units: &'a [HevcUnit]) -> (r: Option<&'a HevcUnit>)
    ensures
        match r {
            Some(u) => first_sps(unit_models(units@), 0) == Some(u.rbsp@),
            None => first_sps(unit_models(units@), 0) is None,
        },
{
    let ghost all = unit_models(units@);
    let ghost goal = first_sps(all, 0);
    for i in 0..units.len()
        invariant
            all == unit_models(units@),
            goal == first_sps(all, 0),
            goal == first_sps(all, i as int),
    {
        assert(all[i as int] == units@[i as int]@);
        if units[i].nal_unit_type == NAL_SPS {
            return Some(&units[i]);
        }
    }
    None
}

/// Build an `hvcC` record + `HEVCItemData` from an Annex B access unit.
pub fn hevc_item_from_annex_b(annex_b: &[u8]) -> (r: Result<
    (HevcConfig, Vec<u8>, u32, u32, HeifPixelFormat),
>)
    ensures
        hevc_item(r) == hevc_item_in(annex_b@),
{
    match split_hevc(annex_b) {
        Err(_) => Err(HeifError::invalid("HEVC Annex B split")),
        Ok(units) => {
            proof {
                lemma_units_fit(annex_b@);
                assert forall|i: int| 0 <= i < units@.len() implies (
                #[trigger] units@[i])@.fits() by {
                    assert(unit_models(units@)[i].fits());
                }
            }
            match find_sps(units.as_slice()) {
                None => Err(HeifError::invalid("HEVC access unit without an SPS")),
                Some(u) => match parse_hevc_sps(u.rbsp.as_slice()) {
                    Err(_) => Err(HeifError::invalid("SPS parse")),
                    Ok(sps) => hevc_item_from_units(units.as_slice(), &sps),
                },
            }
        },
    }
}

} // verus!
