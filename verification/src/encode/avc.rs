//! Annex B AVC access units → items: the parameter sets move into the `avcC`
//! record, the coded slices are re-framed with 4-byte length prefixes (HEIF
//! E.2.2).
use crate::avcc::{has_trailer, AvcConfig, AvcModel};
use crate::bytes::{copy_of, lists, views};
use crate::encode::annexb::chroma_units;
use crate::error::{ErrorKind, HeifError, Outcome, Result};
use crate::hvcc::{join_length_prefixed, joined, units_fit};
use crate::image::{coded_layout, layout_of_codes, HeifPixelFormat};
use vstd::prelude::*;

verus! {

/// A refusal of `oxideav_h264` to parse a NAL unit.
#[verifier::external_type_specification]
#[verifier::external_body]
pub struct ExAvcNalError(oxideav_h264::nal::NalError);

/// A refusal of `oxideav_h264` to parse a sequence parameter set.
#[verifier::external_type_specification]
#[verifier::external_body]
pub struct ExAvcSpsError(oxideav_h264::sps::SpsError);

/// The first start code prefix (`00 00 01`) at or after `p`.
pub open spec fn start_code_from(s: Seq<u8>, p: int) -> Option<int>
    decreases s.len() - p,
{
    if p + 2 < s.len() {
        if s[p] == 0 && s[p + 1] == 0 && s[p + 2] == 1 {
            Some(p)
        } else {
            start_code_from(s, p + 1)
        }
    } else {
        None
    }
}

/// The end of `s[a..e]` without its trailing zeros.
pub open spec fn trimmed_end(s: Seq<u8>, a: int, e: int) -> int
    decreases e - a,
{
    if e > a && s[e - 1] == 0 {
        trimmed_end(s, a, e - 1)
    } else {
        e
    }
}

/// The NAL units of a byte stream from `p` on: what stands between the start
/// codes, without trailing zeros.
pub open spec fn stream_units(s: Seq<u8>, p: int) -> Seq<Seq<u8>>
    decreases s.len() - p,
    via stream_units_shrink
{
    match start_code_from(s, p) {
        None => Seq::empty(),
        Some(q) => {
            let a = q + 3;
            let e = match start_code_from(s, a) {
                Some(n) => n,
                None => s.len() as int,
            };
            seq![s.subrange(a, trimmed_end(s, a, e))] + stream_units(s, e)
        },
    }
}

proof fn lemma_start_code(s: Seq<u8>, p: int)
    ensures
        start_code_from(s, p) matches Some(q) ==> p <= q && q + 2 < s.len(),
    decreases s.len() - p,
{
    if p + 2 < s.len() {
        lemma_start_code(s, p + 1);
    }
}

#[via_fn]
proof fn stream_units_shrink(s: Seq<u8>, p: int) {
    lemma_start_code(s, p);
    if let Some(q) = start_code_from(s, p) {
        lemma_start_code(s, q + 3);
    }
}

/// `oxideav_h264::nal::AnnexBSplitter`: the NAL units of a byte stream, without
/// their start codes and without trailing zeros.
#[verifier::external_body]
fn split_avc<'a>(stream: &'a [u8]) -> (r: Vec<&'a [u8]>)
    ensures
        views(r@) == stream_units(stream@, 0),
{
    oxideav_h264::nal::AnnexBSplitter::new(stream).collect()
}

/// Bytes without emulation prevention: the 3 of every `00 00 03` is left out.
pub open spec fn unescaped(s: Seq<u8>) -> Seq<u8>
    decreases s.len(),
{
    if s.len() == 0 {
        s
    } else if s.len() > 2 && s[0] == 0 && s[1] == 0 && s[2] == 3 {
        seq![0u8, 0u8] + unescaped(s.skip(3))
    } else {
        seq![s[0]] + unescaped(s.skip(1))
    }
}

/// The length of the header of a NAL unit: one byte, and behind it, for prefix units
/// and slice extensions, three more, or two for a depth slice whose first bit is set;
/// `None` when the unit is shorter, or its own first bit is set.
pub open spec fn header_length(unit: Seq<u8>) -> Option<int> {
    let t = unit[0] % 32;
    let n = if t == 14 || t == 20 {
        4int
    } else if t == 21 {
        if unit.len() > 1 && unit[1] >= 128 {
            3
        } else {
            4
        }
    } else {
        1
    };
    if unit.len() == 0 || unit[0] >= 128 || unit.len() < n {
        None
    } else {
        Some(n)
    }
}

/// The payload of a NAL unit behind its header, without emulation prevention.
pub open spec fn avc_payload(unit: Seq<u8>) -> Option<Seq<u8>> {
    match header_length(unit) {
        None => None,
        Some(n) => Some(unescaped(unit.skip(n))),
    }
}

/// `oxideav_h264::nal::parse_nal_unit`: the payload of a NAL unit behind its header,
/// without emulation prevention, or a refusal of a unit that is too short for its
/// header or sets the bit that must be zero.
#[verifier::external_body]
fn parse_avc_unit(unit: &[u8]) -> (r: core::result::Result<Vec<u8>, oxideav_h264::nal::NalError>)
    ensures
        match r {
            Ok(v) => avc_payload(unit@) == Some(v@),
            Err(_) => avc_payload(unit@) is None,
        },
{
    oxideav_h264::nal::parse_nal_unit(unit).map(|u| u.rbsp.into_owned())
}

/// What an AVC sequence parameter set says of the picture and its profile.
#[derive(Debug, Clone, Copy)]
pub struct AvcSps {
    /// `profile_idc`.
    pub profile_idc: u8,
    /// `level_idc`.
    pub level_idc: u8,
    /// `chroma_format_idc`.
    pub chroma_format_idc: u32,
    /// `separate_colour_plane_flag`.
    pub separate_planes: bool,
    /// `bit_depth_luma_minus8`.
    pub bit_depth_luma_minus8: u32,
    /// `bit_depth_chroma_minus8`.
    pub bit_depth_chroma_minus8: u32,
    /// `pic_width_in_mbs_minus1`.
    pub width_in_mbs_minus1: u32,
    /// `pic_height_in_map_units_minus1`.
    pub height_in_units_minus1: u32,
    /// `frame_mbs_only_flag`.
    pub frame_mbs_only: bool,
    /// The cropping offsets: left, right, top, bottom.
    pub cropping: Option<(u32, u32, u32, u32)>,
}

/// The sequence parameter set `oxideav_h264::sps::Sps::parse` reads from a
/// payload, `None` when it refuses the payload.
pub uninterp spec fn avc_sps_of(rbsp: Seq<u8>) -> Option<AvcSps>;

/// `oxideav_h264::sps::Sps::parse`: the fields of a sequence parameter set, or a
/// refusal; both depend on the payload alone. `chroma_format_idc` is at most 3
/// and the depths at most 6 bits above 8.
#[verifier::external_body]
fn parse_avc_sps(rbsp: &[u8]) -> (r: core::result::Result<AvcSps, oxideav_h264::sps::SpsError>)
    ensures
        match r {
            Ok(s) => avc_sps_of(rbsp@) == Some(s) && s.fits(),
            Err(_) => avc_sps_of(rbsp@) is None,
        },
{
    oxideav_h264::sps::Sps::parse(rbsp).map(|s| AvcSps {
        profile_idc: s.profile_idc,
        level_idc: s.level_idc,
        chroma_format_idc: s.chroma_format_idc,
        separate_planes: s.separate_colour_plane_flag,
        bit_depth_luma_minus8: s.bit_depth_luma_minus8,
        bit_depth_chroma_minus8: s.bit_depth_chroma_minus8,
        width_in_mbs_minus1: s.pic_width_in_mbs_minus1,
        height_in_units_minus1: s.pic_height_in_map_units_minus1,
        frame_mbs_only: s.frame_mbs_only_flag,
        cropping: s.frame_cropping.map(|c| (c.left, c.right, c.top, c.bottom)),
    })
}

impl AvcSps {
    /// The chroma format and the depths are in range.
    pub open spec fn fits(self) -> bool {
        &&& self.chroma_format_idc <= 3
        &&& self.bit_depth_luma_minus8 <= 6
        &&& self.bit_depth_chroma_minus8 <= 6
    }

    /// The coded size, in luma samples: the map-unit height counts twice for
    /// field coding.
    pub open spec fn coded_size(self) -> (int, int) {
        let fields: int = if self.frame_mbs_only {
            1
        } else {
            2
        };
        ((self.width_in_mbs_minus1 + 1) * 16, fields * (self.height_in_units_minus1 + 1) * 16)
    }

    /// How many luma samples a cropping offset counts for in each direction
    /// (§7.4.2.1.1): `CropUnitX` / `CropUnitY` from the chroma format (1 for
    /// 4:0:0 and separate planes).
    pub open spec fn crop_units(self) -> (int, int) {
        let (sub_w, sub_h) = chroma_units(
            if self.separate_planes {
                0
            } else {
                self.chroma_format_idc as int
            },
        );
        (
            sub_w,
            if self.frame_mbs_only {
                sub_h
            } else {
                2 * sub_h
            },
        )
    }

    /// The cropped picture size, `None` when the cropping is larger than the
    /// picture or the size does not fit.
    pub open spec fn size(self) -> Option<(u32, u32)> {
        let (w, h) = self.coded_size();
        let (ux, uy) = self.crop_units();
        let (cw, ch) = match self.cropping {
            Some((l, r, t, b)) => (ux * (l + r), uy * (t + b)),
            None => (0, 0),
        };
        if w > u32::MAX || h > u32::MAX || cw > w || ch > h {
            None
        } else {
            Some(((w - cw) as u32, (h - ch) as u32))
        }
    }
}

/// The type of a NAL unit, `None` for an empty one.
pub open spec fn unit_type(u: Seq<u8>) -> Option<int> {
    if u.len() == 0 {
        None
    } else {
        Some(u[0] as int % 32)
    }
}

/// The units of a type in `lo..=hi`.
pub open spec fn units_between(units: Seq<Seq<u8>>, lo: int, hi: int) -> Seq<Seq<u8>>
    decreases units.len(),
{
    if units.len() == 0 {
        Seq::empty()
    } else {
        let rest = units_between(units.drop_last(), lo, hi);
        match unit_type(units.last()) {
            Some(t) => if lo <= t <= hi {
                rest.push(units.last())
            } else {
                rest
            },
            None => rest,
        }
    }
}

/// The record of an access unit.
pub open spec fn avc_record(units: Seq<Seq<u8>>, sps: AvcSps) -> AvcModel {
    let sets = units_between(units, 7, 7);
    let trailer = has_trailer(sps.profile_idc);
    let c = AvcModel {
        configuration_version: 1,
        profile_idc: sps.profile_idc,
        profile_compatibility: if sets[0].len() > 2 {
            sets[0][2]
        } else {
            0
        },
        level_idc: sps.level_idc,
        length_size: 4,
        sps: sets,
        pps: units_between(units, 8, 8),
        chroma_format: if trailer {
            Some(sps.chroma_format_idc as u8)
        } else {
            None
        },
        bit_depth_luma_minus8: if trailer {
            Some(sps.bit_depth_luma_minus8 as u8)
        } else {
            None
        },
        bit_depth_chroma_minus8: if trailer {
            Some(sps.bit_depth_chroma_minus8 as u8)
        } else {
            None
        },
        sps_ext: Seq::empty(),
        raw: Seq::empty(),
    };
    AvcModel { raw: c.bytes(), ..c }
}

/// What an access unit gives: the record, the item data, the picture size and
/// the layout.
pub struct AvcItemModel {
    /// The `avcC` record.
    pub config: AvcModel,
    /// The item data.
    pub data: Seq<u8>,
    /// Picture size.
    pub size: (u32, u32),
    /// Sample layout.
    pub layout: HeifPixelFormat,
}

/// The item of an access unit whose first sequence parameter set is `sps`.
pub open spec fn avc_item_of(units: Seq<Seq<u8>>, sps: AvcSps) -> Outcome<AvcItemModel> {
    let slices = units_between(units, 1, 5);
    if slices.len() == 0 || units_between(units, 7, 7).len() == 0 {
        Err(ErrorKind::Invalid)
    } else {
        match sps.size() {
            None => Err(ErrorKind::Invalid),
            Some(size) => match coded_layout(
                sps.chroma_format_idc as u8,
                sps.bit_depth_luma_minus8 as u8,
            ) {
                Err(e) => Err(e),
                Ok(layout) => if !units_fit(slices, 4) {
                    Err(ErrorKind::Invalid)
                } else {
                    Ok(
                        AvcItemModel {
                            config: avc_record(units, sps),
                            data: joined(slices, 4),
                            size,
                            layout,
                        },
                    )
                },
            },
        }
    }
}

/// What contracts say of an AVC item.
pub open spec fn avc_item(
    r: Result<(AvcConfig, Vec<u8>, u32, u32, HeifPixelFormat)>,
) -> Outcome<AvcItemModel> {
    match r {
        Err(e) => Err(e.kind()),
        Ok(i) => Ok(AvcItemModel { config: i.0@, data: i.1@, size: (i.2, i.3), layout: i.4 }),
    }
}

fn collect_between<'a>(units: &[&'a [u8]], lo: u8, hi: u8) -> (r: Vec<&'a [u8]>)
    ensures
        views(r@) == units_between(views(units@), lo as int, hi as int),
{
    let ghost all = views(units@);
    let mut out: Vec<&'a [u8]> = Vec::new();
    assert(views(out@) =~= units_between(all.take(0), lo as int, hi as int));
    for i in 0..units.len()
        invariant
            all == views(units@),
            views(out@) == units_between(all.take(i as int), lo as int, hi as int),
    {
        let ghost before = views(out@);
        let u: &'a [u8] = units[i];
        proof {
            assert(all.take(i + 1).drop_last() =~= all.take(i as int));
            assert(all.take(i + 1).last() == u@);
        }
        if u.len() > 0 && lo <= u[0] % 32 && u[0] % 32 <= hi {
            out.push(u);
            assert(views(out@) =~= before.push(u@));
        }
    }
    assert(all.take(all.len() as int) =~= all);
    out
}

fn owned(v: &Vec<&[u8]>) -> (r: Vec<Vec<u8>>)
    ensures
        lists(r@) == views(v@),
{
    let mut out: Vec<Vec<u8>> = Vec::new();
    for i in 0..v.len()
        invariant
            out@.len() == i,
            forall|k: int| 0 <= k < i ==> (#[trigger] out@[k])@ == v@[k]@,
    {
        out.push(copy_of(v[i]));
    }
    assert(lists(out@) =~= views(v@));
    out
}

fn picture_size(sps: &AvcSps) -> (r: Option<(u32, u32)>)
    ensures
        r == sps.size(),
{
    let idc: u32 = if sps.separate_planes {
        0
    } else {
        sps.chroma_format_idc
    };
    let (sub_w, sub_h): (u64, u64) = match idc {
        1 => (2, 2),
        2 => (2, 1),
        _ => (1, 1),
    };
    let w: u64 = (sps.width_in_mbs_minus1 as u64 + 1) * 16;
    let h: u64 = if sps.frame_mbs_only {
        (sps.height_in_units_minus1 as u64 + 1) * 16
    } else {
        2 * (sps.height_in_units_minus1 as u64 + 1) * 16
    };
    let unit_y: u64 = if sps.frame_mbs_only {
        sub_h
    } else {
        2 * sub_h
    };
    let (cw, ch): (u64, u64) = match sps.cropping {
        Some((l, r, t, b)) => (sub_w * (l as u64 + r as u64), unit_y * (t as u64 + b as u64)),
        None => (0, 0),
    };
    if w > u32::MAX as u64 || h > u32::MAX as u64 || cw > w || ch > h {
        None
    } else {
        Some(((w - cw) as u32, (h - ch) as u32))
    }
}

/// The item of an access unit: its NAL units, and its first sequence parameter
/// set; the size is that of the cropped picture (H.264 §7.4.2.1.1).
pub fn avc_item_from_units(units: &[&[u8]], sps: &AvcSps) -> (r: Result<
    (AvcConfig, Vec<u8>, u32, u32, HeifPixelFormat),
>)
    requires
        sps.fits(),
    ensures
        avc_item(r) == avc_item_of(views(units@), *sps),
{
    let vcl: Vec<&[u8]> = collect_between(units, 1, 5);
    let sets: Vec<&[u8]> = collect_between(units, 7, 7);
    if vcl.len() == 0 || sets.len() == 0 {
        return Err(HeifError::invalid("AVC access unit without VCL NAL units"));
    }
    let (w, h): (u32, u32) = match picture_size(sps) {
        Some(s) => s,
        None => {
            return Err(HeifError::invalid("AVC SPS crop larger than the picture"));
        },
    };
    let chroma: u8 = sps.chroma_format_idc as u8;
    let luma: u8 = sps.bit_depth_luma_minus8 as u8;
    let layout: HeifPixelFormat = layout_of_codes(chroma, luma)?;
    let compat: u8 = if sets[0].len() > 2 {
        sets[0][2]
    } else {
        0
    };
    assert(views(sets@)[0] == sets@[0]@);
    let trailer: bool = AvcConfig::has_extension_trailer(sps.profile_idc);
    let pps: Vec<&[u8]> = collect_between(units, 8, 8);
    let mut cfg: AvcConfig = AvcConfig {
        configuration_version: 1,
        profile_idc: sps.profile_idc,
        profile_compatibility: compat,
        level_idc: sps.level_idc,
        length_size: 4,
        sps: owned(&sets),
        pps: owned(&pps),
        chroma_format: if trailer {
            Some(chroma)
        } else {
            None
        },
        bit_depth_luma_minus8: if trailer {
            Some(luma)
        } else {
            None
        },
        bit_depth_chroma_minus8: if trailer {
            Some(sps.bit_depth_chroma_minus8 as u8)
        } else {
            None
        },
        sps_ext: Vec::new(),
        raw: Vec::new(),
    };
    assert(cfg@ =~= (AvcModel { raw: Seq::empty(), ..avc_record(views(units@), *sps) }));
    cfg.raw = cfg.serialize();
    assert(cfg@ =~= avc_record(views(units@), *sps));
    let data: Vec<u8> = join_length_prefixed(vcl.as_slice(), 4)?;
    Ok((cfg, data, w, h, layout))
}

/// The item of an Annex B access unit.
pub open spec fn avc_item_in(stream: Seq<u8>) -> Outcome<AvcItemModel> {
    let units = stream_units(stream, 0);
    let sets = units_between(units, 7, 7);
    if sets.len() == 0 {
        Err(ErrorKind::Invalid)
    } else {
        match avc_payload(sets[0]) {
            None => Err(ErrorKind::Invalid),
            Some(rbsp) => match avc_sps_of(rbsp) {
                None => Err(ErrorKind::Invalid),
                Some(sps) => avc_item_of(units, sps),
            },
        }
    }
}

/// Build an `avcC` record + `AVCItemData` (HEIF E.2.2: length-prefixed
/// NAL units of exactly one access unit) from an Annex B access unit;
/// returns `(record, item data, width, height, layout)` with the size
/// from the SPS (cropped, H.264 §7.4.2.1.1).
pub fn avc_item_from_annex_b(annex_b: &[u8]) -> (r: Result<
    (AvcConfig, Vec<u8>, u32, u32, HeifPixelFormat),
>)
    ensures
        avc_item(r) == avc_item_in(annex_b@),
{
    let units: Vec<&[u8]> = split_avc(annex_b);
    let sets: Vec<&[u8]> = collect_between(units.as_slice(), 7, 7);
    if sets.len() == 0 {
        return Err(HeifError::invalid("AVC access unit without an SPS"));
    }
    assert(views(sets@)[0] == sets@[0]@);
    match parse_avc_unit(sets[0]) {
        Err(_) => Err(HeifError::invalid("AVC NAL parse")),
        Ok(rbsp) => match parse_avc_sps(rbsp.as_slice()) {
            Err(_) => Err(HeifError::invalid("AVC SPS parse")),
            Ok(sps) => avc_item_from_units(units.as_slice(), &sps),
        },
    }
}

} // verus!
