//! Movie and track headers (`mvhd`, `tkhd`, `mdhd`, `hdlr`, `edts`, `tref`) and
//! visual sample entries (`stsd`).
use crate::av1c::{av1_config_of, Av1Config};
use crate::avcc::{avc_config_of, AvcConfig};
use crate::boxes::{
    box_payload, cstr_at, find_box, fourcc_at, fourcc_eq, full_box, header_at, parse_box_header,
    parse_full_box, payload, payload_of, BoxHeader, FourCc, Reader,
};
use crate::bytes::{be16, be32, be64, signed32, signed64, to_i64};
use crate::error::{outcome, plain_outcome, view_outcome, ErrorKind, HeifError, Outcome, Result};
use crate::file::{FileModel, HeifFile};
use crate::hvcc::{hevc_config_of, HevcConfig};
use crate::lhvc::{lhevc_config_of, LhevcConfig};
use crate::meta::parse::{raw_property, to_raw_property};
use crate::meta::{RawProperty, RawPropertyModel};
use crate::props::{property_of, Colr, Property, PropertyModel};
use crate::sequence::groups::{
    csgp_of, parse_csgp, parse_prft, parse_sbgp, parse_sgpd, parse_ssix, prft_of, sbgp_of, sgpd_of, ssix_of,
};
use crate::sequence::table::{parse_sample_table, sample_table_of};
use crate::sequence::{
    reference_lists, CodingConstraints, Edit, Movie, MovieModel, ProducerReferenceTime, Sample, SampleEntry,
    SampleEntryModel, SampleGroup, SampleGroupDescription, SampleGroupDescriptionModel, SampleGroupModel,
    SubsegmentIndex, SubsegmentIndexModel, Track, TrackModel, MAX_TRACKS,
};
use crate::tags;
use crate::text::{concat, decimal};
use vstd::prelude::*;

verus! {

/// The timescale and duration an `mvhd` or `mdhd` payload holds.
pub open spec fn times_of(p: Seq<u8>) -> Outcome<(u32, u64)> {
    match full_box(p) {
        None => Err(ErrorKind::Invalid),
        Some((v, _, b)) => if v == 1 {
            if b.len() < 28 {
                Err(ErrorKind::Invalid)
            } else {
                Ok((be32(b, 16), be64(b, 20)))
            }
        } else if b.len() < 16 {
            Err(ErrorKind::Invalid)
        } else {
            Ok((be32(b, 8), be32(b, 12) as u64))
        },
    }
}

fn parse_times(p: &[u8]) -> (res: Result<(u32, u64)>)
    ensures
        plain_outcome(res) == times_of(p@),
{
    let (v, _f, body) = parse_full_box(p)?;
    let mut r: Reader = Reader::new(body);
    if v == 1 {
        r.skip(16, "header times")?;
        let ts: u32 = r.u32("header timescale")?;
        let d: u64 = r.u64("header duration")?;
        Ok((ts, d))
    } else {
        r.skip(8, "header times")?;
        let ts: u32 = r.u32("header timescale")?;
        let d: u32 = r.u32("header duration")?;
        Ok((ts, d as u64))
    }
}

/// What a `tkhd` payload says of a track.
#[derive(Clone, Copy, Debug, PartialEq, Eq)]
pub struct TrackHeader {
    /// `track_ID`.
    pub track_id: u32,
    /// Box flags.
    pub flags: u32,
    /// The integer part of `width`.
    pub width: u32,
    /// The integer part of `height`.
    pub height: u32,
    /// `matrix`, file order.
    pub matrix: [i32; 9],
}

/// The nine numbers of a matrix at `p`.
pub open spec fn matrix_at(b: Seq<u8>, p: int) -> [i32; 9] {
    [
        signed32(be32(b, p)),
        signed32(be32(b, p + 4)),
        signed32(be32(b, p + 8)),
        signed32(be32(b, p + 12)),
        signed32(be32(b, p + 16)),
        signed32(be32(b, p + 20)),
        signed32(be32(b, p + 24)),
        signed32(be32(b, p + 28)),
        signed32(be32(b, p + 32)),
    ]
}

/// The header a `tkhd` payload holds.
pub open spec fn tkhd_of(p: Seq<u8>) -> Outcome<TrackHeader> {
    match full_box(p) {
        None => Err(ErrorKind::Invalid),
        Some((v, flags, b)) => {
            let (id, at): (int, int) = if v == 1 {
                (16, 48)
            } else {
                (8, 36)
            };
            if b.len() < at + 44 {
                Err(ErrorKind::Invalid)
            } else {
                Ok(
                    TrackHeader {
                        track_id: be32(b, id),
                        flags,
                        width: be16(b, at + 36) as u32,
                        height: be16(b, at + 40) as u32,
                        matrix: matrix_at(b, at),
                    },
                )
            }
        },
    }
}

fn parse_tkhd(p: &[u8]) -> (res: Result<TrackHeader>)
    ensures
        plain_outcome(res) == tkhd_of(p@),
{
    let (v, flags, body) = parse_full_box(p)?;
    let ghost b = body@;
    let mut r: Reader = Reader::new(body);
    let track_id: u32;
    if v == 1 {
        r.skip(16, "tkhd times")?;
        track_id = r.u32("tkhd track_ID")?;
        r.skip(12, "tkhd duration")?;
    } else {
        r.skip(8, "tkhd times")?;
        track_id = r.u32("tkhd track_ID")?;
        r.skip(8, "tkhd duration")?;
    }
    // reserved (8), layer, alternate_group, volume, reserved.
    r.skip(16, "tkhd layer")?;
    let m0: i32 = r.i32("tkhd matrix")?;
    let m1: i32 = r.i32("tkhd matrix")?;
    let m2: i32 = r.i32("tkhd matrix")?;
    let m3: i32 = r.i32("tkhd matrix")?;
    let m4: i32 = r.i32("tkhd matrix")?;
    let m5: i32 = r.i32("tkhd matrix")?;
    let m6: i32 = r.i32("tkhd matrix")?;
    let m7: i32 = r.i32("tkhd matrix")?;
    let m8: i32 = r.i32("tkhd matrix")?;
    let width: u16 = r.u16("tkhd width")?;
    r.skip(2, "tkhd width")?;
    let height: u16 = r.u16("tkhd height")?;
    r.skip(2, "tkhd height")?;
    let matrix: [i32; 9] = [m0, m1, m2, m3, m4, m5, m6, m7, m8];
    proof {
        assert(matrix =~= matrix_at(
            b,
            if v == 1 {
                48
            } else {
                36
            },
        ));
    }
    Ok(TrackHeader { track_id, flags, width: width as u32, height: height as u32, matrix })
}

/// The handler type an `hdlr` payload names.
pub open spec fn handler_type_of(p: Seq<u8>) -> Outcome<FourCc> {
    match full_box(p) {
        None => Err(ErrorKind::Invalid),
        Some((_, _, b)) => if b.len() < 8 {
            Err(ErrorKind::Invalid)
        } else {
            Ok(fourcc_at(b, 4))
        },
    }
}

fn parse_hdlr_type(p: &[u8]) -> (res: Result<FourCc>)
    ensures
        plain_outcome(res) == handler_type_of(p@),
{
    let (_v, _f, body) = parse_full_box(p)?;
    let mut r: Reader = Reader::new(body);
    r.skip(4, "hdlr pre_defined")?;
    r.fourcc("hdlr handler_type")
}

/// The constraints a `ccst` payload holds.
pub open spec fn ccst_of(p: Seq<u8>) -> Outcome<CodingConstraints> {
    match full_box(p) {
        None => Err(ErrorKind::Invalid),
        Some((_, _, b)) => if b.len() < 4 {
            Err(ErrorKind::Invalid)
        } else {
            Ok(
                CodingConstraints {
                    all_ref_pics_intra: b[0] >= 128,
                    intra_pred_used: b[0] / 64 % 2 == 1,
                    max_ref_per_pic: (b[0] / 4 % 16) as u8,
                },
            )
        },
    }
}

fn parse_ccst(p: &[u8]) -> (res: Result<CodingConstraints>)
    ensures
        plain_outcome(res) == ccst_of(p@),
{
    let (_v, _f, body) = parse_full_box(p)?;
    let mut r: Reader = Reader::new(body);
    let w: u8 = r.u8("ccst")?;
    r.skip(3, "ccst")?;
    Ok(
        CodingConstraints {
            all_ref_pics_intra: w >= 128,
            intra_pred_used: w / 64 % 2 == 1,
            max_ref_per_pic: w / 4 % 16,
        },
    )
}

/// The URN an `auxi` payload holds: after the version and flags, or directly
/// when the first byte is printable.
pub open spec fn auxi_of(p: Seq<u8>) -> Outcome<Seq<char>> {
    if p.len() > 0 && 0x21 <= p[0] <= 0x7e {
        Ok(cstr_at(p, 0))
    } else {
        match full_box(p) {
            None => Err(ErrorKind::Invalid),
            Some((_, _, b)) => Ok(cstr_at(b, 0)),
        }
    }
}

fn parse_auxi(p: &[u8]) -> (res: Result<String>)
    ensures
        view_outcome(res) == auxi_of(p@),
{
    // HEIF §7.5.3.3: a FullBox holding the URN. Apple ImageIO
    // writes the string directly after the box header (no
    // version / flags); a body whose first byte is printable
    // is read that way.
    let plain: bool = p.len() > 0 && 0x21 <= p[0] && p[0] <= 0x7e;
    let b: &[u8] = if plain {
        p
    } else {
        let (_v, _f, body) = parse_full_box(p)?;
        body
    };
    let mut r: Reader = Reader::new(b);
    r.cstr("auxi aux_track_type")
}

/// A sample entry with one more child box.
#[verifier::opaque]
pub open spec fn with_child(e: SampleEntryModel, raw: RawPropertyModel) -> Outcome<SampleEntryModel> {
    let t = raw.box_type;
    let b = raw.body;
    let e = SampleEntryModel { children: e.children.push(raw), ..e };
    if t == tags::HVCC {
        match hevc_config_of(b) {
            Err(k) => Err(k),
            Ok(c) => Ok(SampleEntryModel { hvcc: Some(c), ..e }),
        }
    } else if t == tags::AV1C {
        match av1_config_of(b) {
            Err(k) => Err(k),
            Ok(c) => Ok(SampleEntryModel { av1c: Some(c), ..e }),
        }
    } else if t == tags::AVCC {
        match avc_config_of(b) {
            Err(k) => Err(k),
            Ok(c) => Ok(SampleEntryModel { avcc: Some(c), ..e }),
        }
    } else if t == tags::LHVC {
        match lhevc_config_of(b) {
            Err(k) => Err(k),
            Ok(c) => Ok(SampleEntryModel { lhvc: Some(c), ..e }),
        }
    } else if t == tags::CCST {
        match ccst_of(b) {
            Err(k) => Err(k),
            Ok(c) => Ok(SampleEntryModel { ccst: Some(c), ..e }),
        }
    } else if t == tags::AUXI {
        match auxi_of(b) {
            Err(k) => Err(k),
            Ok(u) => Ok(SampleEntryModel { aux_track_type: Some(u), ..e }),
        }
    } else if described(t) {
        match property_of(raw) {
            Err(k) => Err(k),
            Ok(p) => Ok(with_property(e, p)),
        }
    } else {
        Ok(e)
    }
}

/// Whether a child box is read as a property.
pub open spec fn described(t: FourCc) -> bool {
    t == tags::COLR || t == tags::CLAP || t == tags::PASP || t == tags::CLLI || t == tags::MDCV || t
        == tags::CCLV || t == tags::AMVE
}

/// A sample entry with the property of a child.
pub open spec fn with_property(e: SampleEntryModel, p: PropertyModel) -> SampleEntryModel {
    match p {
        PropertyModel::Colr(c) => SampleEntryModel { colr: e.colr.push(c), ..e },
        PropertyModel::Clap(c) => SampleEntryModel { clap: Some(c), ..e },
        PropertyModel::Pasp(c) => SampleEntryModel { pasp: Some(c), ..e },
        PropertyModel::Clli(c) => SampleEntryModel { clli: Some(c), ..e },
        PropertyModel::Mdcv(c) => SampleEntryModel { mdcv: Some(c), ..e },
        PropertyModel::Cclv(c) => SampleEntryModel { cclv: Some(c), ..e },
        PropertyModel::Amve(c) => SampleEntryModel { amve: Some(c), ..e },
        _ => e,
    }
}

fn add_property(entry: &mut SampleEntry, p: Property)
    ensures
        final(entry)@ == with_property(old(entry)@, p@),
{
    let ghost before = entry@;
    match p {
        Property::Colr(c) => {
            entry.colr.push(c);
            assert(entry@.colr =~= before.colr.push(c@));
        },
        Property::Clap(c) => entry.clap = Some(c),
        Property::Pasp(c) => entry.pasp = Some(c),
        Property::Clli(c) => entry.clli = Some(c),
        Property::Mdcv(c) => entry.mdcv = Some(c),
        Property::Cclv(c) => entry.cclv = Some(c),
        Property::Amve(c) => entry.amve = Some(c),
        _ => {},
    }
    assert(entry@ =~= with_property(before, p@));
}

fn is_described(t: &FourCc) -> (r: bool)
    ensures
        r == described(*t),
{
    fourcc_eq(t, &tags::COLR) || fourcc_eq(t, &tags::CLAP) || fourcc_eq(t, &tags::PASP) || fourcc_eq(
        t,
        &tags::CLLI,
    ) || fourcc_eq(t, &tags::MDCV) || fourcc_eq(t, &tags::CCLV) || fourcc_eq(t, &tags::AMVE)
}

fn add_child(entry: &mut SampleEntry, raw: RawProperty) -> (res: Result<()>)
    ensures
        match res {
            Ok(_) => with_child(old(entry)@, raw@) == Ok::<SampleEntryModel, ErrorKind>(
                final(entry)@,
            ),
            Err(e) => with_child(old(entry)@, raw@) == Err::<SampleEntryModel, ErrorKind>(e.kind()),
        },
{
    proof {
        reveal(with_child);
    }
    let ghost before = entry@;
    let t: FourCc = raw.box_type;
    if fourcc_eq(&t, &tags::HVCC) {
        let c: HevcConfig = HevcConfig::parse(raw.body.as_slice())?;
        entry.hvcc = Some(c);
    } else if fourcc_eq(&t, &tags::AV1C) {
        let c: Av1Config = Av1Config::parse(raw.body.as_slice())?;
        entry.av1c = Some(c);
    } else if fourcc_eq(&t, &tags::AVCC) {
        let c: AvcConfig = AvcConfig::parse(raw.body.as_slice())?;
        entry.avcc = Some(c);
    } else if fourcc_eq(&t, &tags::LHVC) {
        let c: LhevcConfig = LhevcConfig::parse(raw.body.as_slice())?;
        entry.lhvc = Some(c);
    } else if fourcc_eq(&t, &tags::CCST) {
        let c: CodingConstraints = parse_ccst(raw.body.as_slice())?;
        entry.ccst = Some(c);
    } else if fourcc_eq(&t, &tags::AUXI) {
        let u: String = parse_auxi(raw.body.as_slice())?;
        entry.aux_track_type = Some(u);
    } else if is_described(&t) {
        let p: Property = Property::parse(&raw)?;
        add_property(entry, p);
    }
    let ghost own = raw@;
    let ghost kept = entry@;
    entry.children.push(raw);
    proof {
        assert(entry@.children =~= kept.children.push(own));
        assert(kept.children =~= before.children);
        assert(entry@ =~= with_child(before, own)->Ok_0);
    }
    Ok(())
}

/// A sample entry with the child boxes of `b` from `pos` on.
pub open spec fn with_children(b: Seq<u8>, pos: int, e: SampleEntryModel) -> Outcome<SampleEntryModel>
    decreases b.len() - pos,
{
    if pos >= b.len() {
        Ok(e)
    } else {
        match header_at(b, pos) {
            None => Err(ErrorKind::Invalid),
            Some(h) => if !(pos < h.end_at() <= b.len()) {
                Err(ErrorKind::Invalid)
            } else {
                match with_child(e, raw_property(b, h)) {
                    Err(k) => Err(k),
                    Ok(next) => with_children(b, h.end_at(), next),
                }
            },
        }
    }
}

/// A visual sample entry of the given type: 78 bytes of fields, then its
/// children.
pub open spec fn entry_of(entry_type: FourCc, p: Seq<u8>) -> Outcome<SampleEntryModel> {
    if p.len() < 78 {
        Err(ErrorKind::Invalid)
    } else {
        with_children(
            p.subrange(78, p.len() as int),
            0,
            SampleEntryModel {
                entry_type,
                data_reference_index: be16(p, 6),
                width: be16(p, 24),
                height: be16(p, 26),
                hvcc: None,
                av1c: None,
                avcc: None,
                lhvc: None,
                ccst: None,
                aux_track_type: None,
                colr: Seq::empty(),
                clap: None,
                pasp: None,
                clli: None,
                mdcv: None,
                cclv: None,
                amve: None,
                children: Seq::empty(),
            },
        )
    }
}

/// VisualSampleEntry: SampleEntry (6 reserved + data_reference_index)
/// then pre_defined(2) reserved(2) pre_defined(12) width(2) height(2)
/// horizresolution(4) vertresolution(4) reserved(4) frame_count(2)
/// compressorname(32) depth(2) pre_defined(2) — 78 bytes, then children.
pub fn parse_visual_entry(entry_type: FourCc, p: &[u8]) -> (res: Result<SampleEntry>)
    ensures
        view_outcome(res) == entry_of(entry_type, p@),
{
    let mut r: Reader = Reader::new(p);
    r.skip(6, "SampleEntry reserved")?;
    let data_reference_index: u16 = r.u16("SampleEntry data_reference_index")?;
    r.skip(16, "VisualSampleEntry pre_defined")?;
    let width: u16 = r.u16("VisualSampleEntry width")?;
    let height: u16 = r.u16("VisualSampleEntry height")?;
    r.skip(50, "VisualSampleEntry compressorname")?;
    let rest: &[u8] = r.rest();
    let mut entry = SampleEntry {
        entry_type,
        data_reference_index,
        width,
        height,
        hvcc: None,
        av1c: None,
        avcc: None,
        lhvc: None,
        ccst: None,
        aux_track_type: None,
        colr: Vec::new(),
        clap: None,
        pasp: None,
        clli: None,
        mdcv: None,
        cclv: None,
        amve: None,
        children: Vec::new(),
    };
    let ghost goal = entry_of(entry_type, p@);
    proof {
        assert(entry@.colr =~= Seq::empty());
        assert(entry@.children =~= Seq::empty());
    }
    let mut cursor: usize = 0;
    while cursor < rest.len()
        invariant
            goal == entry_of(entry_type, p@),
            goal == with_children(rest@, cursor as int, entry@),
        decreases rest@.len() - cursor,
    {
        let h: BoxHeader = parse_box_header(rest, cursor)?;
        proof {
            crate::boxes::lemma_header_inside(rest@, cursor as int);
        }
        let raw: RawProperty = to_raw_property(rest, &h);
        add_child(&mut entry, raw)?;
        cursor = h.end();
    }
    Ok(entry)
}

/// Up to `n` sample entries of `b` from `pos` on, after those in `acc`.
pub open spec fn entries_from(b: Seq<u8>, pos: int, n: int, acc: Seq<SampleEntryModel>) -> Outcome<
    Seq<SampleEntryModel>,
>
    decreases b.len() - pos,
{
    if acc.len() >= n || pos >= b.len() {
        Ok(acc)
    } else {
        match header_at(b, pos) {
            None => Err(ErrorKind::Invalid),
            Some(h) => if !(pos < h.end_at() <= b.len()) {
                Err(ErrorKind::Invalid)
            } else {
                match entry_of(h.box_type, payload_of(b, h)) {
                    Err(k) => Err(k),
                    Ok(e) => entries_from(b, h.end_at(), n, acc.push(e)),
                }
            },
        }
    }
}

/// The sample entries an `stsd` payload holds.
pub open spec fn stsd_of(p: Seq<u8>) -> Outcome<Seq<SampleEntryModel>> {
    match full_box(p) {
        None => Err(ErrorKind::Invalid),
        Some((_, _, b)) => if b.len() < 4 {
            Err(ErrorKind::Invalid)
        } else {
            entries_from(b.subrange(4, b.len() as int), 0, be32(b, 0) as int, Seq::empty())
        },
    }
}

/// The sample entries of an `stsd` box.
pub fn parse_stsd(p: &[u8]) -> (res: Result<Vec<SampleEntry>>)
    ensures
        outcome(res) == stsd_of(p@),
{
    let (_v, _f, body) = parse_full_box(p)?;
    let mut r: Reader = Reader::new(body);
    let n: u32 = r.u32("stsd entry_count")?;
    let b: &[u8] = r.rest();
    let ghost goal = entries_from(b@, 0, n as int, Seq::empty());
    let mut out: Vec<SampleEntry> = Vec::new();
    proof {
        assert(out.deep_view() =~= Seq::empty());
    }
    let mut cursor: usize = 0;
    while (out.len() as u64) < n as u64 && cursor < b.len()
        invariant
            goal == stsd_of(p@),
            goal == entries_from(b@, cursor as int, n as int, out.deep_view()),
        decreases b@.len() - cursor,
    {
        let h: BoxHeader = parse_box_header(b, cursor)?;
        proof {
            crate::boxes::lemma_header_inside(b@, cursor as int);
        }
        let e: SampleEntry = parse_visual_entry(h.box_type, payload(b, &h))?;
        let ghost before = out.deep_view();
        out.push(e);
        proof {
            assert(out.deep_view() =~= before.push(e@));
        }
        cursor = h.end();
    }
    Ok(out)
}

/// The most sample-group boxes a track may have.
pub const MAX_GROUP_BOXES: usize = 4096;

/// The sample groups and their descriptions.
#[verifier::ext_equal]
pub struct GroupsModel {
    /// The mappings.
    pub groups: Seq<SampleGroupModel>,
    /// The descriptions.
    pub descriptions: Seq<SampleGroupDescriptionModel>,
}

/// The groups with one more box.
pub open spec fn with_group(g: GroupsModel, t: FourCc, p: Seq<u8>) -> Outcome<GroupsModel> {
    if t == tags::SBGP {
        match sbgp_of(p) {
            Err(k) => Err(k),
            Ok(x) => Ok(GroupsModel { groups: g.groups.push(x), ..g }),
        }
    } else if t == tags::CSGP {
        match csgp_of(p) {
            Err(k) => Err(k),
            Ok(x) => Ok(GroupsModel { groups: g.groups.push(x), ..g }),
        }
    } else if t == tags::SGPD {
        match sgpd_of(p) {
            Err(k) => Err(k),
            Ok(x) => Ok(GroupsModel { descriptions: g.descriptions.push(x), ..g }),
        }
    } else {
        Ok(g)
    }
}

/// The groups with the boxes of `b` from `pos` on.
pub open spec fn groups_from(b: Seq<u8>, pos: int, g: GroupsModel) -> Outcome<GroupsModel>
    decreases b.len() - pos,
{
    if pos >= b.len() {
        Ok(g)
    } else {
        match header_at(b, pos) {
            None => Err(ErrorKind::Invalid),
            Some(h) => if !(pos < h.end_at() <= b.len()) {
                Err(ErrorKind::Invalid)
            } else {
                match with_group(g, h.box_type, payload_of(b, h)) {
                    Err(k) => Err(k),
                    Ok(next) => if next.groups.len() + next.descriptions.len() > MAX_GROUP_BOXES {
                        Err(ErrorKind::Exhausted)
                    } else {
                        groups_from(b, h.end_at(), next)
                    },
                }
            },
        }
    }
}

/// The sample groups of a sample table.
pub open spec fn groups_of(stbl: Seq<u8>) -> Outcome<GroupsModel> {
    groups_from(stbl, 0, GroupsModel { groups: Seq::empty(), descriptions: Seq::empty() })
}

fn parse_groups(stbl: &[u8]) -> (res: Result<(Vec<SampleGroup>, Vec<SampleGroupDescription>)>)
    ensures
        match res {
            Ok(v) => groups_of(stbl@) == Ok::<GroupsModel, ErrorKind>(
                GroupsModel { groups: v.0.deep_view(), descriptions: v.1.deep_view() },
            ),
            Err(e) => groups_of(stbl@) == Err::<GroupsModel, ErrorKind>(e.kind()),
        },
{
    let ghost goal = groups_of(stbl@);
    let mut groups: Vec<SampleGroup> = Vec::new();
    let mut descriptions: Vec<SampleGroupDescription> = Vec::new();
    proof {
        assert(groups.deep_view() =~= Seq::empty());
        assert(descriptions.deep_view() =~= Seq::empty());
    }
    let mut cursor: usize = 0;
    while cursor < stbl.len()
        invariant
            goal == groups_of(stbl@),
            groups@.len() + descriptions@.len() <= MAX_GROUP_BOXES,
            goal == groups_from(
                stbl@,
                cursor as int,
                GroupsModel { groups: groups.deep_view(), descriptions: descriptions.deep_view() },
            ),
        decreases stbl@.len() - cursor,
    {
        let h: BoxHeader = parse_box_header(stbl, cursor)?;
        proof {
            crate::boxes::lemma_header_inside(stbl@, cursor as int);
            assert(tags::SBGP[0] != tags::CSGP[0] && tags::SBGP[1] != tags::SGPD[1] && tags::CSGP[0]
                != tags::SGPD[0]);
        }
        let p: &[u8] = payload(stbl, &h);
        let ghost g0 = groups.deep_view();
        let ghost d0 = descriptions.deep_view();
        if fourcc_eq(&h.box_type, &tags::SBGP) {
            let x: SampleGroup = parse_sbgp(p)?;
            groups.push(x);
            proof {
                assert(groups.deep_view() =~= g0.push(x@));
            }
        } else if fourcc_eq(&h.box_type, &tags::CSGP) {
            let x: SampleGroup = parse_csgp(p)?;
            groups.push(x);
            proof {
                assert(groups.deep_view() =~= g0.push(x@));
            }
        } else if fourcc_eq(&h.box_type, &tags::SGPD) {
            let x: SampleGroupDescription = parse_sgpd(p)?;
            descriptions.push(x);
            proof {
                assert(descriptions.deep_view() =~= d0.push(x@));
            }
        }
        if groups.len() + descriptions.len() > MAX_GROUP_BOXES {
            return Err(HeifError::exhausted("more than 4096 sample-group boxes"));
        }
        cursor = h.end();
    }
    Ok((groups, descriptions))
}

/// The track ids a reference box holds.
pub open spec fn track_ids(p: Seq<u8>) -> Seq<u32> {
    Seq::new(p.len() / 4, |i: int| be32(p, 4 * i))
}

/// The references of `b` from `pos` on, after those in `acc`.
pub open spec fn references_from(b: Seq<u8>, pos: int, acc: Seq<(FourCc, Seq<u32>)>) -> Outcome<
    Seq<(FourCc, Seq<u32>)>,
>
    decreases b.len() - pos,
{
    if pos >= b.len() {
        Ok(acc)
    } else {
        match header_at(b, pos) {
            None => Err(ErrorKind::Invalid),
            Some(h) => if !(pos < h.end_at() <= b.len()) {
                Err(ErrorKind::Invalid)
            } else {
                references_from(
                    b,
                    h.end_at(),
                    acc.push((h.box_type, track_ids(payload_of(b, h)))),
                )
            },
        }
    }
}

/// The references of a track.
pub open spec fn references_of(trak: Seq<u8>) -> Outcome<Seq<(FourCc, Seq<u32>)>> {
    match box_payload(trak, tags::TREF) {
        Err(k) => Err(k),
        Ok(None) => Ok(Seq::empty()),
        Ok(Some(b)) => references_from(b, 0, Seq::empty()),
    }
}

fn parse_ids(p: &[u8]) -> (r: Vec<u32>)
    ensures
        r@ == track_ids(p@),
{
    let mut out: Vec<u32> = Vec::new();
    let n: usize = p.len() / 4;
    for i in 0..n
        invariant
            n == p@.len() / 4,
            out@ == Seq::new(i as nat, |k: int| be32(p@, 4 * k)),
    {
        assert(p.len() == p@.len());
        out.push(crate::bytes::get32(p, 4 * i));
        assert(out@ =~= Seq::new((i + 1) as nat, |k: int| be32(p@, 4 * k)));
    }
    out
}

fn parse_references(trak: &[u8]) -> (res: Result<Vec<(FourCc, Vec<u32>)>>)
    ensures
        match res {
            Ok(v) => references_of(trak@) == Ok::<Seq<(FourCc, Seq<u32>)>, ErrorKind>(
                reference_lists(v@),
            ),
            Err(e) => references_of(trak@) == Err::<Seq<(FourCc, Seq<u32>)>, ErrorKind>(e.kind()),
        },
{
    let mut out: Vec<(FourCc, Vec<u32>)> = Vec::new();
    proof {
        assert(reference_lists(out@) =~= Seq::empty());
    }
    match find_box(trak, &tags::TREF)? {
        None => {},
        Some((_, b)) => {
            let ghost goal = references_from(b@, 0, Seq::empty());
            let mut cursor: usize = 0;
            while cursor < b.len()
                invariant
                    goal == references_of(trak@),
                    goal == references_from(b@, cursor as int, reference_lists(out@)),
                decreases b@.len() - cursor,
            {
                let h: BoxHeader = parse_box_header(b, cursor)?;
                proof {
                    crate::boxes::lemma_header_inside(b@, cursor as int);
                }
                let ids: Vec<u32> = parse_ids(payload(b, &h));
                let ghost before = reference_lists(out@);
                out.push((h.box_type, ids));
                proof {
                    assert(reference_lists(out@) =~= before.push((h.box_type, ids@)));
                }
                cursor = h.end();
            }
        },
    }
    Ok(out)
}

/// Edit `i` of the edit list at `p`, of version `v`.
pub open spec fn edit_at(b: Seq<u8>, p: int, v: u8) -> Edit {
    if v == 1 {
        Edit {
            segment_duration: be64(b, p),
            media_time: signed64(be64(b, p + 8)),
            media_rate: signed32(be32(b, p + 16)),
        }
    } else {
        Edit {
            segment_duration: be32(b, p) as u64,
            media_time: signed32(be32(b, p + 4)) as i64,
            media_rate: signed32(be32(b, p + 8)),
        }
    }
}

/// The bytes of an edit.
pub open spec fn edit_len(v: u8) -> int {
    if v == 1 {
        20
    } else {
        12
    }
}

/// The edits an `elst` payload holds.
pub open spec fn elst_of(p: Seq<u8>) -> Outcome<Seq<Edit>> {
    match full_box(p) {
        None => Err(ErrorKind::Invalid),
        Some((v, _, b)) => if b.len() < 4 || 4 + be32(b, 0) * edit_len(v) > b.len() {
            Err(ErrorKind::Invalid)
        } else {
            Ok(Seq::new(be32(b, 0) as nat, |i: int| edit_at(b, 4 + i * edit_len(v), v)))
        },
    }
}

/// The edits of a track.
pub open spec fn edits_of(trak: Seq<u8>) -> Outcome<Seq<Edit>> {
    match box_payload(trak, tags::EDTS) {
        Err(k) => Err(k),
        Ok(None) => Ok(Seq::empty()),
        Ok(Some(edts)) => match box_payload(edts, tags::ELST) {
            Err(k) => Err(k),
            Ok(None) => Ok(Seq::empty()),
            Ok(Some(p)) => elst_of(p),
        },
    }
}

fn parse_elst(p: &[u8]) -> (res: Result<Vec<Edit>>)
    ensures
        view_outcome(res) == elst_of(p@),
{
    let (v, _f, body) = parse_full_box(p)?;
    let ghost b = body@;
    let mut r: Reader = Reader::new(body);
    let n: u32 = r.u32("elst entry_count")?;
    let size: usize = if v == 1 {
        20
    } else {
        12
    };
    if n as usize > r.remaining() / size {
        return Err(HeifError::invalid("elst entry_count exceeds the box"));
    }
    let mut out: Vec<Edit> = Vec::new();
    let mut i: u32 = 0;
    while i < n
        invariant
            i <= n,
            r.wf(),
            r.data() == b,
            size == edit_len(v),
            r.at() == 4 + i * size,
            4 + n * size <= b.len(),
            out@ == Seq::new(i as nat, |k: int| edit_at(b, 4 + k * edit_len(v), v)),
        decreases n - i,
    {
        let segment_duration: u64;
        let media_time: i64;
        if v == 1 {
            segment_duration = r.u64("elst segment_duration")?;
            let t: u64 = r.u64("elst media_time")?;
            media_time = to_i64(t);
        } else {
            let d: u32 = r.u32("elst segment_duration")?;
            segment_duration = d as u64;
            let t: i32 = r.i32("elst media_time")?;
            media_time = t as i64;
        }
        let media_rate: i32 = r.i32("elst media_rate")?;
        out.push(Edit { segment_duration, media_time, media_rate });
        i = i + 1;
        assert(out@ =~= Seq::new(i as nat, |k: int| edit_at(b, 4 + k * edit_len(v), v)));
    }
    Ok(out)
}

fn parse_edits(trak: &[u8]) -> (res: Result<Vec<Edit>>)
    ensures
        view_outcome(res) == edits_of(trak@),
{
    let none: Vec<Edit> = Vec::new();
    assert(none@ =~= Seq::empty());
    match find_box(trak, &tags::EDTS)? {
        None => Ok(none),
        Some((_, edts)) => {
            match find_box(edts, &tags::ELST)? {
                None => Ok(none),
                Some((_, p)) => parse_elst(p),
            }
        },
    }
}

/// The payload of a box that must be there.
pub open spec fn needed(buf: Seq<u8>, t: FourCc) -> Outcome<Seq<u8>> {
    match box_payload(buf, t) {
        Err(k) => Err(k),
        Ok(None) => Err(ErrorKind::Invalid),
        Ok(Some(p)) => Ok(p),
    }
}

fn find_needed<'a>(buf: &'a [u8], t: &FourCc, what: &str) -> (res: Result<&'a [u8]>)
    ensures
        match res {
            Ok(p) => needed(buf@, *t) == Ok::<Seq<u8>, ErrorKind>(p@),
            Err(e) => needed(buf@, *t) == Err::<Seq<u8>, ErrorKind>(e.kind()),
        },
{
    match find_box(buf, t)? {
        Some((_, p)) => Ok(p),
        None => Err(HeifError::invalid(what)),
    }
}

/// The times and handler of a track.
pub struct MediaModel {
    /// Media timescale and duration.
    pub times: (u32, u64),
    /// The handler type.
    pub handler: FourCc,
    /// The sample table box.
    pub stbl: Seq<u8>,
}

/// What the `mdia` box of a track says.
pub open spec fn media_of(trak: Seq<u8>) -> Outcome<MediaModel> {
    match needed(trak, tags::MDIA) {
        Err(k) => Err(k),
        Ok(mdia) => match needed(mdia, tags::MDHD) {
            Err(k) => Err(k),
            Ok(mdhd) => match times_of(mdhd) {
                Err(k) => Err(k),
                Ok(times) => match needed(mdia, tags::HDLR) {
                    Err(k) => Err(k),
                    Ok(hdlr) => match handler_type_of(hdlr) {
                        Err(k) => Err(k),
                        Ok(handler) => match needed(mdia, tags::MINF) {
                            Err(k) => Err(k),
                            Ok(minf) => match needed(minf, tags::STBL) {
                                Err(k) => Err(k),
                                Ok(stbl) => Ok(MediaModel { times, handler, stbl }),
                            },
                        },
                    },
                },
            },
        },
    }
}

fn parse_media(trak: &[u8]) -> (res: Result<((u32, u64), FourCc, &[u8])>)
    ensures
        match res {
            Ok(v) => media_of(trak@) == Ok::<MediaModel, ErrorKind>(
                MediaModel { times: v.0, handler: v.1, stbl: v.2@ },
            ),
            Err(e) => media_of(trak@) == Err::<MediaModel, ErrorKind>(e.kind()),
        },
{
    let mdia: &[u8] = find_needed(trak, &tags::MDIA, "trak without mdia")?;
    let mdhd: &[u8] = find_needed(mdia, &tags::MDHD, "mdia without mdhd")?;
    let times: (u32, u64) = parse_times(mdhd)?;
    let hdlr: &[u8] = find_needed(mdia, &tags::HDLR, "mdia without hdlr")?;
    let handler: FourCc = parse_hdlr_type(hdlr)?;
    let minf: &[u8] = find_needed(mdia, &tags::MINF, "mdia without minf")?;
    let stbl: &[u8] = find_needed(minf, &tags::STBL, "minf without stbl")?;
    Ok((times, handler, stbl))
}

/// The sample entries of a sample table.
pub open spec fn sample_entries_of(stbl: Seq<u8>) -> Outcome<Seq<SampleEntryModel>> {
    match box_payload(stbl, tags::STSD) {
        Err(k) => Err(k),
        Ok(None) => Ok(Seq::empty()),
        Ok(Some(p)) => stsd_of(p),
    }
}

fn parse_sample_entries(stbl: &[u8]) -> (res: Result<Vec<SampleEntry>>)
    ensures
        outcome(res) == sample_entries_of(stbl@),
{
    match find_box(stbl, &tags::STSD)? {
        Some((_, p)) => parse_stsd(p),
        None => {
            let none: Vec<SampleEntry> = Vec::new();
            assert(none.deep_view() =~= Seq::empty());
            Ok(none)
        },
    }
}

/// The track a `trak` payload describes, in a file of the given length.
pub open spec fn trak_of(trak: Seq<u8>, file_len: u64) -> Outcome<TrackModel> {
    match needed(trak, tags::TKHD) {
        Err(k) => Err(k),
        Ok(tkhd) => match tkhd_of(tkhd) {
            Err(k) => Err(k),
            Ok(head) => match media_of(trak) {
                Err(k) => Err(k),
                Ok(media) => match sample_entries_of(media.stbl) {
                    Err(k) => Err(k),
                    Ok(sample_entries) => match sample_table_of(media.stbl, file_len) {
                        Err(k) => Err(k),
                        Ok(samples) => match groups_of(media.stbl) {
                            Err(k) => Err(k),
                            Ok(g) => match references_of(trak) {
                                Err(k) => Err(k),
                                Ok(references) => match edits_of(trak) {
                                    Err(k) => Err(k),
                                    Ok(edits) => Ok(
                                        TrackModel {
                                            track_id: head.track_id,
                                            enabled: head.flags % 2 == 1,
                                            in_movie: head.flags / 2 % 2 == 1,
                                            handler: media.handler,
                                            timescale: media.times.0,
                                            duration: media.times.1,
                                            width: head.width,
                                            height: head.height,
                                            matrix: head.matrix,
                                            sample_entries,
                                            samples,
                                            references,
                                            edits,
                                            sample_groups: g.groups,
                                            sample_group_descriptions: g.descriptions,
                                        },
                                    ),
                                },
                            },
                        },
                    },
                },
            },
        },
    }
}

/// The track a `trak` box describes.
pub fn parse_trak(trak: &[u8], file_len: u64) -> (res: Result<Track>)
    ensures
        view_outcome(res) == trak_of(trak@, file_len),
{
    let tkhd: &[u8] = find_needed(trak, &tags::TKHD, "trak without tkhd")?;
    let head: TrackHeader = parse_tkhd(tkhd)?;
    let (times, handler, stbl) = parse_media(trak)?;
    let sample_entries: Vec<SampleEntry> = parse_sample_entries(stbl)?;
    let samples: Vec<Sample> = parse_sample_table(stbl, file_len)?;
    let (sample_groups, sample_group_descriptions) = parse_groups(stbl)?;
    let references: Vec<(FourCc, Vec<u32>)> = parse_references(trak)?;
    let edits: Vec<Edit> = parse_edits(trak)?;
    Ok(
        Track {
            track_id: head.track_id,
            enabled: head.flags % 2 == 1,
            in_movie: head.flags / 2 % 2 == 1,
            handler,
            timescale: times.0,
            duration: times.1,
            width: head.width,
            height: head.height,
            matrix: head.matrix,
            sample_entries,
            samples,
            references,
            edits,
            sample_groups,
            sample_group_descriptions,
        },
    )
}

/// The tracks of a movie box from `pos` on, after those in `acc`.
pub open spec fn tracks_from(b: Seq<u8>, pos: int, file_len: u64, acc: Seq<TrackModel>) -> Outcome<
    Seq<TrackModel>,
>
    decreases b.len() - pos,
{
    if pos >= b.len() {
        Ok(acc)
    } else {
        match header_at(b, pos) {
            None => Err(ErrorKind::Invalid),
            Some(h) => if !(pos < h.end_at() <= b.len()) {
                Err(ErrorKind::Invalid)
            } else if h.box_type != tags::TRAK {
                tracks_from(b, h.end_at(), file_len, acc)
            } else if acc.len() >= MAX_TRACKS {
                Err(ErrorKind::Exhausted)
            } else {
                match trak_of(payload_of(b, h), file_len) {
                    Err(k) => Err(k),
                    Ok(t) => tracks_from(b, h.end_at(), file_len, acc.push(t)),
                }
            },
        }
    }
}

fn parse_tracks(moov: &[u8], file_len: u64) -> (res: Result<Vec<Track>>)
    ensures
        outcome(res) == tracks_from(moov@, 0, file_len, Seq::empty()),
{
    let ghost goal = tracks_from(moov@, 0, file_len, Seq::empty());
    let mut out: Vec<Track> = Vec::new();
    proof {
        assert(out.deep_view() =~= Seq::empty());
    }
    let mut cursor: usize = 0;
    while cursor < moov.len()
        invariant
            goal == tracks_from(moov@, 0, file_len, Seq::empty()),
            goal == tracks_from(moov@, cursor as int, file_len, out.deep_view()),
        decreases moov@.len() - cursor,
    {
        let h: BoxHeader = parse_box_header(moov, cursor)?;
        proof {
            crate::boxes::lemma_header_inside(moov@, cursor as int);
        }
        if fourcc_eq(&h.box_type, &tags::TRAK) {
            if out.len() >= MAX_TRACKS {
                let n: String = decimal(MAX_TRACKS as u64);
                return Err(HeifError::exhausted(concat(&["more than ", n.as_str(), " tracks"])));
            }
            let t: Track = parse_trak(payload(moov, &h), file_len)?;
            let ghost before = out.deep_view();
            out.push(t);
            proof {
                assert(out.deep_view() =~= before.push(t@));
            }
        }
        cursor = h.end();
    }
    Ok(out)
}

/// The reference times and subsegment indexes of a file.
#[verifier::ext_equal]
pub struct SegmentsModel {
    /// The `prft` boxes.
    pub times: Seq<ProducerReferenceTime>,
    /// The `ssix` boxes.
    pub indexes: Seq<SubsegmentIndexModel>,
}

/// The reference times and subsegment indexes with those of the top-level boxes
/// from the `i`-th on.
pub open spec fn segments_from(f: FileModel, i: int, s: SegmentsModel) -> Outcome<SegmentsModel>
    decreases f.top_level.len() - i,
{
    if i >= f.top_level.len() {
        Ok(s)
    } else {
        let h = f.top_level[i];
        let p = payload_of(f.data, h);
        if h.box_type == tags::PRFT {
            match prft_of(p) {
                Err(k) => Err(k),
                Ok(x) => segments_from(f, i + 1, SegmentsModel { times: s.times.push(x), ..s }),
            }
        } else if h.box_type == tags::SSIX {
            match ssix_of(p) {
                Err(k) => Err(k),
                Ok(x) => segments_from(f, i + 1, SegmentsModel { indexes: s.indexes.push(x), ..s }),
            }
        } else {
            segments_from(f, i + 1, s)
        }
    }
}

fn parse_segments(file: &HeifFile) -> (res: Result<(Vec<ProducerReferenceTime>, Vec<SubsegmentIndex>)>)
    requires
        file@.wf(),
    ensures
        ({
            let goal = segments_from(
                file@,
                0,
                SegmentsModel { times: Seq::empty(), indexes: Seq::empty() },
            );
            match res {
                Ok(v) => goal == Ok::<SegmentsModel, ErrorKind>(
                    SegmentsModel { times: v.0@, indexes: v.1.deep_view() },
                ),
                Err(e) => goal == Err::<SegmentsModel, ErrorKind>(e.kind()),
            }
        }),
{
    let ghost first = SegmentsModel { times: Seq::empty(), indexes: Seq::empty() };
    let ghost goal = segments_from(file@, 0, first);
    let mut times: Vec<ProducerReferenceTime> = Vec::new();
    let mut indexes: Vec<SubsegmentIndex> = Vec::new();
    proof {
        assert(times@ =~= Seq::empty());
        assert(indexes.deep_view() =~= Seq::empty());
    }
    for i in 0..file.top_level.len()
        invariant
            file@.wf(),
            first == (SegmentsModel { times: Seq::empty(), indexes: Seq::empty() }),
            goal == segments_from(file@, 0, first),
            goal == segments_from(
                file@,
                i as int,
                SegmentsModel { times: times@, indexes: indexes.deep_view() },
            ),
    {
        let h: BoxHeader = file.top_level[i];
        assert(file@.top_level[i as int].inside(file@.data.len()));
        let p: &[u8] = payload(file.bytes(), &h);
        if fourcc_eq(&h.box_type, &tags::PRFT) {
            let x: ProducerReferenceTime = parse_prft(p)?;
            times.push(x);
        } else if fourcc_eq(&h.box_type, &tags::SSIX) {
            let x: SubsegmentIndex = parse_ssix(p)?;
            let ghost before = indexes.deep_view();
            indexes.push(x);
            proof {
                assert(indexes.deep_view() =~= before.push(x@));
            }
        }
    }
    Ok((times, indexes))
}

/// The movie of a file, `None` when it has none.
pub open spec fn movie_of(f: FileModel) -> Outcome<Option<MovieModel>> {
    match f.top_payload(tags::MOOV) {
        None => Ok(None),
        Some(moov) => match needed(moov, tags::MVHD) {
            Err(k) => Err(k),
            Ok(mvhd) => match times_of(mvhd) {
                Err(k) => Err(k),
                Ok(times) => match tracks_from(moov, 0, f.data.len() as u64, Seq::empty()) {
                    Err(k) => Err(k),
                    Ok(tracks) => match segments_from(
                        f,
                        0,
                        SegmentsModel { times: Seq::empty(), indexes: Seq::empty() },
                    ) {
                        Err(k) => Err(k),
                        Ok(s) => Ok(
                            Some(
                                MovieModel {
                                    timescale: times.0,
                                    duration: times.1,
                                    tracks,
                                    producer_reference_times: s.times,
                                    subsegment_indexes: s.indexes,
                                },
                            ),
                        ),
                    },
                },
            },
        },
    }
}

/// Parse the movie box of a file, `Ok(None)` when there is none.
pub fn parse_movie(file: &HeifFile) -> (res: Result<Option<Movie>>)
    requires
        file@.wf(),
    ensures
        match res {
            Ok(None) => movie_of(file@) == Ok::<Option<MovieModel>, ErrorKind>(None),
            Ok(Some(m)) => movie_of(file@) == Ok::<Option<MovieModel>, ErrorKind>(Some(m@)),
            Err(e) => movie_of(file@) == Err::<Option<MovieModel>, ErrorKind>(e.kind()),
        },
{
    let moov: &[u8] = match file.top_level_payload(&tags::MOOV) {
        None => {
            return Ok(None);
        },
        Some(p) => p,
    };
    let all: &[u8] = file.bytes();
    assert(all.len() == all@.len());
    let file_len: u64 = all.len() as u64;
    let mvhd: &[u8] = find_needed(moov, &tags::MVHD, "moov without mvhd")?;
    let (timescale, duration) = parse_times(mvhd)?;
    let tracks: Vec<Track> = parse_tracks(moov, file_len)?;
    let (producer_reference_times, subsegment_indexes) = parse_segments(file)?;
    Ok(Some(Movie { timescale, duration, tracks, producer_reference_times, subsegment_indexes }))
}

proof fn lemma_track_samples(trak: Seq<u8>, file_len: u64)
    ensures
        trak_of(trak, file_len) matches Ok(t) ==> crate::sequence::table::consistent(
            t.samples,
            file_len,
        ),
{
    if let Ok(media) = media_of(trak) {
        crate::sequence::table::law_sample_table(media.stbl, file_len);
    }
}

proof fn lemma_tracks(b: Seq<u8>, pos: int, file_len: u64, acc: Seq<TrackModel>)
    requires
        acc.len() <= MAX_TRACKS,
        forall|i: int|
            0 <= i < acc.len() ==> crate::sequence::table::consistent(
                (#[trigger] acc[i]).samples,
                file_len,
            ),
    ensures
        tracks_from(b, pos, file_len, acc) matches Ok(v) ==> v.len() <= MAX_TRACKS && forall|i: int|
            0 <= i < v.len() ==> crate::sequence::table::consistent(
                (#[trigger] v[i]).samples,
                file_len,
            ),
    decreases b.len() - pos,
{
    if pos < b.len() {
        if let Some(h) = header_at(b, pos) {
            if pos < h.end_at() <= b.len() {
                if h.box_type != tags::TRAK {
                    lemma_tracks(b, h.end_at(), file_len, acc);
                } else if acc.len() < MAX_TRACKS {
                    lemma_track_samples(payload_of(b, h), file_len);
                    if let Ok(t) = trak_of(payload_of(b, h), file_len) {
                        lemma_tracks(b, h.end_at(), file_len, acc.push(t));
                    }
                }
            }
        }
    }
}

/// Every sample of every track of a parsed movie can be read from the file it
/// was parsed from.
#[verifier::rlimit(50)]
pub proof fn law_movie_samples(f: FileModel, track: int, sample: int)
    requires
        f.data.len() <= u64::MAX,
        movie_of(f) matches Ok(Some(m)) && 0 <= track < m.tracks.len() && 0 <= sample
            < m.tracks[track].samples.len(),
    ensures
        movie_of(f) matches Ok(Some(m)) && crate::sequence::sample_of(
            f.data,
            m.tracks[track].samples[sample],
        ) is Ok,
        movie_of(f) matches Ok(Some(m)) && m.tracks.len() <= MAX_TRACKS,
{
    let moov = f.top_payload(tags::MOOV)->Some_0;
    lemma_tracks(moov, 0, f.data.len() as u64, Seq::empty());
    let m = movie_of(f)->Ok_0->Some_0;
    let s = m.tracks[track].samples;
    assert(crate::sequence::table::consistent(s, f.data.len() as u64));
    assert(s[sample].offset + s[sample].size <= f.data.len());
}

} // verus!
