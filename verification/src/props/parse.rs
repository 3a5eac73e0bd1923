//! Bodies of the property boxes.
use crate::boxes::{cstr_at, cstr_end, fourcc_at, fourcc_eq, full_box, parse_full_box, FourCc, Reader};
use crate::bytes::{be16, be32, be64, copy_of, signed32, span};
use crate::error::{outcome, plain_outcome, ErrorKind, HeifError, Outcome, Result};
use crate::lhvc::{operating_points_of, OperatingPoints, OperatingPointsModel};
use crate::meta::parse::text_or_empty;
use crate::props::{
    A1lx, A1op, Altt, AlttModel, Amve, AuxC, AuxCModel, Cclv, Clap, Clli, Colr, ColrModel, Imir, Irot, Iscl, Ispe, Lsel,
    Mdcv, Pasp, Pixi, PixiModel, Rloc, Rref, RrefModel, TimeInfo, Udes, UdesModel,
};
use crate::tags;
use crate::text::{concat, decimal};
use vstd::prelude::*;

verus! {

/// The body of a FullBox of version 0.
pub open spec fn version0(b: Seq<u8>) -> Outcome<Seq<u8>> {
    match full_box(b) {
        Some((0, _, body)) => Ok(body),
        _ => Err(ErrorKind::Invalid),
    }
}

fn body_of_version0<'a>(b: &'a [u8], what: &str) -> (r: Result<&'a [u8]>)
    ensures
        match r {
            Ok(x) => version0(b@) == Ok::<Seq<u8>, ErrorKind>(x@),
            Err(e) => version0(b@) is Err && e.kind() == ErrorKind::Invalid,
        },
{
    let (v, _, body) = parse_full_box(b)?;
    if v != 0 {
        let n: String = decimal(v as u64);
        return Err(HeifError::invalid(concat(&[what, " version ", n.as_str()])));
    }
    Ok(body)
}

/// The body of a box of `n` bytes, with or without a FullBox prefix.
pub open spec fn plain_or_full(b: Seq<u8>, n: int) -> Outcome<Seq<u8>> {
    if b.len() == n {
        Ok(b)
    } else if b.len() == n + 4 {
        Ok(b.subrange(4, b.len() as int))
    } else {
        Err(ErrorKind::Invalid)
    }
}

/// `clli` / `mdcv` / `cclv` / `amve` are plain boxes in ISO/IEC 14496-12
/// §12.1.6–9 ("This is a Box, not a FullBox"); some writers emit them
/// with a FullBox prefix. Accept both shapes by length.
fn plain_or_full_body<'a>(b: &'a [u8], plain_len: usize, what: &str) -> (r: Result<&'a [u8]>)
    requires
        plain_len <= 64,
    ensures
        match r {
            Ok(x) => plain_or_full(b@, plain_len as int) == Ok::<Seq<u8>, ErrorKind>(x@),
            Err(e) => plain_or_full(b@, plain_len as int) is Err && e.kind() == ErrorKind::Invalid,
        },
{
    if b.len() == plain_len {
        Ok(b)
    } else if b.len() == plain_len + 4 {
        Ok(span(b, 4, b.len()))
    } else {
        let n: String = decimal(b.len() as u64);
        let m: String = decimal(plain_len as u64);
        Err(
            HeifError::invalid(
                concat(&[what, ": body is ", n.as_str(), " bytes, expected ", m.as_str()]),
            ),
        )
    }
}

/// The first byte of a body.
pub open spec fn first_byte_of(b: Seq<u8>) -> Outcome<u8> {
    if b.len() == 0 {
        Err(ErrorKind::Invalid)
    } else {
        Ok(b[0])
    }
}

fn first_byte(b: &[u8], what: &str) -> (r: Result<u8>)
    ensures
        plain_outcome(r) == first_byte_of(b@),
{
    if b.len() == 0 {
        return Err(HeifError::invalid(concat(&[what, ": empty body"])));
    }
    Ok(b[0])
}

/// The `ispe` body.
#[verifier::opaque]
pub open spec fn ispe_of(b: Seq<u8>) -> Outcome<Ispe> {
    match version0(b) {
        Err(e) => Err(e),
        Ok(x) => if x.len() < 8 {
            Err(ErrorKind::Invalid)
        } else {
            Ok(Ispe { width: be32(x, 0), height: be32(x, 4) })
        },
    }
}

/// Parse an `ispe` body.
pub fn parse_ispe(b: &[u8]) -> (res: Result<Ispe>)
    ensures
        plain_outcome(res) == ispe_of(b@),
{
    proof {
        reveal(ispe_of);
    }
    let body: &[u8] = body_of_version0(b, "ispe")?;
    let mut r: Reader = Reader::new(body);
    let width: u32 = r.u32("ispe image_width")?;
    let height: u32 = r.u32("ispe image_height")?;
    Ok(Ispe { width, height })
}

/// The `pixi` body.
#[verifier::opaque]
pub open spec fn pixi_of(b: Seq<u8>) -> Outcome<PixiModel> {
    match version0(b) {
        Err(e) => Err(e),
        Ok(x) => if x.len() < 1 || x.len() < 1 + x[0] {
            Err(ErrorKind::Invalid)
        } else {
            Ok(PixiModel { bits_per_channel: x.subrange(1, 1 + x[0]) })
        },
    }
}

/// Parse a `pixi` body.
pub fn parse_pixi(b: &[u8]) -> (res: Result<Pixi>)
    ensures
        outcome(res) == pixi_of(b@),
{
    proof {
        reveal(pixi_of);
    }
    let body: &[u8] = body_of_version0(b, "pixi")?;
    let mut r: Reader = Reader::new(body);
    let n: u8 = r.u8("pixi num_channels")?;
    let bits: &[u8] = r.bytes(n as usize, "pixi bits_per_channel")?;
    Ok(Pixi { bits_per_channel: copy_of(bits) })
}

/// The `colr` body.
#[verifier::opaque]
pub open spec fn colr_of(b: Seq<u8>) -> Outcome<ColrModel> {
    let t = fourcc_at(b, 0);
    if b.len() < 4 {
        Err(ErrorKind::Invalid)
    } else if t == tags::NCLX {
        if b.len() < 11 {
            Err(ErrorKind::Invalid)
        } else {
            Ok(
                ColrModel::Nclx {
                    primaries: be16(b, 4),
                    transfer: be16(b, 6),
                    matrix: be16(b, 8),
                    full_range: b[10] / 128 == 1,
                },
            )
        }
    } else if t == tags::RICC {
        Ok(ColrModel::Icc { restricted: true, profile: b.subrange(4, b.len() as int) })
    } else if t == tags::PROF {
        Ok(ColrModel::Icc { restricted: false, profile: b.subrange(4, b.len() as int) })
    } else {
        Ok(ColrModel::Other { colour_type: t, payload: b.subrange(4, b.len() as int) })
    }
}

/// Parse a `colr` body.
pub fn parse_colr(b: &[u8]) -> (res: Result<Colr>)
    ensures
        outcome(res) == colr_of(b@),
{
    proof {
        reveal(colr_of);
    }
    let mut r: Reader = Reader::new(b);
    let colour_type: FourCc = r.fourcc("colr colour_type")?;
    if fourcc_eq(&colour_type, &tags::NCLX) {
        let primaries: u16 = r.u16("colr colour_primaries")?;
        let transfer: u16 = r.u16("colr transfer_characteristics")?;
        let matrix: u16 = r.u16("colr matrix_coefficients")?;
        let flag: u8 = r.u8("colr full_range_flag")?;
        Ok(Colr::Nclx { primaries, transfer, matrix, full_range: flag / 128 == 1 })
    } else if fourcc_eq(&colour_type, &tags::RICC) {
        Ok(Colr::Icc { restricted: true, profile: copy_of(r.rest()) })
    } else if fourcc_eq(&colour_type, &tags::PROF) {
        Ok(Colr::Icc { restricted: false, profile: copy_of(r.rest()) })
    } else {
        Ok(Colr::Other { colour_type, payload: copy_of(r.rest()) })
    }
}

/// The `pasp` body.
#[verifier::opaque]
pub open spec fn pasp_of(b: Seq<u8>) -> Outcome<Pasp> {
    if b.len() < 8 {
        Err(ErrorKind::Invalid)
    } else {
        Ok(Pasp { h_spacing: be32(b, 0), v_spacing: be32(b, 4) })
    }
}

/// Parse a `pasp` body.
pub fn parse_pasp(b: &[u8]) -> (res: Result<Pasp>)
    ensures
        plain_outcome(res) == pasp_of(b@),
{
    proof {
        reveal(pasp_of);
    }
    let mut r: Reader = Reader::new(b);
    let h_spacing: u32 = r.u32("pasp hSpacing")?;
    let v_spacing: u32 = r.u32("pasp vSpacing")?;
    Ok(Pasp { h_spacing, v_spacing })
}

/// The `clap` body.
#[verifier::opaque]
pub open spec fn clap_of(b: Seq<u8>) -> Outcome<Clap> {
    if b.len() < 32 {
        Err(ErrorKind::Invalid)
    } else {
        Ok(
            Clap {
                width_n: be32(b, 0),
                width_d: be32(b, 4),
                height_n: be32(b, 8),
                height_d: be32(b, 12),
                horiz_off_n: signed32(be32(b, 16)),
                horiz_off_d: be32(b, 20),
                vert_off_n: signed32(be32(b, 24)),
                vert_off_d: be32(b, 28),
            },
        )
    }
}

/// Parse a `clap` body.
pub fn parse_clap(b: &[u8]) -> (res: Result<Clap>)
    ensures
        plain_outcome(res) == clap_of(b@),
{
    proof {
        reveal(clap_of);
    }
    let mut r: Reader = Reader::new(b);
    let width_n: u32 = r.u32("clap cleanApertureWidthN")?;
    let width_d: u32 = r.u32("clap cleanApertureWidthD")?;
    let height_n: u32 = r.u32("clap cleanApertureHeightN")?;
    let height_d: u32 = r.u32("clap cleanApertureHeightD")?;
    let horiz_off_n: i32 = r.i32("clap horizOffN")?;
    let horiz_off_d: u32 = r.u32("clap horizOffD")?;
    let vert_off_n: i32 = r.i32("clap vertOffN")?;
    let vert_off_d: u32 = r.u32("clap vertOffD")?;
    Ok(
        Clap {
            width_n,
            width_d,
            height_n,
            height_d,
            horiz_off_n,
            horiz_off_d,
            vert_off_n,
            vert_off_d,
        },
    )
}

/// The `irot` body.
#[verifier::opaque]
pub open spec fn irot_of(b: Seq<u8>) -> Outcome<Irot> {
    match first_byte_of(b) {
        Err(e) => Err(e),
        Ok(v) => Ok(Irot { angle: (v % 4) as u8 }),
    }
}

/// Parse an `irot` body.
pub fn parse_irot(b: &[u8]) -> (res: Result<Irot>)
    ensures
        plain_outcome(res) == irot_of(b@),
{
    proof {
        reveal(irot_of);
    }
    let v: u8 = first_byte(b, "irot")?;
    Ok(Irot { angle: v % 4 })
}

/// The `imir` body.
#[verifier::opaque]
pub open spec fn imir_of(b: Seq<u8>) -> Outcome<Imir> {
    match first_byte_of(b) {
        Err(e) => Err(e),
        Ok(v) => Ok(Imir { axis: (v % 2) as u8 }),
    }
}

/// Parse an `imir` body.
pub fn parse_imir(b: &[u8]) -> (res: Result<Imir>)
    ensures
        plain_outcome(res) == imir_of(b@),
{
    proof {
        reveal(imir_of);
    }
    let v: u8 = first_byte(b, "imir")?;
    Ok(Imir { axis: v % 2 })
}

/// The `iscl` body.
#[verifier::opaque]
pub open spec fn iscl_of(b: Seq<u8>) -> Outcome<Iscl> {
    match version0(b) {
        Err(e) => Err(e),
        Ok(x) => if x.len() < 8 {
            Err(ErrorKind::Invalid)
        } else {
            Ok(
                Iscl {
                    width_num: be16(x, 0),
                    width_den: be16(x, 2),
                    height_num: be16(x, 4),
                    height_den: be16(x, 6),
                },
            )
        },
    }
}

/// Parse an `iscl` body.
pub fn parse_iscl(b: &[u8]) -> (res: Result<Iscl>)
    ensures
        plain_outcome(res) == iscl_of(b@),
{
    proof {
        reveal(iscl_of);
    }
    let body: &[u8] = body_of_version0(b, "iscl")?;
    let mut r: Reader = Reader::new(body);
    let width_num: u16 = r.u16("iscl target_width_numerator")?;
    let width_den: u16 = r.u16("iscl target_width_denominator")?;
    let height_num: u16 = r.u16("iscl target_height_numerator")?;
    let height_den: u16 = r.u16("iscl target_height_denominator")?;
    Ok(Iscl { width_num, width_den, height_num, height_den })
}

/// The `auxC` body.
#[verifier::opaque]
pub open spec fn auxc_of(b: Seq<u8>) -> Outcome<AuxCModel> {
    match version0(b) {
        Err(e) => Err(e),
        Ok(x) => Ok(
            AuxCModel {
                aux_type: cstr_at(x, 0),
                aux_subtype: x.subrange(cstr_end(x, 0), x.len() as int),
            },
        ),
    }
}

/// Parse an `auxC` body.
pub fn parse_auxc(b: &[u8]) -> (res: Result<AuxC>)
    ensures
        outcome(res) == auxc_of(b@),
{
    proof {
        reveal(auxc_of);
    }
    let body: &[u8] = body_of_version0(b, "auxC")?;
    let mut r: Reader = Reader::new(body);
    let aux_type: String = r.cstr("auxC aux_type")?;
    Ok(AuxC { aux_type, aux_subtype: copy_of(r.rest()) })
}

/// The `oinf` body.
#[verifier::opaque]
pub open spec fn oinf_of(b: Seq<u8>) -> Outcome<OperatingPointsModel> {
    match version0(b) {
        Err(e) => Err(e),
        Ok(x) => operating_points_of(x),
    }
}

/// Parse an `oinf` body.
pub fn parse_oinf(b: &[u8]) -> (res: Result<OperatingPoints>)
    ensures
        outcome(res) == oinf_of(b@),
{
    proof {
        reveal(oinf_of);
    }
    let body: &[u8] = body_of_version0(b, "oinf")?;
    OperatingPoints::parse(body)
}

/// The `tols` body.
#[verifier::opaque]
pub open spec fn tols_of(b: Seq<u8>) -> Outcome<u16> {
    match version0(b) {
        Err(e) => Err(e),
        Ok(x) => if x.len() < 2 {
            Err(ErrorKind::Invalid)
        } else {
            Ok(be16(x, 0))
        },
    }
}

/// Parse a `tols` body.
pub fn parse_tols(b: &[u8]) -> (res: Result<u16>)
    ensures
        plain_outcome(res) == tols_of(b@),
{
    proof {
        reveal(tols_of);
    }
    let body: &[u8] = body_of_version0(b, "tols")?;
    let mut r: Reader = Reader::new(body);
    r.u16("tols target_ols_idx")
}

/// The `clli` body.
#[verifier::opaque]
pub open spec fn clli_of(b: Seq<u8>) -> Outcome<Clli> {
    match plain_or_full(b, 4) {
        Err(e) => Err(e),
        Ok(x) => Ok(
            Clli {
                max_content_light_level: be16(x, 0),
                max_pic_average_light_level: be16(x, 2),
            },
        ),
    }
}

/// Parse a `clli` body.
pub fn parse_clli(b: &[u8]) -> (res: Result<Clli>)
    ensures
        plain_outcome(res) == clli_of(b@),
{
    proof {
        reveal(clli_of);
    }
    let body: &[u8] = plain_or_full_body(b, 4, "clli")?;
    let mut r: Reader = Reader::new(body);
    let max_content_light_level: u16 = r.u16("clli max_content_light_level")?;
    let max_pic_average_light_level: u16 = r.u16("clli max_pic_average_light_level")?;
    Ok(Clli { max_content_light_level, max_pic_average_light_level })
}

/// The `mdcv` body.
#[verifier::opaque]
pub open spec fn mdcv_of(b: Seq<u8>) -> Outcome<Mdcv> {
    match plain_or_full(b, 24) {
        Err(e) => Err(e),
        Ok(x) => Ok(
            Mdcv {
                display_primaries: [
                    (be16(x, 0), be16(x, 2)),
                    (be16(x, 4), be16(x, 6)),
                    (be16(x, 8), be16(x, 10)),
                ],
                white_point: (be16(x, 12), be16(x, 14)),
                max_luminance: be32(x, 16),
                min_luminance: be32(x, 20),
            },
        ),
    }
}

/// Parse an `mdcv` body. ISO/IEC 14496-12 §12.1.7: the chromaticities are
/// interleaved per primary.
pub fn parse_mdcv(b: &[u8]) -> (res: Result<Mdcv>)
    ensures
        plain_outcome(res) == mdcv_of(b@),
{
    proof {
        reveal(mdcv_of);
    }
    let body: &[u8] = plain_or_full_body(b, 24, "mdcv")?;
    let mut r: Reader = Reader::new(body);
    let x0: u16 = r.u16("mdcv display_primaries_x")?;
    let y0: u16 = r.u16("mdcv display_primaries_y")?;
    let x1: u16 = r.u16("mdcv display_primaries_x")?;
    let y1: u16 = r.u16("mdcv display_primaries_y")?;
    let x2: u16 = r.u16("mdcv display_primaries_x")?;
    let y2: u16 = r.u16("mdcv display_primaries_y")?;
    let wx: u16 = r.u16("mdcv white_point_x")?;
    let wy: u16 = r.u16("mdcv white_point_y")?;
    let max_luminance: u32 = r.u32("mdcv max_display_mastering_luminance")?;
    let min_luminance: u32 = r.u32("mdcv min_display_mastering_luminance")?;
    Ok(
        Mdcv {
            display_primaries: [(x0, y0), (x1, y1), (x2, y2)],
            white_point: (wx, wy),
            max_luminance,
            min_luminance,
        },
    )
}

/// Whether flag `bit` of `flags` is set.
pub open spec fn flag(flags: u8, bit: int) -> bool {
    flags as int / bit % 2 == 1
}

/// The bytes of a `cclv` body before its luminance values.
pub open spec fn cclv_head(flags: u8) -> int {
    if flag(flags, 0x20) {
        25
    } else {
        1
    }
}

/// The bytes a luminance value takes up.
pub open spec fn value_len(present: bool) -> int {
    if present {
        4
    } else {
        0
    }
}

/// Body length of a `cclv` (§12.1.8) from its flag byte: 1 + 24 with
/// the primaries + 4 per present luminance value.
pub open spec fn cclv_len(flags: u8) -> int {
    cclv_head(flags) + value_len(flag(flags, 0x10)) + value_len(flag(flags, 0x08)) + value_len(
        flag(flags, 0x04),
    )
}

/// The 32-bit value at `p`, when present.
pub open spec fn value_at(x: Seq<u8>, p: int, present: bool) -> Option<u32> {
    if present {
        Some(be32(x, p))
    } else {
        None
    }
}

/// The signed 32-bit value at `p`.
pub open spec fn coord(x: Seq<u8>, p: int) -> i32 {
    signed32(be32(x, p))
}

/// The `cclv` body, its prefix taken off.
pub open spec fn cclv_body(b: Seq<u8>) -> Outcome<Seq<u8>> {
    if b.len() > 0 && cclv_len(b[0]) == b.len() {
        Ok(b)
    } else if b.len() >= 5 && cclv_len(b[4]) + 4 == b.len() {
        Ok(b.subrange(4, b.len() as int))
    } else {
        Err(ErrorKind::Invalid)
    }
}

/// The `cclv` body.
#[verifier::opaque]
pub open spec fn cclv_of(b: Seq<u8>) -> Outcome<Cclv> {
    match cclv_body(b) {
        Err(e) => Err(e),
        Ok(x) => {
            let f = x[0];
            let p1 = cclv_head(f);
            let p2 = p1 + value_len(flag(f, 0x10));
            let p3 = p2 + value_len(flag(f, 0x08));
            Ok(
                Cclv {
                    cancel: flag(f, 0x80),
                    persistence: flag(f, 0x40),
                    primaries: if flag(f, 0x20) {
                        Some(
                            [
                                (coord(x, 1), coord(x, 5)),
                                (coord(x, 9), coord(x, 13)),
                                (coord(x, 17), coord(x, 21)),
                            ],
                        )
                    } else {
                        None
                    },
                    min_luminance: value_at(x, p1, flag(f, 0x10)),
                    max_luminance: value_at(x, p2, flag(f, 0x08)),
                    avg_luminance: value_at(x, p3, flag(f, 0x04)),
                },
            )
        },
    }
}

fn has_flag(flags: u8, bit: u8) -> (r: bool)
    requires
        bit > 0,
    ensures
        r == flag(flags, bit as int),
{
    flags / bit % 2 == 1
}

fn cclv_body_len(flags: u8) -> (n: usize)
    ensures
        n == cclv_len(flags),
        1 <= n <= 37,
{
    let mut n: usize = if has_flag(flags, 0x20) {
        25
    } else {
        1
    };
    if has_flag(flags, 0x10) {
        n = n + 4;
    }
    if has_flag(flags, 0x08) {
        n = n + 4;
    }
    if has_flag(flags, 0x04) {
        n = n + 4;
    }
    n
}

fn read_value(r: &mut Reader, present: bool, what: &str) -> (res: Result<Option<u32>>)
    requires
        old(r).wf(),
        present ==> old(r).at() + 4 <= old(r).data().len(),
    ensures
        final(r).wf(),
        final(r).data() == old(r).data(),
        final(r).at() == old(r).at() + value_len(present),
        res matches Ok(v) && v == value_at(old(r).data(), old(r).at(), present),
{
    if present {
        let v: u32 = r.u32(what)?;
        Ok(Some(v))
    } else {
        Ok(None)
    }
}

/// Parse a `cclv` body. Plain Box (the specification's shape); a FullBox prefix
/// is accepted when the plain reading does not fit the length.
pub fn parse_cclv(b: &[u8]) -> (res: Result<Cclv>)
    ensures
        plain_outcome(res) == cclv_of(b@),
{
    proof {
        reveal(cclv_of);
    }
    let body: &[u8] = if b.len() > 0 && cclv_body_len(b[0]) == b.len() {
        b
    } else if b.len() >= 5 && cclv_body_len(b[4]) + 4 == b.len() {
        span(b, 4, b.len())
    } else {
        let n: String = decimal(b.len() as u64);
        return Err(
            HeifError::invalid(
                concat(&["cclv: body is ", n.as_str(), " bytes, inconsistent with its flags"]),
            ),
        );
    };
    assert(cclv_body(b@) == Ok::<Seq<u8>, ErrorKind>(body@));
    let mut r: Reader = Reader::new(body);
    let flags: u8 = r.u8("cclv flags")?;
    assert(body@.len() == cclv_len(flags));
    let mut primaries: Option<[(i32, i32); 3]> = None;
    if has_flag(flags, 0x20) {
        let x0: i32 = r.i32("cclv ccv_primaries_x")?;
        let y0: i32 = r.i32("cclv ccv_primaries_y")?;
        let x1: i32 = r.i32("cclv ccv_primaries_x")?;
        let y1: i32 = r.i32("cclv ccv_primaries_y")?;
        let x2: i32 = r.i32("cclv ccv_primaries_x")?;
        let y2: i32 = r.i32("cclv ccv_primaries_y")?;
        primaries = Some([(x0, y0), (x1, y1), (x2, y2)]);
    }
    let has_min: bool = has_flag(flags, 0x10);
    let has_max: bool = has_flag(flags, 0x08);
    let has_avg: bool = has_flag(flags, 0x04);
    let min_luminance: Option<u32> = read_value(&mut r, has_min, "cclv ccv_min_luminance_value")?;
    let max_luminance: Option<u32> = read_value(&mut r, has_max, "cclv ccv_max_luminance_value")?;
    let avg_luminance: Option<u32> = read_value(&mut r, has_avg, "cclv ccv_avg_luminance_value")?;
    Ok(
        Cclv {
            cancel: has_flag(flags, 0x80),
            persistence: has_flag(flags, 0x40),
            primaries,
            min_luminance,
            max_luminance,
            avg_luminance,
        },
    )
}

/// The `amve` body.
#[verifier::opaque]
pub open spec fn amve_of(b: Seq<u8>) -> Outcome<Amve> {
    match plain_or_full(b, 8) {
        Err(e) => Err(e),
        Ok(x) => Ok(
            Amve {
                ambient_illuminance: be32(x, 0),
                ambient_light_x: be16(x, 4),
                ambient_light_y: be16(x, 6),
            },
        ),
    }
}

/// Parse an `amve` body.
pub fn parse_amve(b: &[u8]) -> (res: Result<Amve>)
    ensures
        plain_outcome(res) == amve_of(b@),
{
    proof {
        reveal(amve_of);
    }
    let body: &[u8] = plain_or_full_body(b, 8, "amve")?;
    let mut r: Reader = Reader::new(body);
    let ambient_illuminance: u32 = r.u32("amve ambient_illuminance")?;
    let ambient_light_x: u16 = r.u16("amve ambient_light_x")?;
    let ambient_light_y: u16 = r.u16("amve ambient_light_y")?;
    Ok(Amve { ambient_illuminance, ambient_light_x, ambient_light_y })
}

/// The `rloc` body.
#[verifier::opaque]
pub open spec fn rloc_of(b: Seq<u8>) -> Outcome<Rloc> {
    match version0(b) {
        Err(e) => Err(e),
        Ok(x) => if x.len() < 8 {
            Err(ErrorKind::Invalid)
        } else {
            Ok(Rloc { horizontal_offset: be32(x, 0), vertical_offset: be32(x, 4) })
        },
    }
}

/// Parse an `rloc` body.
pub fn parse_rloc(b: &[u8]) -> (res: Result<Rloc>)
    ensures
        plain_outcome(res) == rloc_of(b@),
{
    proof {
        reveal(rloc_of);
    }
    let body: &[u8] = body_of_version0(b, "rloc")?;
    let mut r: Reader = Reader::new(body);
    let horizontal_offset: u32 = r.u32("rloc horizontal_offset")?;
    let vertical_offset: u32 = r.u32("rloc vertical_offset")?;
    Ok(Rloc { horizontal_offset, vertical_offset })
}

/// The `lsel` body.
#[verifier::opaque]
pub open spec fn lsel_of(b: Seq<u8>) -> Outcome<Lsel> {
    match plain_or_full(b, 2) {
        Err(e) => Err(e),
        Ok(x) => Ok(Lsel { layer_id: be16(x, 0) }),
    }
}

/// Parse an `lsel` body.
pub fn parse_lsel(b: &[u8]) -> (res: Result<Lsel>)
    ensures
        plain_outcome(res) == lsel_of(b@),
{
    proof {
        reveal(lsel_of);
    }
    let body: &[u8] = plain_or_full_body(b, 2, "lsel")?;
    let mut r: Reader = Reader::new(body);
    let layer_id: u16 = r.u16("lsel layer_id")?;
    Ok(Lsel { layer_id })
}

/// The `a1op` body.
#[verifier::opaque]
pub open spec fn a1op_of(b: Seq<u8>) -> Outcome<A1op> {
    match first_byte_of(b) {
        Err(e) => Err(e),
        Ok(v) => Ok(A1op { op_index: v }),
    }
}

/// Parse an `a1op` body.
pub fn parse_a1op(b: &[u8]) -> (res: Result<A1op>)
    ensures
        plain_outcome(res) == a1op_of(b@),
{
    proof {
        reveal(a1op_of);
    }
    let v: u8 = first_byte(b, "a1op")?;
    Ok(A1op { op_index: v })
}

/// The `a1lx` body.
#[verifier::opaque]
pub open spec fn a1lx_of(b: Seq<u8>) -> Outcome<A1lx> {
    if b.len() < 1 {
        Err(ErrorKind::Invalid)
    } else if b[0] % 2 == 1 {
        if b.len() < 13 {
            Err(ErrorKind::Invalid)
        } else {
            Ok(A1lx { large_size: true, layer_size: [be32(b, 1), be32(b, 5), be32(b, 9)] })
        }
    } else {
        if b.len() < 7 {
            Err(ErrorKind::Invalid)
        } else {
            Ok(
                A1lx {
                    large_size: false,
                    layer_size: [be16(b, 1) as u32, be16(b, 3) as u32, be16(b, 5) as u32],
                },
            )
        }
    }
}

/// Parse an `a1lx` body.
pub fn parse_a1lx(b: &[u8]) -> (res: Result<A1lx>)
    ensures
        plain_outcome(res) == a1lx_of(b@),
{
    proof {
        reveal(a1lx_of);
    }
    let mut r: Reader = Reader::new(b);
    let flags: u8 = r.u8("a1lx flags")?;
    if flags % 2 == 1 {
        let s0: u32 = r.u32("a1lx layer_size")?;
        let s1: u32 = r.u32("a1lx layer_size")?;
        let s2: u32 = r.u32("a1lx layer_size")?;
        Ok(A1lx { large_size: true, layer_size: [s0, s1, s2] })
    } else {
        let s0: u16 = r.u16("a1lx layer_size")?;
        let s1: u16 = r.u16("a1lx layer_size")?;
        let s2: u16 = r.u16("a1lx layer_size")?;
        Ok(A1lx { large_size: false, layer_size: [s0 as u32, s1 as u32, s2 as u32] })
    }
}

/// The `rref` body.
#[verifier::opaque]
pub open spec fn rref_of(b: Seq<u8>) -> Outcome<RrefModel> {
    match version0(b) {
        Err(e) => Err(e),
        Ok(x) => if x.len() < 1 || x.len() < 1 + 4 * x[0] {
            Err(ErrorKind::Invalid)
        } else {
            Ok(
                RrefModel {
                    reference_types: Seq::new(x[0] as nat, |i: int| fourcc_at(x, 1 + 4 * i)),
                },
            )
        },
    }
}

/// Parse an `rref` body.
pub fn parse_rref(b: &[u8]) -> (res: Result<Rref>)
    ensures
        outcome(res) == rref_of(b@),
{
    proof {
        reveal(rref_of);
    }
    let body: &[u8] = body_of_version0(b, "rref")?;
    let mut r: Reader = Reader::new(body);
    let n: u8 = r.u8("rref reference_type_count")?;
    let mut reference_types: Vec<FourCc> = Vec::new();
    let mut i: u8 = 0;
    while i < n
        invariant
            i <= n,
            r.wf(),
            r.data() == body@,
            version0(b@) == Ok::<Seq<u8>, ErrorKind>(body@),
            body@.len() >= 1,
            n == body@[0],
            r.at() == 1 + 4 * i,
            reference_types@.len() == i,
            forall|k: int| 0 <= k < i ==> reference_types@[k] == fourcc_at(body@, 1 + 4 * k),
        decreases n - i,
    {
        proof {
            reveal(rref_of);
        }
        let t: FourCc = r.fourcc("rref reference_type")?;
        reference_types.push(t);
        i = i + 1;
    }
    let x: Rref = Rref { reference_types };
    proof {
        assert(x@.reference_types =~= Seq::new(
            body@[0] as nat,
            |i: int| fourcc_at(body@, 1 + 4 * i),
        ));
    }
    Ok(x)
}

/// The `crtt` / `mdft` body.
#[verifier::opaque]
pub open spec fn time_of(b: Seq<u8>) -> Outcome<TimeInfo> {
    match full_box(b) {
        None => Err(ErrorKind::Invalid),
        Some((_, _, x)) => if x.len() < 8 {
            Err(ErrorKind::Invalid)
        } else {
            Ok(TimeInfo { time: be64(x, 0) })
        },
    }
}

/// Parse a `crtt` / `mdft` body.
pub fn parse_time(b: &[u8]) -> (res: Result<TimeInfo>)
    ensures
        plain_outcome(res) == time_of(b@),
{
    proof {
        reveal(time_of);
    }
    let (_, _, body) = parse_full_box(b)?;
    let mut r: Reader = Reader::new(body);
    let time: u64 = r.u64("property time")?;
    Ok(TimeInfo { time })
}

/// The `udes` body.
#[verifier::opaque]
pub open spec fn udes_of(b: Seq<u8>) -> Outcome<UdesModel> {
    match full_box(b) {
        None => Err(ErrorKind::Invalid),
        Some((_, _, x)) => {
            let p1 = cstr_end(x, 0);
            let p2 = cstr_end(x, p1);
            let p3 = cstr_end(x, p2);
            Ok(
                UdesModel {
                    lang: cstr_at(x, 0),
                    name: cstr_at(x, p1),
                    description: cstr_at(x, p2),
                    tags: text_or_empty(x, p3),
                },
            )
        },
    }
}

/// Parse a `udes` body.
pub fn parse_udes(b: &[u8]) -> (res: Result<Udes>)
    ensures
        outcome(res) == udes_of(b@),
{
    proof {
        reveal(udes_of);
    }
    let (_, _, body) = parse_full_box(b)?;
    let mut r: Reader = Reader::new(body);
    let lang: String = r.cstr("udes lang")?;
    let name: String = r.cstr("udes name")?;
    let description: String = r.cstr("udes description")?;
    let tags: String = if r.is_empty() {
        String::new()
    } else {
        r.cstr("udes tags")?
    };
    Ok(Udes { lang, name, description, tags })
}

/// The `altt` body.
#[verifier::opaque]
pub open spec fn altt_of(b: Seq<u8>) -> Outcome<AlttModel> {
    match full_box(b) {
        None => Err(ErrorKind::Invalid),
        Some((_, _, x)) => Ok(
            AlttModel { alt_text: cstr_at(x, 0), alt_lang: text_or_empty(x, cstr_end(x, 0)) },
        ),
    }
}

/// Parse an `altt` body.
pub fn parse_altt(b: &[u8]) -> (res: Result<Altt>)
    ensures
        outcome(res) == altt_of(b@),
{
    proof {
        reveal(altt_of);
    }
    let (_, _, body) = parse_full_box(b)?;
    let mut r: Reader = Reader::new(body);
    let alt_text: String = r.cstr("altt alt_text")?;
    let alt_lang: String = if r.is_empty() {
        String::new()
    } else {
        r.cstr("altt alt_lang")?
    };
    Ok(Altt { alt_text, alt_lang })
}

} // verus!
