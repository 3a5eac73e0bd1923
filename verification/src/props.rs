//! Typed item properties (ISO/IEC 23008-12 §6.5, Annex B.2.3, AVIF
//! §4, ISO/IEC 14496-12 §12.1.4 / §12.1.5) over the raw `ipco` boxes.
//!
//! Property semantics that matter for decoding:
//!
//! * **descriptive** properties describe the reconstructed image
//!   *before* transformations (§6.5.1); readers ignore descriptive
//!   properties that follow the first transformative or unrecognized
//!   property in the association order.
//! * **transformative** properties (`clap`, `irot`, `imir`, `iscl`)
//!   apply in association order to the reconstructed image (§6.3);
//!   MIAF (§7.3.9) additionally requires them to be essential and
//!   ordered clean aperture → rotation → mirror.
//! * an **unrecognized essential** property means the item shall not be
//!   processed (§9.3.1 of the 2017 edition).
use crate::av1c::{av1_config_of, Av1Config, Av1Model};
use crate::avcc::{avc_config_of, AvcConfig, AvcModel};
use crate::boxes::{fourcc_eq, fourcc_str, fourcc_text, FourCc};
use crate::bytes::{clone_vec, copy_of, copy_vec, signed32, to_i32};
use crate::error::{class_text, outcome, plain_outcome, ErrorKind, HeifError, Outcome, Result};
use crate::hvcc::{hevc_config_of, HevcConfig, HevcModel};
use crate::lhvc::{lhevc_config_of, LhevcConfig, LhevcModel, OperatingPoints, OperatingPointsModel};
use crate::meta::{named_views, Meta, RawProperty, RawPropertyModel};
use crate::props::parse::{
    a1lx_of, a1op_of, altt_of, amve_of, auxc_of, cclv_of, clap_of, clli_of, colr_of, imir_of, irot_of, iscl_of, ispe_of,
    lsel_of, mdcv_of, oinf_of, parse_a1lx, parse_a1op, parse_altt, parse_amve, parse_auxc, parse_cclv, parse_clap,
    parse_clli, parse_colr, parse_imir, parse_irot, parse_iscl, parse_ispe, parse_lsel, parse_mdcv, parse_oinf,
    parse_pasp, parse_pixi, parse_rloc, parse_rref, parse_time, parse_tols, parse_udes, pasp_of, pixi_of, rloc_of,
    rref_of, time_of, tols_of, udes_of,
};
use crate::tags;
use crate::text::{concat, decimal, decimal_chars, same_text, text2, text7};
use vstd::prelude::*;

pub mod laws;
pub mod parse;
pub mod round_trip;
pub mod write;

verus! {

/// Alpha plane URN, codec-independent (HEIF §6.9.1, MIAF §7.3.5.1).
pub const AUX_URN_ALPHA: &'static str = "urn:mpeg:mpegB:cicp:systems:auxiliary:alpha";

/// Depth map URN, codec-independent (HEIF §6.9.2).
pub const AUX_URN_DEPTH: &'static str = "urn:mpeg:mpegB:cicp:systems:auxiliary:depth";

/// HEVC alpha plane URN (HEIF Annex B.2.4).
pub const AUX_URN_ALPHA_HEVC: &'static str = "urn:mpeg:hevc:2015:auxid:1";

/// HEVC depth map URN (HEIF Annex B.2.4).
pub const AUX_URN_DEPTH_HEVC: &'static str = "urn:mpeg:hevc:2015:auxid:2";

/// `ispe` (§6.5.3).
#[derive(Clone, Copy, Debug, PartialEq, Eq)]
pub struct Ispe {
    /// `image_width` of the reconstructed image.
    pub width: u32,
    /// `image_height` of the reconstructed image.
    pub height: u32,
}

/// `pixi` (§6.5.6).
#[derive(Debug, PartialEq, Eq)]
pub struct Pixi {
    /// `bits_per_channel[]`.
    pub bits_per_channel: Vec<u8>,
}

/// Model of [`Pixi`].
#[verifier::ext_equal]
pub struct PixiModel {
    /// `bits_per_channel[]`.
    pub bits_per_channel: Seq<u8>,
}

impl View for Pixi {
    type V = PixiModel;

    open spec fn view(&self) -> PixiModel {
        PixiModel {
            bits_per_channel: self.bits_per_channel@,
        }
    }
}

impl DeepView for Pixi {
    type V = PixiModel;

    open spec fn deep_view(&self) -> PixiModel {
        self@
    }
}

impl Clone for Pixi {
    fn clone(&self) -> (r: Self)
        ensures
            r@ == self@,
    {
        Pixi {
            bits_per_channel: copy_of(self.bits_per_channel.as_slice()),
        }
    }
}

/// The largest element, 0 for none.
pub open spec fn largest(s: Seq<u8>) -> u8
    decreases s.len(),
{
    if s.len() == 0 {
        0
    } else if largest(s.drop_last()) >= s.last() {
        largest(s.drop_last())
    } else {
        s.last()
    }
}

impl Pixi {
    /// `num_channels`.
    pub fn num_channels(&self) -> (r: usize)
        ensures
            r == self@.bits_per_channel.len(),
    {
        self.bits_per_channel.len()
    }

    /// Largest channel depth (0 for an empty list).
    pub fn max_bit_depth(&self) -> (r: u8)
        ensures
            r == largest(self@.bits_per_channel),
    {
        let ghost all = self.bits_per_channel@;
        let mut r: u8 = 0;
        proof {
            assert(all.take(0) =~= Seq::empty());
        }
        for i in 0..self.bits_per_channel.len()
            invariant
                all == self.bits_per_channel@,
                r == largest(all.take(i as int)),
        {
            proof {
                assert(all.take(i + 1).drop_last() =~= all.take(i as int));
            }
            if self.bits_per_channel[i] > r {
                r = self.bits_per_channel[i];
            }
        }
        proof {
            assert(all.take(all.len() as int) =~= all);
        }
        r
    }
}

/// `colr` (§6.5.5; ISO/IEC 14496-12 §12.1.5).
#[derive(Debug, PartialEq, Eq)]
pub enum Colr {
    /// `nclx`: CICP code points (ISO/IEC 23091-2 / H.273).
    Nclx {
        /// `colour_primaries`.
        primaries: u16,
        /// `transfer_characteristics`.
        transfer: u16,
        /// `matrix_coefficients`.
        matrix: u16,
        /// `full_range_flag`.
        full_range: bool,
    },
    /// `rICC` / `prof`: an ICC profile.
    Icc {
        /// `true` for `rICC` (restricted), `false` for `prof`.
        restricted: bool,
        /// The ICC profile bytes.
        profile: Vec<u8>,
    },
    /// Any other `colour_type` (kept raw).
    Other {
        /// The `colour_type` tag.
        colour_type: FourCc,
        /// The bytes after the tag.
        payload: Vec<u8>,
    },
}

/// Model of [`Colr`].
#[verifier::ext_equal]
pub enum ColrModel {
    /// `nclx`: CICP code points.
    Nclx {
        /// `colour_primaries`.
        primaries: u16,
        /// `transfer_characteristics`.
        transfer: u16,
        /// `matrix_coefficients`.
        matrix: u16,
        /// `full_range_flag`.
        full_range: bool,
    },
    /// `rICC` / `prof`: an ICC profile.
    Icc {
        /// `true` for `rICC` (restricted), `false` for `prof`.
        restricted: bool,
        /// The ICC profile bytes.
        profile: Seq<u8>,
    },
    /// Any other `colour_type`.
    Other {
        /// The `colour_type` tag.
        colour_type: FourCc,
        /// The bytes after the tag.
        payload: Seq<u8>,
    },
}

impl View for Colr {
    type V = ColrModel;

    open spec fn view(&self) -> ColrModel {
        match self {
            Colr::Nclx { primaries, transfer, matrix, full_range } => ColrModel::Nclx {
                primaries: *primaries,
                transfer: *transfer,
                matrix: *matrix,
                full_range: *full_range,
            },
            Colr::Icc { restricted, profile } => ColrModel::Icc {
                restricted: *restricted,
                profile: profile@,
            },
            Colr::Other { colour_type, payload } => ColrModel::Other {
                colour_type: *colour_type,
                payload: payload@,
            },
        }
    }
}

impl DeepView for Colr {
    type V = ColrModel;

    open spec fn deep_view(&self) -> ColrModel {
        self@
    }
}

impl Clone for Colr {
    fn clone(&self) -> (r: Self)
        ensures
            r@ == self@,
    {
        match self {
            Colr::Nclx { primaries, transfer, matrix, full_range } => Colr::Nclx {
                primaries: *primaries,
                transfer: *transfer,
                matrix: *matrix,
                full_range: *full_range,
            },
            Colr::Icc { restricted, profile } => Colr::Icc {
                restricted: *restricted,
                profile: copy_of(profile.as_slice()),
            },
            Colr::Other { colour_type, payload } => Colr::Other {
                colour_type: *colour_type,
                payload: copy_of(payload.as_slice()),
            },
        }
    }
}

impl ColrModel {
    /// MIAF §7.3.6.4: BT.709 primaries, sRGB transfer, BT.601 matrix, full
    /// range.
    pub open spec fn miaf_default() -> ColrModel {
        ColrModel::Nclx { primaries: 1, transfer: 13, matrix: 6, full_range: true }
    }
}

impl Colr {
    /// MIAF §7.3.6.4 default when a coded image has no CICP property:
    /// BT.709 primaries, sRGB transfer, BT.601 matrix, full range.
    pub fn miaf_default() -> (r: Colr)
        ensures
            r@ == ColrModel::miaf_default(),
    {
        Colr::Nclx { primaries: 1, transfer: 13, matrix: 6, full_range: true }
    }

    /// `true` for the ICC variants.
    pub fn is_icc(&self) -> (r: bool)
        ensures
            r == (self@ is Icc),
    {
        matches!(self, Colr::Icc { .. })
    }
}

/// `pasp` (§6.5.4; ISO/IEC 14496-12 §12.1.4).
#[derive(Clone, Copy, Debug, PartialEq, Eq)]
pub struct Pasp {
    /// `hSpacing`.
    pub h_spacing: u32,
    /// `vSpacing`.
    pub v_spacing: u32,
}

impl Pasp {
    /// `true` for square pixels (the MIAF-mandated value).
    pub fn is_square(&self) -> (r: bool)
        ensures
            r == (self.h_spacing == self.v_spacing && self.h_spacing != 0),
    {
        self.h_spacing == self.v_spacing && self.h_spacing != 0
    }
}

/// `clap` (§6.5.9; ISO/IEC 14496-12 §12.1.4). Offsets are the raw
/// 32-bit fields interpreted as two's complement (a centre offset can
/// be negative).
#[derive(Clone, Copy, Debug, PartialEq, Eq)]
pub struct Clap {
    /// `cleanApertureWidthN`.
    pub width_n: u32,
    /// `cleanApertureWidthD`.
    pub width_d: u32,
    /// `cleanApertureHeightN`.
    pub height_n: u32,
    /// `cleanApertureHeightD`.
    pub height_d: u32,
    /// `horizOffN`.
    pub horiz_off_n: i32,
    /// `horizOffD`.
    pub horiz_off_d: u32,
    /// `vertOffN`.
    pub vert_off_n: i32,
    /// `vertOffD`.
    pub vert_off_d: u32,
}

/// A resolved clean-aperture rectangle in pixels of the input image.
#[derive(Clone, Copy, Debug, PartialEq, Eq)]
pub struct CropRect {
    /// Left-most column.
    pub x: u32,
    /// Top-most row.
    pub y: u32,
    /// Width.
    pub width: u32,
    /// Height.
    pub height: u32,
}

impl CropRect {
    /// Whether the rectangle is not empty and lies in a `width × height` image.
    pub open spec fn inside(self, width: u32, height: u32) -> bool {
        &&& self.width > 0
        &&& self.height > 0
        &&& self.x + self.width <= width
        &&& self.y + self.height <= height
    }
}

/// Edge and size of an aperture along one axis of `input` pixels: the size is
/// `n / d`, and the edge is `(input - size) / 2 + off_n / off_d`, both whole.
pub open spec fn clap_axis(n: u32, d: u32, off_n: i32, off_d: u32, input: u32) -> Outcome<
    (u32, u32),
> {
    let size: int = n as int / d as int;
    let num: int = (input - size) * off_d + 2 * off_n;
    let den: int = 2 * off_d;
    let edge: int = num / den;
    if d == 0 || off_d == 0 {
        Err(ErrorKind::Invalid)
    } else if n as int % d as int != 0 {
        Err(ErrorKind::Unsupported)
    } else if size == 0 || size > input {
        Err(ErrorKind::Invalid)
    } else if num % den != 0 {
        Err(ErrorKind::Unsupported)
    } else if edge < 0 || edge + size > input {
        Err(ErrorKind::Invalid)
    } else {
        Ok((edge as u32, size as u32))
    }
}

/// A whole quotient is the same with the sign taken out.
proof fn lemma_negated_mod(x: int, d: int)
    requires
        d > 0,
    ensures
        (-x) % d == 0 <==> x % d == 0,
{
    vstd::arithmetic::div_mod::lemma_fundamental_div_mod(x, d);
    vstd::arithmetic::div_mod::lemma_fundamental_div_mod(-x, d);
    if x % d == 0 {
        let q = x / d;
        assert(-x == (-q) * d) by (nonlinear_arith)
            requires
                x == d * q,
        ;
        vstd::arithmetic::div_mod::lemma_mod_multiples_basic(-q, d);
    }
    if (-x) % d == 0 {
        let q = (-x) / d;
        assert(x == (-q) * d) by (nonlinear_arith)
            requires
                -x == d * q,
        ;
        vstd::arithmetic::div_mod::lemma_mod_multiples_basic(-q, d);
    }
}

fn resolve_axis(name: &str, n: u32, d: u32, off_n: i32, off_d: u32, input: u32) -> (r: Result<
    (u32, u32),
>)
    ensures
        plain_outcome(r) == clap_axis(n, d, off_n, off_d, input),
{
    if d == 0 || off_d == 0 {
        return Err(HeifError::invalid(concat(&["clap: zero ", name, " denominator"])));
    }
    let input_text: String = decimal(input as u64);
    if n % d != 0 {
        let a: String = decimal(n as u64);
        let b: String = decimal(d as u64);
        return Err(
            HeifError::unsupported(
                concat(
                    &[
                        "clap: fractional clean aperture ",
                        name,
                        " ",
                        a.as_str(),
                        "/",
                        b.as_str(),
                    ],
                ),
            ),
        );
    }
    let size: u32 = n / d;
    if size == 0 || size > input {
        let s: String = decimal(size as u64);
        return Err(
            HeifError::invalid(
                concat(
                    &[
                        "clap: clean aperture ",
                        name,
                        " ",
                        s.as_str(),
                        " outside the ",
                        input_text.as_str(),
                        "-pixel input",
                    ],
                ),
            ),
        );
    }
    // edge = (input - size) / 2 + off_n / off_d, exactly.
    let ghost num_spec: int = (input - size) * off_d + 2 * off_n;
    let spare: u64 = (input - size) as u64;
    assert(spare * off_d <= 0xffff_ffff * 0xffff_ffff) by (nonlinear_arith)
        requires
            spare <= 0xffff_ffff,
            off_d <= 0xffff_ffff,
    ;
    assert(spare * off_d >= 0) by (nonlinear_arith);
    let plain: i128 = (spare * off_d as u64) as i128;
    let num: i128 = plain + 2 * off_n as i128;
    let den: u128 = 2 * off_d as u128;
    let mag: u128 = if num < 0 {
        (-num) as u128
    } else {
        num as u128
    };
    proof {
        assert(num == num_spec);
        lemma_negated_mod(num_spec, den as int);
    }
    if mag % den != 0 {
        return Err(HeifError::unsupported(concat(&["clap: non-integer ", name, " edge"])));
    }
    let edge: u128 = mag / den;
    proof {
        if num < 0 {
            vstd::arithmetic::div_mod::lemma_fundamental_div_mod(num as int, den as int);
            assert((num as int) / (den as int) < 0) by (nonlinear_arith)
                requires
                    num == den * (num as int / den as int) + (num as int % den as int),
                    0 <= num as int % den as int,
                    num < 0,
                    den > 0,
            ;
        }
        assert(edge >= 0);
    }
    if num < 0 || edge > (input - size) as u128 {
        return Err(
            HeifError::invalid(
                concat(
                    &[
                        "clap: ",
                        name,
                        " aperture outside the ",
                        input_text.as_str(),
                        "-pixel input",
                    ],
                ),
            ),
        );
    }
    Ok((edge as u32, size))
}

/// The offset numerator, in halves, that puts an aperture at `edge`.
pub open spec fn half_offset(edge: u32, size: u32, input: u32) -> int {
    2 * signed32(edge) - (signed32(input) - signed32(size))
}

/// Whether computing [`half_offset`] stays within 32 bits.
pub open spec fn half_offset_fits(edge: u32, size: u32, input: u32) -> bool {
    &&& i32::MIN <= 2 * signed32(edge) <= i32::MAX
    &&& i32::MIN <= signed32(input) - signed32(size) <= i32::MAX
    &&& i32::MIN <= half_offset(edge, size, input) <= i32::MAX
}

fn to_half_offset(edge: u32, size: u32, input: u32) -> (r: i32)
    requires
        half_offset_fits(edge, size, input),
    ensures
        r == half_offset(edge, size, input),
{
    2 * to_i32(edge) - (to_i32(input) - to_i32(size))
}

impl Clap {
    /// The rectangle the aperture selects out of a `width × height` input.
    pub open spec fn rect(self, width: u32, height: u32) -> Outcome<CropRect> {
        match clap_axis(self.width_n, self.width_d, self.horiz_off_n, self.horiz_off_d, width) {
            Err(e) => Err(e),
            Ok((x, w)) => match clap_axis(
                self.height_n,
                self.height_d,
                self.vert_off_n,
                self.vert_off_d,
                height,
            ) {
                Err(e) => Err(e),
                Ok((y, h)) => Ok(CropRect { x, y, width: w, height: h }),
            },
        }
    }

    /// The aperture that selects `rect` out of a `width × height` input.
    pub open spec fn selecting(width: u32, height: u32, rect: CropRect) -> Clap {
        Clap {
            width_n: rect.width,
            width_d: 1,
            height_n: rect.height,
            height_d: 1,
            horiz_off_n: half_offset(rect.x, rect.width, width) as i32,
            horiz_off_d: 2,
            vert_off_n: half_offset(rect.y, rect.height, height) as i32,
            vert_off_d: 2,
        }
    }

    /// Resolve the aperture against an input of `width × height`.
    ///
    /// The clean aperture centre is at `((width − 1) / 2 + horizOff,
    /// (height − 1) / 2 + vertOff)`; the left edge is therefore
    /// `(width − cleanApertureWidth) / 2 + horizOff`. MIAF §7.3.6.7
    /// requires integer apertures; a fractional size or a non-integer
    /// edge is rejected, as is an aperture outside the input.
    pub fn resolve(&self, width: u32, height: u32) -> (r: Result<CropRect>)
        ensures
            plain_outcome(r) == self.rect(width, height),
            r matches Ok(x) ==> x.inside(width, height),
    {
        let (x, w) = resolve_axis(
            "width",
            self.width_n,
            self.width_d,
            self.horiz_off_n,
            self.horiz_off_d,
            width,
        )?;
        let (y, h) = resolve_axis(
            "height",
            self.height_n,
            self.height_d,
            self.vert_off_n,
            self.vert_off_d,
            height,
        )?;
        Ok(CropRect { x, y, width: w, height: h })
    }

    /// Build a centred (or offset) integer clean aperture.
    pub fn integer(width: u32, height: u32, horiz_off: i32, vert_off: i32) -> (r: Self)
        ensures
            r == (Clap {
                width_n: width,
                width_d: 1,
                height_n: height,
                height_d: 1,
                horiz_off_n: horiz_off,
                horiz_off_d: 1,
                vert_off_n: vert_off,
                vert_off_d: 1,
            }),
    {
        Clap {
            width_n: width,
            width_d: 1,
            height_n: height,
            height_d: 1,
            horiz_off_n: horiz_off,
            horiz_off_d: 1,
            vert_off_n: vert_off,
            vert_off_d: 1,
        }
    }

    /// Build the aperture selecting `rect` out of a `width × height`
    /// input; the offsets are expressed in halves so any integer
    /// rectangle is representable exactly.
    pub fn for_rect(width: u32, height: u32, rect: CropRect) -> (r: Self)
        requires
            half_offset_fits(rect.x, rect.width, width),
            half_offset_fits(rect.y, rect.height, height),
        ensures
            r == Clap::selecting(width, height, rect),
    {
        // edge = (input - size)/2 + off  ⇒  off = edge - (input - size)/2
        // ⇒ off_n/off_d = (2*edge - (input - size)) / 2
        Clap {
            width_n: rect.width,
            width_d: 1,
            height_n: rect.height,
            height_d: 1,
            horiz_off_n: to_half_offset(rect.x, rect.width, width),
            horiz_off_d: 2,
            vert_off_n: to_half_offset(rect.y, rect.height, height),
            vert_off_d: 2,
        }
    }
}

/// Resolving the aperture made for a rectangle gives the rectangle back.
#[verifier::rlimit(50)]
pub proof fn law_resolve_inverts_for_rect(width: u32, height: u32, rect: CropRect)
    requires
        rect.inside(width, height),
        width <= i32::MAX,
        height <= i32::MAX,
        half_offset_fits(rect.x, rect.width, width),
        half_offset_fits(rect.y, rect.height, height),
    ensures
        Clap::selecting(width, height, rect).rect(width, height) == Ok::<CropRect, ErrorKind>(rect),
{
}

/// `irot` (§6.5.10): `angle × 90°` anti-clockwise.
#[derive(Clone, Copy, Debug, PartialEq, Eq)]
pub struct Irot {
    /// `angle` in `0..=3`.
    pub angle: u8,
}

/// `imir` (§6.5.12): `axis` 0 = vertical mirror (top/bottom exchanged),
/// 1 = horizontal mirror (left/right exchanged).
#[derive(Clone, Copy, Debug, PartialEq, Eq)]
pub struct Imir {
    /// `axis`.
    pub axis: u8,
}

/// `iscl` (§6.5.13).
#[derive(Clone, Copy, Debug, PartialEq, Eq)]
pub struct Iscl {
    /// `target_width_numerator`.
    pub width_num: u16,
    /// `target_width_denominator`.
    pub width_den: u16,
    /// `target_height_numerator`.
    pub height_num: u16,
    /// `target_height_denominator`.
    pub height_den: u16,
}

/// `v * num / den`, rounded up.
pub open spec fn scaled_up(v: u32, num: u16, den: u16) -> int {
    (v * num + den - 1) / (den as int)
}

fn scale_up(v: u32, num: u16, den: u16) -> (r: u64)
    requires
        den > 0,
    ensures
        r == scaled_up(v, num, den),
{
    assert(v * num <= 0xffff_ffff * 0xffff) by (nonlinear_arith)
        requires
            v <= 0xffff_ffff,
            num <= 0xffff,
    ;
    assert(v * num >= 0) by (nonlinear_arith);
    (v as u64 * num as u64 + den as u64 - 1) / den as u64
}

impl Iscl {
    /// The size of a scaled `width × height` image.
    pub open spec fn scaled(self, width: u32, height: u32) -> Outcome<(u32, u32)> {
        let w = scaled_up(width, self.width_num, self.width_den);
        let h = scaled_up(height, self.height_num, self.height_den);
        if self.width_num == 0 || self.width_den == 0 || self.height_num == 0 || self.height_den
            == 0 || w > u32::MAX || h > u32::MAX {
            Err(ErrorKind::Invalid)
        } else {
            Ok((w as u32, h as u32))
        }
    }

    /// Output size for an input of `width × height` (ceil of the exact
    /// ratio, §6.5.13.1).
    pub fn output_size(&self, width: u32, height: u32) -> (r: Result<(u32, u32)>)
        ensures
            plain_outcome(r) == self.scaled(width, height),
    {
        if self.width_num == 0 || self.width_den == 0 || self.height_num == 0 || self.height_den
            == 0 {
            return Err(HeifError::invalid("iscl: zero numerator or denominator"));
        }
        let w: u64 = scale_up(width, self.width_num, self.width_den);
        let h: u64 = scale_up(height, self.height_num, self.height_den);
        if w > u32::MAX as u64 || h > u32::MAX as u64 {
            return Err(HeifError::invalid("iscl: scaled size overflows"));
        }
        Ok((w as u32, h as u32))
    }
}

/// Kind of an auxiliary image, from its `auxC` URN.
#[derive(Clone, Copy, Debug, PartialEq, Eq, Structural)]
pub enum AuxKind {
    /// Alpha plane (either URN family).
    Alpha,
    /// Depth map (either URN family).
    Depth,
    /// Anything else.
    Other,
}

/// `auxC` (§6.5.8).
#[derive(Debug, PartialEq, Eq)]
pub struct AuxC {
    /// `aux_type` URN.
    pub aux_type: String,
    /// `aux_subtype` bytes (HEVC: `HEVCAuxConfigSubType`, Annex B.2.4).
    pub aux_subtype: Vec<u8>,
}

/// Model of [`AuxC`].
#[verifier::ext_equal]
pub struct AuxCModel {
    /// `aux_type` URN.
    pub aux_type: Seq<char>,
    /// `aux_subtype` bytes (HEVC: `HEVCAuxConfigSubType`, Annex B.2.4).
    pub aux_subtype: Seq<u8>,
}

impl View for AuxC {
    type V = AuxCModel;

    open spec fn view(&self) -> AuxCModel {
        AuxCModel {
            aux_type: self.aux_type@,
            aux_subtype: self.aux_subtype@,
        }
    }
}

impl DeepView for AuxC {
    type V = AuxCModel;

    open spec fn deep_view(&self) -> AuxCModel {
        self@
    }
}

impl Clone for AuxC {
    fn clone(&self) -> (r: Self)
        ensures
            r@ == self@,
    {
        AuxC {
            aux_type: self.aux_type.clone(),
            aux_subtype: copy_of(self.aux_subtype.as_slice()),
        }
    }
}

/// The kind an URN names.
pub open spec fn urn_kind(urn: Seq<char>) -> AuxKind {
    if urn == AUX_URN_ALPHA@ || urn == AUX_URN_ALPHA_HEVC@ {
        AuxKind::Alpha
    } else if urn == AUX_URN_DEPTH@ || urn == AUX_URN_DEPTH_HEVC@ {
        AuxKind::Depth
    } else {
        AuxKind::Other
    }
}

impl AuxC {
    /// Classify the URN.
    pub fn kind(&self) -> (r: AuxKind)
        ensures
            r == urn_kind(self@.aux_type),
    {
        let urn: &str = self.aux_type.as_str();
        if same_text(urn, AUX_URN_ALPHA) || same_text(urn, AUX_URN_ALPHA_HEVC) {
            AuxKind::Alpha
        } else if same_text(urn, AUX_URN_DEPTH) || same_text(urn, AUX_URN_DEPTH_HEVC) {
            AuxKind::Depth
        } else {
            AuxKind::Other
        }
    }
}

/// `clli` — content light level (ISO/IEC 14496-12 §12.1.6, a plain
/// 4-byte Box; H.265 D.3.35 semantics, CTA-861-G zero = unknown).
#[derive(Clone, Copy, Debug, PartialEq, Eq)]
pub struct Clli {
    /// `max_content_light_level` (MaxCLL, cd/m²).
    pub max_content_light_level: u16,
    /// `max_pic_average_light_level` (MaxFALL, cd/m²).
    pub max_pic_average_light_level: u16,
}

/// `mdcv` — mastering display colour volume (ISO/IEC 14496-12 §12.1.7:
/// three interleaved `(display_primaries_x, display_primaries_y)`
/// pairs, chromaticity in 0.00002 steps, luminance in 0.0001 cd/m²;
/// semantics of the H.265 D.3.28 SEI, primaries in G, B, R order).
#[derive(Clone, Copy, Debug, PartialEq, Eq)]
pub struct Mdcv {
    /// `(display_primaries_x, display_primaries_y)[c]`, `c` = 0..3 in
    /// file order (G, B, R).
    pub display_primaries: [(u16, u16); 3],
    /// `white_point_x/y`.
    pub white_point: (u16, u16),
    /// `max_display_mastering_luminance`.
    pub max_luminance: u32,
    /// `min_display_mastering_luminance`.
    pub min_luminance: u32,
}

/// `cclv` — content colour volume (ISO/IEC 14496-12 §12.1.8: one flag
/// byte — `ccv_cancel_flag`, `ccv_persistence_flag`, three presence
/// flags, 2 reserved bits — then interleaved signed 32-bit primaries
/// and the present luminance values; semantics of the H.265 D.3.40
/// SEI, where in a sample entry the two leading flags are 0).
#[derive(Clone, Copy, Debug, PartialEq, Eq)]
pub struct Cclv {
    /// `ccv_cancel_flag`.
    pub cancel: bool,
    /// `ccv_persistence_flag`.
    pub persistence: bool,
    /// `ccv_primaries_x/y[c]` when present (G, B, R).
    pub primaries: Option<[(i32, i32); 3]>,
    /// `ccv_min_luminance_value` when present.
    pub min_luminance: Option<u32>,
    /// `ccv_max_luminance_value` when present.
    pub max_luminance: Option<u32>,
    /// `ccv_avg_luminance_value` when present.
    pub avg_luminance: Option<u32>,
}

/// `amve` — ambient viewing environment (HEIF §6.5.36 / ISO/IEC
/// 14496-12 §12.1.9: a plain 8-byte Box; H.265 D.3.39 semantics).
#[derive(Clone, Copy, Debug, PartialEq, Eq)]
pub struct Amve {
    /// `ambient_illuminance` (0.0001 lux).
    pub ambient_illuminance: u32,
    /// `ambient_light_x` (× 50000).
    pub ambient_light_x: u16,
    /// `ambient_light_y` (× 50000).
    pub ambient_light_y: u16,
}

/// `rloc` (§6.5.7).
#[derive(Clone, Copy, Debug, PartialEq, Eq)]
pub struct Rloc {
    /// `horizontal_offset`.
    pub horizontal_offset: u32,
    /// `vertical_offset`.
    pub vertical_offset: u32,
}

/// `lsel` (§6.5.11).
#[derive(Clone, Copy, Debug, PartialEq, Eq)]
pub struct Lsel {
    /// `layer_id`.
    pub layer_id: u16,
}

/// `a1op` — AV1 operating point selector (AVIF §4.3.3).
#[derive(Clone, Copy, Debug, PartialEq, Eq)]
pub struct A1op {
    /// `op_index`.
    pub op_index: u8,
}

/// `a1lx` — AV1 layered image indexing (AVIF §4.3.4).
#[derive(Clone, Copy, Debug, PartialEq, Eq)]
pub struct A1lx {
    /// `large_size` flag (32-bit sizes).
    pub large_size: bool,
    /// `layer_size[3]` in bytes (0 = layer absent / last).
    pub layer_size: [u32; 3],
}

/// `rref` (§6.5.17).
#[derive(Debug, PartialEq, Eq)]
pub struct Rref {
    /// `reference_type[]`.
    pub reference_types: Vec<FourCc>,
}

/// Model of [`Rref`].
#[verifier::ext_equal]
pub struct RrefModel {
    /// `reference_type[]`.
    pub reference_types: Seq<FourCc>,
}

impl View for Rref {
    type V = RrefModel;

    open spec fn view(&self) -> RrefModel {
        RrefModel {
            reference_types: self.reference_types@,
        }
    }
}

impl DeepView for Rref {
    type V = RrefModel;

    open spec fn deep_view(&self) -> RrefModel {
        self@
    }
}

impl Clone for Rref {
    fn clone(&self) -> (r: Self)
        ensures
            r@ == self@,
    {
        Rref {
            reference_types: copy_vec(&self.reference_types),
        }
    }
}

/// `crtt` / `mdft` (§6.5.18 / §6.5.19): a time in microseconds since
/// 1904-01-01T00:00:00Z when `version == 0`.
#[derive(Clone, Copy, Debug, PartialEq, Eq)]
pub struct TimeInfo {
    /// The 64-bit timestamp field.
    pub time: u64,
}

/// `udes` (§6.5.20).
#[derive(Debug, PartialEq, Eq)]
pub struct Udes {
    /// `lang`.
    pub lang: String,
    /// `name`.
    pub name: String,
    /// `description`.
    pub description: String,
    /// `tags` (comma separated).
    pub tags: String,
}

/// Model of [`Udes`].
#[verifier::ext_equal]
pub struct UdesModel {
    /// `lang`.
    pub lang: Seq<char>,
    /// `name`.
    pub name: Seq<char>,
    /// `description`.
    pub description: Seq<char>,
    /// `tags` (comma separated).
    pub tags: Seq<char>,
}

impl View for Udes {
    type V = UdesModel;

    open spec fn view(&self) -> UdesModel {
        UdesModel {
            lang: self.lang@,
            name: self.name@,
            description: self.description@,
            tags: self.tags@,
        }
    }
}

impl DeepView for Udes {
    type V = UdesModel;

    open spec fn deep_view(&self) -> UdesModel {
        self@
    }
}

impl Clone for Udes {
    fn clone(&self) -> (r: Self)
        ensures
            r@ == self@,
    {
        Udes {
            lang: self.lang.clone(),
            name: self.name.clone(),
            description: self.description.clone(),
            tags: self.tags.clone(),
        }
    }
}

/// `altt` (§6.5.21).
#[derive(Debug, PartialEq, Eq)]
pub struct Altt {
    /// `alt_text`.
    pub alt_text: String,
    /// `alt_lang`.
    pub alt_lang: String,
}

/// Model of [`Altt`].
#[verifier::ext_equal]
pub struct AlttModel {
    /// `alt_text`.
    pub alt_text: Seq<char>,
    /// `alt_lang`.
    pub alt_lang: Seq<char>,
}

impl View for Altt {
    type V = AlttModel;

    open spec fn view(&self) -> AlttModel {
        AlttModel {
            alt_text: self.alt_text@,
            alt_lang: self.alt_lang@,
        }
    }
}

impl DeepView for Altt {
    type V = AlttModel;

    open spec fn deep_view(&self) -> AlttModel {
        self@
    }
}

impl Clone for Altt {
    fn clone(&self) -> (r: Self)
        ensures
            r@ == self@,
    {
        Altt {
            alt_text: self.alt_text.clone(),
            alt_lang: self.alt_lang.clone(),
        }
    }
}

/// One typed property.
#[derive(Debug, PartialEq, Eq)]
pub enum Property {
    /// `ispe`.
    Ispe(Ispe),
    /// `pixi`.
    Pixi(Pixi),
    /// `colr`.
    Colr(Colr),
    /// `pasp`.
    Pasp(Pasp),
    /// `clap` (transformative).
    Clap(Clap),
    /// `irot` (transformative).
    Irot(Irot),
    /// `imir` (transformative).
    Imir(Imir),
    /// `iscl` (transformative).
    Iscl(Iscl),
    /// `auxC`.
    AuxC(AuxC),
    /// `hvcC` — HEVC decoder configuration (Annex B.2.3.1).
    HvcC(HevcConfig),
    /// `av1C` — AV1 codec configuration (AVIF §4.2).
    Av1C(Av1Config),
    /// `lhvC` — layered HEVC configuration (HEIF B.2.3.2).
    LhvC(LhevcConfig),
    /// `avcC` — AVC configuration (HEIF E.2.3).
    AvcC(AvcConfig),
    /// `oinf` — operating points information (HEIF B.2.3.3).
    Oinf(OperatingPoints),
    /// `tols` — target output layer set (HEIF §6.5.29).
    Tols(u16),
    /// `clli`.
    Clli(Clli),
    /// `mdcv`.
    Mdcv(Mdcv),
    /// `cclv`.
    Cclv(Cclv),
    /// `amve`.
    Amve(Amve),
    /// `rloc`.
    Rloc(Rloc),
    /// `lsel`.
    Lsel(Lsel),
    /// `a1op`.
    A1op(A1op),
    /// `a1lx`.
    A1lx(A1lx),
    /// `rref`.
    Rref(Rref),
    /// `crtt`.
    Crtt(TimeInfo),
    /// `mdft`.
    Mdft(TimeInfo),
    /// `udes`.
    Udes(Udes),
    /// `altt`.
    Altt(Altt),
    /// A property type this crate does not model (raw box kept).
    Unknown(RawProperty),
}

/// Model of [`Property`].
#[verifier::ext_equal]
pub enum PropertyModel {
    /// `ispe`.
    Ispe(Ispe),
    /// `pixi`.
    Pixi(PixiModel),
    /// `colr`.
    Colr(ColrModel),
    /// `pasp`.
    Pasp(Pasp),
    /// `clap` (transformative).
    Clap(Clap),
    /// `irot` (transformative).
    Irot(Irot),
    /// `imir` (transformative).
    Imir(Imir),
    /// `iscl` (transformative).
    Iscl(Iscl),
    /// `auxC`.
    AuxC(AuxCModel),
    /// `hvcC` — HEVC decoder configuration (Annex B.2.3.1).
    HvcC(HevcModel),
    /// `av1C` — AV1 codec configuration (AVIF §4.2).
    Av1C(Av1Model),
    /// `lhvC` — layered HEVC configuration (HEIF B.2.3.2).
    LhvC(LhevcModel),
    /// `avcC` — AVC configuration (HEIF E.2.3).
    AvcC(AvcModel),
    /// `oinf` — operating points information (HEIF B.2.3.3).
    Oinf(OperatingPointsModel),
    /// `tols` — target output layer set (HEIF §6.5.29).
    Tols(u16),
    /// `clli`.
    Clli(Clli),
    /// `mdcv`.
    Mdcv(Mdcv),
    /// `cclv`.
    Cclv(Cclv),
    /// `amve`.
    Amve(Amve),
    /// `rloc`.
    Rloc(Rloc),
    /// `lsel`.
    Lsel(Lsel),
    /// `a1op`.
    A1op(A1op),
    /// `a1lx`.
    A1lx(A1lx),
    /// `rref`.
    Rref(RrefModel),
    /// `crtt`.
    Crtt(TimeInfo),
    /// `mdft`.
    Mdft(TimeInfo),
    /// `udes`.
    Udes(UdesModel),
    /// `altt`.
    Altt(AlttModel),
    /// A property type this crate does not model (raw box kept).
    Unknown(RawPropertyModel),
}

/// The type of a property.
#[derive(Clone, Copy, Debug, PartialEq, Eq, Structural)]
pub enum PropertyKind {
    /// `ispe`.
    Ispe,
    /// `pixi`.
    Pixi,
    /// `colr`.
    Colr,
    /// `pasp`.
    Pasp,
    /// `clap` (transformative).
    Clap,
    /// `irot` (transformative).
    Irot,
    /// `imir` (transformative).
    Imir,
    /// `iscl` (transformative).
    Iscl,
    /// `auxC`.
    AuxC,
    /// `hvcC` — HEVC decoder configuration (Annex B.2.3.1).
    HvcC,
    /// `av1C` — AV1 codec configuration (AVIF §4.2).
    Av1C,
    /// `lhvC` — layered HEVC configuration (HEIF B.2.3.2).
    LhvC,
    /// `avcC` — AVC configuration (HEIF E.2.3).
    AvcC,
    /// `oinf` — operating points information (HEIF B.2.3.3).
    Oinf,
    /// `tols` — target output layer set (HEIF §6.5.29).
    Tols,
    /// `clli`.
    Clli,
    /// `mdcv`.
    Mdcv,
    /// `cclv`.
    Cclv,
    /// `amve`.
    Amve,
    /// `rloc`.
    Rloc,
    /// `lsel`.
    Lsel,
    /// `a1op`.
    A1op,
    /// `a1lx`.
    A1lx,
    /// `rref`.
    Rref,
    /// `crtt`.
    Crtt,
    /// `mdft`.
    Mdft,
    /// `udes`.
    Udes,
    /// `altt`.
    Altt,
    /// A property type this crate does not model (raw box kept).
    Unknown,
}

impl View for Property {
    type V = PropertyModel;

    open spec fn view(&self) -> PropertyModel {
        match self {
            Property::Ispe(v) => PropertyModel::Ispe(*v),
            Property::Pixi(v) => PropertyModel::Pixi(v@),
            Property::Colr(v) => PropertyModel::Colr(v@),
            Property::Pasp(v) => PropertyModel::Pasp(*v),
            Property::Clap(v) => PropertyModel::Clap(*v),
            Property::Irot(v) => PropertyModel::Irot(*v),
            Property::Imir(v) => PropertyModel::Imir(*v),
            Property::Iscl(v) => PropertyModel::Iscl(*v),
            Property::AuxC(v) => PropertyModel::AuxC(v@),
            Property::HvcC(v) => PropertyModel::HvcC(v@),
            Property::Av1C(v) => PropertyModel::Av1C(v@),
            Property::LhvC(v) => PropertyModel::LhvC(v@),
            Property::AvcC(v) => PropertyModel::AvcC(v@),
            Property::Oinf(v) => PropertyModel::Oinf(v@),
            Property::Tols(v) => PropertyModel::Tols(*v),
            Property::Clli(v) => PropertyModel::Clli(*v),
            Property::Mdcv(v) => PropertyModel::Mdcv(*v),
            Property::Cclv(v) => PropertyModel::Cclv(*v),
            Property::Amve(v) => PropertyModel::Amve(*v),
            Property::Rloc(v) => PropertyModel::Rloc(*v),
            Property::Lsel(v) => PropertyModel::Lsel(*v),
            Property::A1op(v) => PropertyModel::A1op(*v),
            Property::A1lx(v) => PropertyModel::A1lx(*v),
            Property::Rref(v) => PropertyModel::Rref(v@),
            Property::Crtt(v) => PropertyModel::Crtt(*v),
            Property::Mdft(v) => PropertyModel::Mdft(*v),
            Property::Udes(v) => PropertyModel::Udes(v@),
            Property::Altt(v) => PropertyModel::Altt(v@),
            Property::Unknown(v) => PropertyModel::Unknown(v@),
        }
    }
}

impl DeepView for Property {
    type V = PropertyModel;

    open spec fn deep_view(&self) -> PropertyModel {
        self@
    }
}

impl Clone for Property {
    fn clone(&self) -> (r: Self)
        ensures
            r@ == self@,
    {
        match self {
            Property::Ispe(v) => Property::Ispe(*v),
            Property::Pixi(v) => Property::Pixi(v.clone()),
            Property::Colr(v) => Property::Colr(v.clone()),
            Property::Pasp(v) => Property::Pasp(*v),
            Property::Clap(v) => Property::Clap(*v),
            Property::Irot(v) => Property::Irot(*v),
            Property::Imir(v) => Property::Imir(*v),
            Property::Iscl(v) => Property::Iscl(*v),
            Property::AuxC(v) => Property::AuxC(v.clone()),
            Property::HvcC(v) => Property::HvcC(v.clone()),
            Property::Av1C(v) => Property::Av1C(v.clone()),
            Property::LhvC(v) => Property::LhvC(v.clone()),
            Property::AvcC(v) => Property::AvcC(v.clone()),
            Property::Oinf(v) => Property::Oinf(v.clone()),
            Property::Tols(v) => Property::Tols(*v),
            Property::Clli(v) => Property::Clli(*v),
            Property::Mdcv(v) => Property::Mdcv(*v),
            Property::Cclv(v) => Property::Cclv(*v),
            Property::Amve(v) => Property::Amve(*v),
            Property::Rloc(v) => Property::Rloc(*v),
            Property::Lsel(v) => Property::Lsel(*v),
            Property::A1op(v) => Property::A1op(*v),
            Property::A1lx(v) => Property::A1lx(*v),
            Property::Rref(v) => Property::Rref(v.clone()),
            Property::Crtt(v) => Property::Crtt(*v),
            Property::Mdft(v) => Property::Mdft(*v),
            Property::Udes(v) => Property::Udes(v.clone()),
            Property::Altt(v) => Property::Altt(v.clone()),
            Property::Unknown(v) => Property::Unknown(v.clone()),
        }
    }
}

impl PropertyModel {
    /// The type of the property.
    pub open spec fn kind(self) -> PropertyKind {
        match self {
            PropertyModel::Ispe(_) => PropertyKind::Ispe,
            PropertyModel::Pixi(_) => PropertyKind::Pixi,
            PropertyModel::Colr(_) => PropertyKind::Colr,
            PropertyModel::Pasp(_) => PropertyKind::Pasp,
            PropertyModel::Clap(_) => PropertyKind::Clap,
            PropertyModel::Irot(_) => PropertyKind::Irot,
            PropertyModel::Imir(_) => PropertyKind::Imir,
            PropertyModel::Iscl(_) => PropertyKind::Iscl,
            PropertyModel::AuxC(_) => PropertyKind::AuxC,
            PropertyModel::HvcC(_) => PropertyKind::HvcC,
            PropertyModel::Av1C(_) => PropertyKind::Av1C,
            PropertyModel::LhvC(_) => PropertyKind::LhvC,
            PropertyModel::AvcC(_) => PropertyKind::AvcC,
            PropertyModel::Oinf(_) => PropertyKind::Oinf,
            PropertyModel::Tols(_) => PropertyKind::Tols,
            PropertyModel::Clli(_) => PropertyKind::Clli,
            PropertyModel::Mdcv(_) => PropertyKind::Mdcv,
            PropertyModel::Cclv(_) => PropertyKind::Cclv,
            PropertyModel::Amve(_) => PropertyKind::Amve,
            PropertyModel::Rloc(_) => PropertyKind::Rloc,
            PropertyModel::Lsel(_) => PropertyKind::Lsel,
            PropertyModel::A1op(_) => PropertyKind::A1op,
            PropertyModel::A1lx(_) => PropertyKind::A1lx,
            PropertyModel::Rref(_) => PropertyKind::Rref,
            PropertyModel::Crtt(_) => PropertyKind::Crtt,
            PropertyModel::Mdft(_) => PropertyKind::Mdft,
            PropertyModel::Udes(_) => PropertyKind::Udes,
            PropertyModel::Altt(_) => PropertyKind::Altt,
            PropertyModel::Unknown(_) => PropertyKind::Unknown,
        }
    }

    /// The property's box type.
    pub open spec fn box_type(self) -> FourCc {
        match self {
            PropertyModel::Ispe(_) => tags::ISPE,
            PropertyModel::Pixi(_) => tags::PIXI,
            PropertyModel::Colr(_) => tags::COLR,
            PropertyModel::Pasp(_) => tags::PASP,
            PropertyModel::Clap(_) => tags::CLAP,
            PropertyModel::Irot(_) => tags::IROT,
            PropertyModel::Imir(_) => tags::IMIR,
            PropertyModel::Iscl(_) => tags::ISCL,
            PropertyModel::AuxC(_) => tags::AUXC,
            PropertyModel::HvcC(_) => tags::HVCC,
            PropertyModel::Av1C(_) => tags::AV1C,
            PropertyModel::LhvC(_) => tags::LHVC,
            PropertyModel::AvcC(_) => tags::AVCC,
            PropertyModel::Oinf(_) => tags::OINF,
            PropertyModel::Tols(_) => tags::TOLS,
            PropertyModel::Clli(_) => tags::CLLI,
            PropertyModel::Mdcv(_) => tags::MDCV,
            PropertyModel::Cclv(_) => tags::CCLV,
            PropertyModel::Amve(_) => tags::AMVE,
            PropertyModel::Rloc(_) => tags::RLOC,
            PropertyModel::Lsel(_) => tags::LSEL,
            PropertyModel::A1op(_) => tags::A1OP,
            PropertyModel::A1lx(_) => tags::A1LX,
            PropertyModel::Rref(_) => tags::RREF,
            PropertyModel::Crtt(_) => tags::CRTT,
            PropertyModel::Mdft(_) => tags::MDFT,
            PropertyModel::Udes(_) => tags::UDES,
            PropertyModel::Altt(_) => tags::ALTT,
            PropertyModel::Unknown(v) => v.box_type,
        }
    }

    /// Whether the property changes the image.
    pub open spec fn transformative(self) -> bool {
        is_transformative_code(self.box_type())
    }
}

impl Property {
    /// The type of the property.
    pub fn kind(&self) -> (r: PropertyKind)
        ensures
            r == self@.kind(),
    {
        match self {
            Property::Ispe(_) => PropertyKind::Ispe,
            Property::Pixi(_) => PropertyKind::Pixi,
            Property::Colr(_) => PropertyKind::Colr,
            Property::Pasp(_) => PropertyKind::Pasp,
            Property::Clap(_) => PropertyKind::Clap,
            Property::Irot(_) => PropertyKind::Irot,
            Property::Imir(_) => PropertyKind::Imir,
            Property::Iscl(_) => PropertyKind::Iscl,
            Property::AuxC(_) => PropertyKind::AuxC,
            Property::HvcC(_) => PropertyKind::HvcC,
            Property::Av1C(_) => PropertyKind::Av1C,
            Property::LhvC(_) => PropertyKind::LhvC,
            Property::AvcC(_) => PropertyKind::AvcC,
            Property::Oinf(_) => PropertyKind::Oinf,
            Property::Tols(_) => PropertyKind::Tols,
            Property::Clli(_) => PropertyKind::Clli,
            Property::Mdcv(_) => PropertyKind::Mdcv,
            Property::Cclv(_) => PropertyKind::Cclv,
            Property::Amve(_) => PropertyKind::Amve,
            Property::Rloc(_) => PropertyKind::Rloc,
            Property::Lsel(_) => PropertyKind::Lsel,
            Property::A1op(_) => PropertyKind::A1op,
            Property::A1lx(_) => PropertyKind::A1lx,
            Property::Rref(_) => PropertyKind::Rref,
            Property::Crtt(_) => PropertyKind::Crtt,
            Property::Mdft(_) => PropertyKind::Mdft,
            Property::Udes(_) => PropertyKind::Udes,
            Property::Altt(_) => PropertyKind::Altt,
            Property::Unknown(_) => PropertyKind::Unknown,
        }
    }

    /// The property's box type.
    pub fn box_type(&self) -> (r: FourCc)
        ensures
            r == self@.box_type(),
    {
        match self {
            Property::Ispe(_) => tags::ISPE,
            Property::Pixi(_) => tags::PIXI,
            Property::Colr(_) => tags::COLR,
            Property::Pasp(_) => tags::PASP,
            Property::Clap(_) => tags::CLAP,
            Property::Irot(_) => tags::IROT,
            Property::Imir(_) => tags::IMIR,
            Property::Iscl(_) => tags::ISCL,
            Property::AuxC(_) => tags::AUXC,
            Property::HvcC(_) => tags::HVCC,
            Property::Av1C(_) => tags::AV1C,
            Property::LhvC(_) => tags::LHVC,
            Property::AvcC(_) => tags::AVCC,
            Property::Oinf(_) => tags::OINF,
            Property::Tols(_) => tags::TOLS,
            Property::Clli(_) => tags::CLLI,
            Property::Mdcv(_) => tags::MDCV,
            Property::Cclv(_) => tags::CCLV,
            Property::Amve(_) => tags::AMVE,
            Property::Rloc(_) => tags::RLOC,
            Property::Lsel(_) => tags::LSEL,
            Property::A1op(_) => tags::A1OP,
            Property::A1lx(_) => tags::A1LX,
            Property::Rref(_) => tags::RREF,
            Property::Crtt(_) => tags::CRTT,
            Property::Mdft(_) => tags::MDFT,
            Property::Udes(_) => tags::UDES,
            Property::Altt(_) => tags::ALTT,
            Property::Unknown(v) => v.box_type,
        }
    }

    /// `true` for the transformative property types (§6.5.9–§6.5.13).
    pub fn is_transformative(&self) -> (r: bool)
        ensures
            r == self@.transformative(),
    {
        is_transformative_type(&self.box_type())
    }

    /// `true` for decoder configuration properties (§6.5.2).
    pub fn is_decoder_config(&self) -> (r: bool)
        ensures
            r == (self@ is HvcC || self@ is Av1C || self@ is LhvC || self@ is AvcC),
    {
        matches!(
            self,
            Property::HvcC(_) | Property::Av1C(_) | Property::LhvC(_) | Property::AvcC(_)
        )
    }

    /// Parse one raw `ipco` box into its typed form. Unknown box types
    /// become [`Property::Unknown`]; a malformed known type is an error.
    pub fn parse(raw: &RawProperty) -> (r: Result<Property>)
        ensures
            outcome(r) == property_of(raw@),
    {
        proof {
            reveal(property_of);
        }
        let b: &[u8] = raw.body.as_slice();
        match kind_of_type(&raw.box_type) {
            PropertyKind::Ispe => {
                let v: Ispe = parse_ispe(b)?;
                Ok(Property::Ispe(v))
            },
            PropertyKind::Pixi => {
                let v: Pixi = parse_pixi(b)?;
                Ok(Property::Pixi(v))
            },
            PropertyKind::Colr => {
                let v: Colr = parse_colr(b)?;
                Ok(Property::Colr(v))
            },
            PropertyKind::Pasp => {
                let v: Pasp = parse_pasp(b)?;
                Ok(Property::Pasp(v))
            },
            PropertyKind::Clap => {
                let v: Clap = parse_clap(b)?;
                Ok(Property::Clap(v))
            },
            PropertyKind::Irot => {
                let v: Irot = parse_irot(b)?;
                Ok(Property::Irot(v))
            },
            PropertyKind::Imir => {
                let v: Imir = parse_imir(b)?;
                Ok(Property::Imir(v))
            },
            PropertyKind::Iscl => {
                let v: Iscl = parse_iscl(b)?;
                Ok(Property::Iscl(v))
            },
            PropertyKind::AuxC => {
                let v: AuxC = parse_auxc(b)?;
                Ok(Property::AuxC(v))
            },
            PropertyKind::HvcC => {
                let v: HevcConfig = HevcConfig::parse(b)?;
                Ok(Property::HvcC(v))
            },
            PropertyKind::Av1C => {
                let v: Av1Config = Av1Config::parse(b)?;
                Ok(Property::Av1C(v))
            },
            PropertyKind::LhvC => {
                let v: LhevcConfig = LhevcConfig::parse(b)?;
                Ok(Property::LhvC(v))
            },
            PropertyKind::AvcC => {
                let v: AvcConfig = AvcConfig::parse(b)?;
                Ok(Property::AvcC(v))
            },
            PropertyKind::Oinf => {
                let v: OperatingPoints = parse_oinf(b)?;
                Ok(Property::Oinf(v))
            },
            PropertyKind::Tols => {
                let v: u16 = parse_tols(b)?;
                Ok(Property::Tols(v))
            },
            PropertyKind::Clli => {
                let v: Clli = parse_clli(b)?;
                Ok(Property::Clli(v))
            },
            PropertyKind::Mdcv => {
                let v: Mdcv = parse_mdcv(b)?;
                Ok(Property::Mdcv(v))
            },
            PropertyKind::Cclv => {
                let v: Cclv = parse_cclv(b)?;
                Ok(Property::Cclv(v))
            },
            PropertyKind::Amve => {
                let v: Amve = parse_amve(b)?;
                Ok(Property::Amve(v))
            },
            PropertyKind::Rloc => {
                let v: Rloc = parse_rloc(b)?;
                Ok(Property::Rloc(v))
            },
            PropertyKind::Lsel => {
                let v: Lsel = parse_lsel(b)?;
                Ok(Property::Lsel(v))
            },
            PropertyKind::A1op => {
                let v: A1op = parse_a1op(b)?;
                Ok(Property::A1op(v))
            },
            PropertyKind::A1lx => {
                let v: A1lx = parse_a1lx(b)?;
                Ok(Property::A1lx(v))
            },
            PropertyKind::Rref => {
                let v: Rref = parse_rref(b)?;
                Ok(Property::Rref(v))
            },
            PropertyKind::Crtt => {
                let v: TimeInfo = parse_time(b)?;
                Ok(Property::Crtt(v))
            },
            PropertyKind::Mdft => {
                let v: TimeInfo = parse_time(b)?;
                Ok(Property::Mdft(v))
            },
            PropertyKind::Udes => {
                let v: Udes = parse_udes(b)?;
                Ok(Property::Udes(v))
            },
            PropertyKind::Altt => {
                let v: Altt = parse_altt(b)?;
                Ok(Property::Altt(v))
            },
            PropertyKind::Unknown => Ok(Property::Unknown(raw.clone())),
        }
    }
}

/// The property type a box type names.
#[verifier::opaque]
pub open spec fn kind_of(t: FourCc) -> PropertyKind {
    if t == tags::ISPE {
        PropertyKind::Ispe
    } else if t == tags::PIXI {
        PropertyKind::Pixi
    } else if t == tags::COLR {
        PropertyKind::Colr
    } else if t == tags::PASP {
        PropertyKind::Pasp
    } else if t == tags::CLAP {
        PropertyKind::Clap
    } else if t == tags::IROT {
        PropertyKind::Irot
    } else if t == tags::IMIR {
        PropertyKind::Imir
    } else if t == tags::ISCL {
        PropertyKind::Iscl
    } else if t == tags::AUXC {
        PropertyKind::AuxC
    } else if t == tags::HVCC {
        PropertyKind::HvcC
    } else if t == tags::AV1C {
        PropertyKind::Av1C
    } else if t == tags::LHVC {
        PropertyKind::LhvC
    } else if t == tags::AVCC {
        PropertyKind::AvcC
    } else if t == tags::OINF {
        PropertyKind::Oinf
    } else if t == tags::TOLS {
        PropertyKind::Tols
    } else if t == tags::CLLI {
        PropertyKind::Clli
    } else if t == tags::MDCV {
        PropertyKind::Mdcv
    } else if t == tags::CCLV {
        PropertyKind::Cclv
    } else if t == tags::AMVE {
        PropertyKind::Amve
    } else if t == tags::RLOC {
        PropertyKind::Rloc
    } else if t == tags::LSEL {
        PropertyKind::Lsel
    } else if t == tags::A1OP {
        PropertyKind::A1op
    } else if t == tags::A1LX {
        PropertyKind::A1lx
    } else if t == tags::RREF {
        PropertyKind::Rref
    } else if t == tags::CRTT {
        PropertyKind::Crtt
    } else if t == tags::MDFT {
        PropertyKind::Mdft
    } else if t == tags::UDES {
        PropertyKind::Udes
    } else if t == tags::ALTT {
        PropertyKind::Altt
    } else {
        PropertyKind::Unknown
    }
}

fn kind_of_type(t: &FourCc) -> (r: PropertyKind)
    ensures
        r == kind_of(*t),
{
    proof {
        reveal(kind_of);
    }
    if fourcc_eq(t, &tags::ISPE) {
        PropertyKind::Ispe
    } else if fourcc_eq(t, &tags::PIXI) {
        PropertyKind::Pixi
    } else if fourcc_eq(t, &tags::COLR) {
        PropertyKind::Colr
    } else if fourcc_eq(t, &tags::PASP) {
        PropertyKind::Pasp
    } else if fourcc_eq(t, &tags::CLAP) {
        PropertyKind::Clap
    } else if fourcc_eq(t, &tags::IROT) {
        PropertyKind::Irot
    } else if fourcc_eq(t, &tags::IMIR) {
        PropertyKind::Imir
    } else if fourcc_eq(t, &tags::ISCL) {
        PropertyKind::Iscl
    } else if fourcc_eq(t, &tags::AUXC) {
        PropertyKind::AuxC
    } else if fourcc_eq(t, &tags::HVCC) {
        PropertyKind::HvcC
    } else if fourcc_eq(t, &tags::AV1C) {
        PropertyKind::Av1C
    } else if fourcc_eq(t, &tags::LHVC) {
        PropertyKind::LhvC
    } else if fourcc_eq(t, &tags::AVCC) {
        PropertyKind::AvcC
    } else if fourcc_eq(t, &tags::OINF) {
        PropertyKind::Oinf
    } else if fourcc_eq(t, &tags::TOLS) {
        PropertyKind::Tols
    } else if fourcc_eq(t, &tags::CLLI) {
        PropertyKind::Clli
    } else if fourcc_eq(t, &tags::MDCV) {
        PropertyKind::Mdcv
    } else if fourcc_eq(t, &tags::CCLV) {
        PropertyKind::Cclv
    } else if fourcc_eq(t, &tags::AMVE) {
        PropertyKind::Amve
    } else if fourcc_eq(t, &tags::RLOC) {
        PropertyKind::Rloc
    } else if fourcc_eq(t, &tags::LSEL) {
        PropertyKind::Lsel
    } else if fourcc_eq(t, &tags::A1OP) {
        PropertyKind::A1op
    } else if fourcc_eq(t, &tags::A1LX) {
        PropertyKind::A1lx
    } else if fourcc_eq(t, &tags::RREF) {
        PropertyKind::Rref
    } else if fourcc_eq(t, &tags::CRTT) {
        PropertyKind::Crtt
    } else if fourcc_eq(t, &tags::MDFT) {
        PropertyKind::Mdft
    } else if fourcc_eq(t, &tags::UDES) {
        PropertyKind::Udes
    } else if fourcc_eq(t, &tags::ALTT) {
        PropertyKind::Altt
    } else {
        PropertyKind::Unknown
    }
}

/// The typed form of a raw property.
#[verifier::opaque]
pub open spec fn property_of(raw: RawPropertyModel) -> Outcome<PropertyModel> {
    let b = raw.body;
    match kind_of(raw.box_type) {
        PropertyKind::Ispe => match ispe_of(b) {
            Ok(v) => Ok(PropertyModel::Ispe(v)),
            Err(e) => Err(e),
        },
        PropertyKind::Pixi => match pixi_of(b) {
            Ok(v) => Ok(PropertyModel::Pixi(v)),
            Err(e) => Err(e),
        },
        PropertyKind::Colr => match colr_of(b) {
            Ok(v) => Ok(PropertyModel::Colr(v)),
            Err(e) => Err(e),
        },
        PropertyKind::Pasp => match pasp_of(b) {
            Ok(v) => Ok(PropertyModel::Pasp(v)),
            Err(e) => Err(e),
        },
        PropertyKind::Clap => match clap_of(b) {
            Ok(v) => Ok(PropertyModel::Clap(v)),
            Err(e) => Err(e),
        },
        PropertyKind::Irot => match irot_of(b) {
            Ok(v) => Ok(PropertyModel::Irot(v)),
            Err(e) => Err(e),
        },
        PropertyKind::Imir => match imir_of(b) {
            Ok(v) => Ok(PropertyModel::Imir(v)),
            Err(e) => Err(e),
        },
        PropertyKind::Iscl => match iscl_of(b) {
            Ok(v) => Ok(PropertyModel::Iscl(v)),
            Err(e) => Err(e),
        },
        PropertyKind::AuxC => match auxc_of(b) {
            Ok(v) => Ok(PropertyModel::AuxC(v)),
            Err(e) => Err(e),
        },
        PropertyKind::HvcC => match hevc_config_of(b) {
            Ok(v) => Ok(PropertyModel::HvcC(v)),
            Err(e) => Err(e),
        },
        PropertyKind::Av1C => match av1_config_of(b) {
            Ok(v) => Ok(PropertyModel::Av1C(v)),
            Err(e) => Err(e),
        },
        PropertyKind::LhvC => match lhevc_config_of(b) {
            Ok(v) => Ok(PropertyModel::LhvC(v)),
            Err(e) => Err(e),
        },
        PropertyKind::AvcC => match avc_config_of(b) {
            Ok(v) => Ok(PropertyModel::AvcC(v)),
            Err(e) => Err(e),
        },
        PropertyKind::Oinf => match oinf_of(b) {
            Ok(v) => Ok(PropertyModel::Oinf(v)),
            Err(e) => Err(e),
        },
        PropertyKind::Tols => match tols_of(b) {
            Ok(v) => Ok(PropertyModel::Tols(v)),
            Err(e) => Err(e),
        },
        PropertyKind::Clli => match clli_of(b) {
            Ok(v) => Ok(PropertyModel::Clli(v)),
            Err(e) => Err(e),
        },
        PropertyKind::Mdcv => match mdcv_of(b) {
            Ok(v) => Ok(PropertyModel::Mdcv(v)),
            Err(e) => Err(e),
        },
        PropertyKind::Cclv => match cclv_of(b) {
            Ok(v) => Ok(PropertyModel::Cclv(v)),
            Err(e) => Err(e),
        },
        PropertyKind::Amve => match amve_of(b) {
            Ok(v) => Ok(PropertyModel::Amve(v)),
            Err(e) => Err(e),
        },
        PropertyKind::Rloc => match rloc_of(b) {
            Ok(v) => Ok(PropertyModel::Rloc(v)),
            Err(e) => Err(e),
        },
        PropertyKind::Lsel => match lsel_of(b) {
            Ok(v) => Ok(PropertyModel::Lsel(v)),
            Err(e) => Err(e),
        },
        PropertyKind::A1op => match a1op_of(b) {
            Ok(v) => Ok(PropertyModel::A1op(v)),
            Err(e) => Err(e),
        },
        PropertyKind::A1lx => match a1lx_of(b) {
            Ok(v) => Ok(PropertyModel::A1lx(v)),
            Err(e) => Err(e),
        },
        PropertyKind::Rref => match rref_of(b) {
            Ok(v) => Ok(PropertyModel::Rref(v)),
            Err(e) => Err(e),
        },
        PropertyKind::Crtt => match time_of(b) {
            Ok(v) => Ok(PropertyModel::Crtt(v)),
            Err(e) => Err(e),
        },
        PropertyKind::Mdft => match time_of(b) {
            Ok(v) => Ok(PropertyModel::Mdft(v)),
            Err(e) => Err(e),
        },
        PropertyKind::Udes => match udes_of(b) {
            Ok(v) => Ok(PropertyModel::Udes(v)),
            Err(e) => Err(e),
        },
        PropertyKind::Altt => match altt_of(b) {
            Ok(v) => Ok(PropertyModel::Altt(v)),
            Err(e) => Err(e),
        },
        PropertyKind::Unknown => Ok(PropertyModel::Unknown(raw)),
    }
}

/// Whether a box type is one of the transformative properties.
pub open spec fn is_transformative_code(t: FourCc) -> bool {
    t == tags::CLAP || t == tags::IROT || t == tags::IMIR || t == tags::ISCL
}

/// `true` for `clap` / `irot` / `imir` / `iscl`.
pub fn is_transformative_type(t: &FourCc) -> (r: bool)
    ensures
        r == is_transformative_code(*t),
{
    fourcc_eq(t, &tags::CLAP) || fourcc_eq(t, &tags::IROT) || fourcc_eq(t, &tags::IMIR)
        || fourcc_eq(t, &tags::ISCL)
}

/// One resolved association: the property, its 1-based `ipco` index and
/// its `essential` flag.
#[derive(Debug, PartialEq, Eq)]
pub struct PropertyEntry {
    /// 1-based index into `ipco`.
    pub index: u16,
    /// `essential`.
    pub essential: bool,
    /// The typed property.
    pub property: Property,
}

/// Model of [`PropertyEntry`].
#[verifier::ext_equal]
pub struct PropertyEntryModel {
    /// 1-based index into `ipco`.
    pub index: u16,
    /// `essential`.
    pub essential: bool,
    /// The typed property.
    pub property: PropertyModel,
}

impl View for PropertyEntry {
    type V = PropertyEntryModel;

    open spec fn view(&self) -> PropertyEntryModel {
        PropertyEntryModel {
            index: self.index,
            essential: self.essential,
            property: self.property@,
        }
    }
}

impl DeepView for PropertyEntry {
    type V = PropertyEntryModel;

    open spec fn deep_view(&self) -> PropertyEntryModel {
        self@
    }
}

impl Clone for PropertyEntry {
    fn clone(&self) -> (r: Self)
        ensures
            r@ == self@,
    {
        PropertyEntry {
            index: self.index,
            essential: self.essential,
            property: self.property.clone(),
        }
    }
}

/// The typed property list of one item, in association order.
#[derive(Debug, PartialEq, Eq)]
pub struct ItemProperties {
    /// Entries in `ipma` order.
    pub entries: Vec<PropertyEntry>,
}

/// Model of [`ItemProperties`].
#[verifier::ext_equal]
pub struct ItemPropertiesModel {
    /// Entries in `ipma` order.
    pub entries: Seq<PropertyEntryModel>,
}

impl View for ItemProperties {
    type V = ItemPropertiesModel;

    open spec fn view(&self) -> ItemPropertiesModel {
        ItemPropertiesModel {
            entries: self.entries.deep_view(),
        }
    }
}

impl DeepView for ItemProperties {
    type V = ItemPropertiesModel;

    open spec fn deep_view(&self) -> ItemPropertiesModel {
        self@
    }
}

impl Clone for ItemProperties {
    fn clone(&self) -> (r: Self)
        ensures
            r@ == self@,
    {
        ItemProperties {
            entries: clone_vec(&self.entries),
        }
    }
}

impl Default for ItemProperties {
    fn default() -> (r: Self)
        ensures
            r@.entries == Seq::<PropertyEntryModel>::empty(),
    {
        let r: ItemProperties = ItemProperties { entries: Vec::new() };
        proof {
            assert(r@.entries =~= Seq::<PropertyEntryModel>::empty());
        }
        r
    }
}

/// The entries that the associations from `i` on name, after those in `acc`.
pub open spec fn entries_from(
    list: Seq<(u16, RawPropertyModel, bool)>,
    i: int,
    acc: Seq<PropertyEntryModel>,
) -> Outcome<Seq<PropertyEntryModel>>
    decreases list.len() - i,
{
    if i >= list.len() {
        Ok(acc)
    } else {
        match property_of(list[i].1) {
            Err(_) => Err(ErrorKind::Invalid),
            Ok(property) => entries_from(
                list,
                i + 1,
                acc.push(PropertyEntryModel { index: list[i].0, essential: list[i].2, property }),
            ),
        }
    }
}

/// How the refusal of the properties of an item begins, from the `i`-th on: with the
/// item, the first property that cannot be read, and the class of its error.
pub open spec fn refusal_start(list: Seq<(u16, RawPropertyModel, bool)>, i: int, item_id: u32) -> Seq<
    char,
>
    decreases list.len() - i,
{
    if i >= list.len() {
        Seq::empty()
    } else {
        match property_of(list[i].1) {
            Err(k) => "item "@ + decimal_chars(item_id as nat) + " property #"@ + decimal_chars(
                list[i].0 as nat,
            ) + " ('"@ + fourcc_text(list[i].1.box_type) + "'): "@ + class_text(k),
            Ok(_) => refusal_start(list, i + 1, item_id),
        }
    }
}

/// The typed properties of an item.
pub open spec fn item_properties(meta: crate::meta::MetaModel, item_id: u32) -> Outcome<
    ItemPropertiesModel,
> {
    match entries_from(meta.properties_of(item_id), 0, Seq::empty()) {
        Ok(entries) => Ok(ItemPropertiesModel { entries }),
        Err(e) => Err(e),
    }
}

/// Whether a reader goes on to honour descriptive properties past this one.
pub open spec fn passes(p: PropertyModel) -> bool {
    !p.transformative() && !(p is Unknown)
}

/// The number of entries before the first that does not pass, from `i` on.
pub open spec fn first_stop(es: Seq<PropertyEntryModel>, i: int) -> int
    decreases es.len() - i,
{
    if i < es.len() && passes(es[i].property) {
        first_stop(es, i + 1)
    } else {
        i
    }
}

/// The transformative entries, in order.
pub open spec fn transforms(es: Seq<PropertyEntryModel>) -> Seq<PropertyEntryModel>
    decreases es.len(),
{
    if es.len() == 0 {
        Seq::empty()
    } else if es.last().property.transformative() {
        transforms(es.drop_last()).push(es.last())
    } else {
        transforms(es.drop_last())
    }
}

/// The first property of the given kind.
pub open spec fn first_of_kind(es: Seq<PropertyEntryModel>, k: PropertyKind) -> Option<
    PropertyModel,
>
    decreases es.len(),
{
    if es.len() == 0 {
        None
    } else if es[0].property.kind() == k {
        Some(es[0].property)
    } else {
        first_of_kind(es.drop_first(), k)
    }
}

/// The colour properties, in order.
pub open spec fn colr_list(es: Seq<PropertyEntryModel>) -> Seq<ColrModel>
    decreases es.len(),
{
    if es.len() == 0 {
        Seq::empty()
    } else {
        match es.last().property {
            PropertyModel::Colr(c) => colr_list(es.drop_last()).push(c),
            _ => colr_list(es.drop_last()),
        }
    }
}

/// The first `nclx` entry.
pub open spec fn first_nclx(cs: Seq<ColrModel>) -> Option<ColrModel>
    decreases cs.len(),
{
    if cs.len() == 0 {
        None
    } else if cs[0] is Nclx {
        Some(cs[0])
    } else {
        first_nclx(cs.drop_first())
    }
}

/// The first ICC profile.
pub open spec fn first_icc(cs: Seq<ColrModel>) -> Option<Seq<u8>>
    decreases cs.len(),
{
    if cs.len() == 0 {
        None
    } else {
        match cs[0] {
            ColrModel::Icc { profile, .. } => Some(profile),
            _ => first_icc(cs.drop_first()),
        }
    }
}

/// The box types of the unrecognized essential entries.
pub open spec fn unknown_essential(es: Seq<PropertyEntryModel>) -> Seq<FourCc>
    decreases es.len(),
{
    if es.len() == 0 {
        Seq::empty()
    } else if es.last().essential && es.last().property is Unknown {
        unknown_essential(es.drop_last()).push(es.last().property.box_type())
    } else {
        unknown_essential(es.drop_last())
    }
}

/// The size after one transformation.
pub open spec fn transformed_size(p: PropertyModel, size: (u32, u32)) -> Outcome<(u32, u32)> {
    match p {
        PropertyModel::Clap(c) => match c.rect(size.0, size.1) {
            Ok(r) => Ok((r.width, r.height)),
            Err(e) => Err(e),
        },
        PropertyModel::Irot(r) => if r.angle % 2 == 1 {
            Ok((size.1, size.0))
        } else {
            Ok(size)
        },
        PropertyModel::Iscl(s) => s.scaled(size.0, size.1),
        _ => Ok(size),
    }
}

/// The size after the transformations from `i` on.
pub open spec fn size_from(
    es: Seq<PropertyEntryModel>,
    i: int,
    size: (u32, u32),
    essential_only: bool,
) -> Outcome<(u32, u32)>
    decreases es.len() - i,
{
    if i >= es.len() {
        Ok(size)
    } else if essential_only && !es[i].essential {
        size_from(es, i + 1, size, essential_only)
    } else {
        match transformed_size(es[i].property, size) {
            Err(e) => Err(e),
            Ok(next) => size_from(es, i + 1, next, essential_only),
        }
    }
}

/// The models of a list of references to entries.
pub open spec fn entry_views(v: Seq<&PropertyEntry>) -> Seq<PropertyEntryModel> {
    Seq::new(v.len(), |i: int| v[i]@)
}

/// The models of a list of references to colour properties.
pub open spec fn colr_views(v: Seq<&Colr>) -> Seq<ColrModel> {
    Seq::new(v.len(), |i: int| v[i]@)
}

impl ItemPropertiesModel {
    /// The descriptive entries a reader honours.
    pub open spec fn descriptive(self) -> Seq<PropertyEntryModel> {
        self.entries.take(first_stop(self.entries, 0))
    }

    /// The transformative entries.
    pub open spec fn transformative(self) -> Seq<PropertyEntryModel> {
        transforms(self.entries)
    }

    /// The first descriptive property of the given kind.
    pub open spec fn first(self, k: PropertyKind) -> Option<PropertyModel> {
        first_of_kind(self.descriptive(), k)
    }

    /// The first transformative property of the given kind.
    pub open spec fn first_transform(self, k: PropertyKind) -> Option<PropertyModel> {
        first_of_kind(self.transformative(), k)
    }

    /// The colour properties.
    pub open spec fn colrs(self) -> Seq<ColrModel> {
        colr_list(self.descriptive())
    }

    /// The size after the transformations.
    pub open spec fn output_size(self, size: (u32, u32), essential_only: bool) -> Outcome<
        (u32, u32),
    > {
        size_from(self.transformative(), 0, size, essential_only)
    }
}

proof fn lemma_first_stop(es: Seq<PropertyEntryModel>, i: int)
    requires
        0 <= i <= es.len(),
    ensures
        i <= first_stop(es, i) <= es.len(),
        forall|j: int| i <= j < first_stop(es, i) ==> passes((#[trigger] es[j]).property),
        first_stop(es, i) < es.len() ==> !passes(es[first_stop(es, i)].property),
    decreases es.len() - i,
{
    if i < es.len() && passes(es[i].property) {
        lemma_first_stop(es, i + 1);
    }
}

proof fn lemma_transforms(es: Seq<PropertyEntryModel>)
    ensures
        forall|j: int|
            0 <= j < transforms(es).len() ==> (#[trigger] transforms(es)[j]).property.transformative(),
        forall|e: PropertyEntryModel|
            e.property.transformative() && #[trigger] es.contains(e) ==> transforms(es).contains(e),
    decreases es.len(),
{
    if es.len() > 0 {
        lemma_transforms(es.drop_last());
        let t = transforms(es.drop_last());
        assert forall|e: PropertyEntryModel|
            e.property.transformative() && #[trigger] es.contains(e) implies transforms(es).contains(
            e,
        ) by {
            let i = choose|i: int| 0 <= i < es.len() && es[i] == e;
            if i == es.len() - 1 {
                assert(transforms(es)[t.len() as int] == e);
            } else {
                assert(es.drop_last()[i] == e);
                assert(es.drop_last().contains(e));
                let k = choose|k: int| 0 <= k < t.len() && t[k] == e;
                assert(transforms(es)[k] == e);
            }
        }
    }
}

/// Descriptive properties are a prefix of the associations without any
/// transformative or unrecognized one, and it ends only before such a one
/// (§6.5.1). The transformative ones are exactly those that change the image.
#[verifier::rlimit(50)]
pub proof fn law_descriptive_and_transformative(p: ItemPropertiesModel)
    ensures
        p.descriptive().is_prefix_of(p.entries),
        forall|i: int|
            0 <= i < p.descriptive().len() ==> passes((#[trigger] p.descriptive()[i]).property),
        p.descriptive().len() < p.entries.len() ==> !passes(
            p.entries[p.descriptive().len() as int].property,
        ),
        forall|i: int|
            0 <= i < p.transformative().len() ==> (
            #[trigger] p.transformative()[i]).property.transformative(),
        forall|e: PropertyEntryModel|
            e.property.transformative() && #[trigger] p.entries.contains(e)
                ==> p.transformative().contains(e),
{
    lemma_first_stop(p.entries, 0);
    lemma_transforms(p.entries);
}

impl ItemProperties {
    /// Resolve and parse the properties of `item_id`.
    pub fn resolve(meta: &Meta, item_id: u32) -> (r: Result<Self>)
        ensures
            outcome(r) == item_properties(meta@, item_id),
            r matches Err(e) ==> refusal_start(
                meta@.properties_of(item_id),
                0,
                item_id,
            ).is_prefix_of(e.message()),
    {
        let list: Vec<(u16, &RawProperty, bool)> = meta.properties_of(item_id);
        let ghost all = named_views(list@);
        let ghost goal = entries_from(all, 0, Seq::empty());
        let mut entries: Vec<PropertyEntry> = Vec::new();
        proof {
            assert(entries.deep_view() =~= Seq::empty());
        }
        for i in 0..list.len()
            invariant
                all == named_views(list@),
                all == meta@.properties_of(item_id),
                goal == entries_from(all, 0, Seq::empty()),
                goal == entries_from(all, i as int, entries.deep_view()),
                refusal_start(all, 0, item_id) == refusal_start(all, i as int, item_id),
        {
            let raw: &RawProperty = list[i].1;
            let index: u16 = list[i].0;
            let essential: bool = list[i].2;
            assert(all[i as int] == (index, raw@, essential));
            let property: Property = match Property::parse(raw) {
                Ok(p) => p,
                Err(e) => {
                    let id: String = decimal(item_id as u64);
                    let n: String = decimal(index as u64);
                    let t: String = fourcc_str(&raw.box_type);
                    let m: String = e.to_string();
                    let start: String = text7(
                        "item ",
                        id.as_str(),
                        " property #",
                        n.as_str(),
                        " ('",
                        t.as_str(),
                        "'): ",
                    );
                    let text: String = text2(start.as_str(), m.as_str());
                    proof {
                        let head = refusal_start(all, 0, item_id);
                        assert(text@.subrange(0, head.len() as int) =~= head);
                    }
                    return Err(HeifError::InvalidData(text));
                },
            };
            let e: PropertyEntry = PropertyEntry { index, essential, property };
            let ghost before = entries.deep_view();
            entries.push(e);
            proof {
                assert(entries.deep_view() =~= before.push(e@));
            }
        }
        Ok(ItemProperties { entries })
    }

    /// Every entry.
    pub fn iter(&self) -> (r: Vec<&PropertyEntry>)
        ensures
            entry_views(r@) == self@.entries,
    {
        let mut out: Vec<&PropertyEntry> = Vec::new();
        for i in 0..self.entries.len()
            invariant
                out@.len() == i,
                forall|j: int| 0 <= j < i ==> (#[trigger] out@[j])@ == self@.entries[j],
        {
            out.push(&self.entries[i]);
        }
        proof {
            assert(entry_views(out@) =~= self@.entries);
        }
        out
    }

    fn descriptive_count(&self) -> (n: usize)
        ensures
            n == first_stop(self@.entries, 0),
            n <= self.entries@.len(),
    {
        let ghost all = self@.entries;
        let mut i: usize = 0;
        while i < self.entries.len()
            invariant
                all == self@.entries,
                i <= all.len(),
                first_stop(all, 0) == first_stop(all, i as int),
            decreases all.len() - i,
        {
            let p: &Property = &self.entries[i].property;
            assert(all[i as int].property == p@);
            if p.is_transformative() || matches!(p, Property::Unknown(_)) {
                return i;
            }
            i = i + 1;
        }
        i
    }

    /// Descriptive properties a reader honours: those *before* the first
    /// transformative or unrecognized property (§6.5.1).
    pub fn descriptive(&self) -> (r: Vec<&PropertyEntry>)
        ensures
            entry_views(r@) == self@.descriptive(),
    {
        let n: usize = self.descriptive_count();
        let mut out: Vec<&PropertyEntry> = Vec::new();
        for i in 0..n
            invariant
                n <= self.entries@.len(),
                out@.len() == i,
                forall|j: int| 0 <= j < i ==> (#[trigger] out@[j])@ == self@.entries[j],
        {
            out.push(&self.entries[i]);
        }
        proof {
            assert(entry_views(out@) =~= self@.descriptive());
        }
        out
    }

    /// Transformative properties in association order (§6.3).
    pub fn transformative(&self) -> (r: Vec<&PropertyEntry>)
        ensures
            entry_views(r@) == self@.transformative(),
    {
        let ghost all = self@.entries;
        let mut out: Vec<&PropertyEntry> = Vec::new();
        proof {
            assert(all.take(0) =~= Seq::empty());
            assert(entry_views(out@) =~= Seq::empty());
        }
        for i in 0..self.entries.len()
            invariant
                all == self@.entries,
                entry_views(out@) == transforms(all.take(i as int)),
        {
            let e: &PropertyEntry = &self.entries[i];
            proof {
                assert(all.take(i + 1).drop_last() =~= all.take(i as int));
                assert(all[i as int] == e@);
            }
            if e.property.is_transformative() {
                let ghost before = entry_views(out@);
                out.push(e);
                proof {
                    assert(entry_views(out@) =~= before.push(e@));
                }
            }
        }
        proof {
            assert(all.take(all.len() as int) =~= all);
        }
        out
    }

    /// Unrecognized properties marked essential — an item carrying one
    /// shall not be processed.
    pub fn unsupported_essential(&self) -> (r: Vec<FourCc>)
        ensures
            r@ == unknown_essential(self@.entries),
    {
        let ghost all = self@.entries;
        let mut out: Vec<FourCc> = Vec::new();
        proof {
            assert(all.take(0) =~= Seq::empty());
        }
        for i in 0..self.entries.len()
            invariant
                all == self@.entries,
                out@ == unknown_essential(all.take(i as int)),
        {
            let e: &PropertyEntry = &self.entries[i];
            proof {
                assert(all.take(i + 1).drop_last() =~= all.take(i as int));
                assert(all[i as int] == e@);
            }
            if e.essential && matches!(e.property, Property::Unknown(_)) {
                out.push(e.property.box_type());
            }
        }
        proof {
            assert(all.take(all.len() as int) =~= all);
        }
        out
    }

    fn find(&self, k: PropertyKind) -> (r: Option<&Property>)
        ensures
            match r {
                Some(p) => self@.first(k) == Some(p@) && p@.kind() == k,
                None => self@.first(k) is None,
            },
    {
        let v: Vec<&PropertyEntry> = self.descriptive();
        find_kind(&v, k)
    }

    fn find_transform(&self, k: PropertyKind) -> (r: Option<&Property>)
        ensures
            match r {
                Some(p) => self@.first_transform(k) == Some(p@) && p@.kind() == k,
                None => self@.first_transform(k) is None,
            },
    {
        let v: Vec<&PropertyEntry> = self.transformative();
        find_kind(&v, k)
    }

    /// `ispe`.
    pub fn ispe(&self) -> (r: Option<Ispe>)
        ensures
            match r {
                Some(v) => self@.first(PropertyKind::Ispe) == Some(PropertyModel::Ispe(v)),
                None => self@.first(PropertyKind::Ispe) is None,
            },
    {
        match self.find(PropertyKind::Ispe) {
            Some(Property::Ispe(v)) => Some(*v),
            _ => None,
        }
    }

    /// `pixi`.
    pub fn pixi(&self) -> (r: Option<&Pixi>)
        ensures
            match r {
                Some(v) => self@.first(PropertyKind::Pixi) == Some(PropertyModel::Pixi(v@)),
                None => self@.first(PropertyKind::Pixi) is None,
            },
    {
        match self.find(PropertyKind::Pixi) {
            Some(Property::Pixi(v)) => Some(v),
            _ => None,
        }
    }

    /// `pasp`.
    pub fn pasp(&self) -> (r: Option<Pasp>)
        ensures
            match r {
                Some(v) => self@.first(PropertyKind::Pasp) == Some(PropertyModel::Pasp(v)),
                None => self@.first(PropertyKind::Pasp) is None,
            },
    {
        match self.find(PropertyKind::Pasp) {
            Some(Property::Pasp(v)) => Some(*v),
            _ => None,
        }
    }

    /// `auxC`.
    pub fn auxc(&self) -> (r: Option<&AuxC>)
        ensures
            match r {
                Some(v) => self@.first(PropertyKind::AuxC) == Some(PropertyModel::AuxC(v@)),
                None => self@.first(PropertyKind::AuxC) is None,
            },
    {
        match self.find(PropertyKind::AuxC) {
            Some(Property::AuxC(v)) => Some(v),
            _ => None,
        }
    }

    /// `hvcC`.
    pub fn hvcc(&self) -> (r: Option<&HevcConfig>)
        ensures
            match r {
                Some(v) => self@.first(PropertyKind::HvcC) == Some(PropertyModel::HvcC(v@)),
                None => self@.first(PropertyKind::HvcC) is None,
            },
    {
        match self.find(PropertyKind::HvcC) {
            Some(Property::HvcC(v)) => Some(v),
            _ => None,
        }
    }

    /// `avcC`.
    pub fn avcc(&self) -> (r: Option<&AvcConfig>)
        ensures
            match r {
                Some(v) => self@.first(PropertyKind::AvcC) == Some(PropertyModel::AvcC(v@)),
                None => self@.first(PropertyKind::AvcC) is None,
            },
    {
        match self.find(PropertyKind::AvcC) {
            Some(Property::AvcC(v)) => Some(v),
            _ => None,
        }
    }

    /// `lhvC`.
    pub fn lhvc(&self) -> (r: Option<&LhevcConfig>)
        ensures
            match r {
                Some(v) => self@.first(PropertyKind::LhvC) == Some(PropertyModel::LhvC(v@)),
                None => self@.first(PropertyKind::LhvC) is None,
            },
    {
        match self.find(PropertyKind::LhvC) {
            Some(Property::LhvC(v)) => Some(v),
            _ => None,
        }
    }

    /// `oinf`.
    pub fn oinf(&self) -> (r: Option<&OperatingPoints>)
        ensures
            match r {
                Some(v) => self@.first(PropertyKind::Oinf) == Some(PropertyModel::Oinf(v@)),
                None => self@.first(PropertyKind::Oinf) is None,
            },
    {
        match self.find(PropertyKind::Oinf) {
            Some(Property::Oinf(v)) => Some(v),
            _ => None,
        }
    }

    /// `tols` `target_ols_idx`.
    pub fn tols(&self) -> (r: Option<u16>)
        ensures
            match r {
                Some(v) => self@.first(PropertyKind::Tols) == Some(PropertyModel::Tols(v)),
                None => self@.first(PropertyKind::Tols) is None,
            },
    {
        match self.find(PropertyKind::Tols) {
            Some(Property::Tols(v)) => Some(*v),
            _ => None,
        }
    }

    /// `av1C`.
    pub fn av1c(&self) -> (r: Option<&Av1Config>)
        ensures
            match r {
                Some(v) => self@.first(PropertyKind::Av1C) == Some(PropertyModel::Av1C(v@)),
                None => self@.first(PropertyKind::Av1C) is None,
            },
    {
        match self.find(PropertyKind::Av1C) {
            Some(Property::Av1C(v)) => Some(v),
            _ => None,
        }
    }

    /// `clli`.
    pub fn clli(&self) -> (r: Option<Clli>)
        ensures
            match r {
                Some(v) => self@.first(PropertyKind::Clli) == Some(PropertyModel::Clli(v)),
                None => self@.first(PropertyKind::Clli) is None,
            },
    {
        match self.find(PropertyKind::Clli) {
            Some(Property::Clli(v)) => Some(*v),
            _ => None,
        }
    }

    /// `mdcv`.
    pub fn mdcv(&self) -> (r: Option<Mdcv>)
        ensures
            match r {
                Some(v) => self@.first(PropertyKind::Mdcv) == Some(PropertyModel::Mdcv(v)),
                None => self@.first(PropertyKind::Mdcv) is None,
            },
    {
        match self.find(PropertyKind::Mdcv) {
            Some(Property::Mdcv(v)) => Some(*v),
            _ => None,
        }
    }

    /// `cclv`.
    pub fn cclv(&self) -> (r: Option<Cclv>)
        ensures
            match r {
                Some(v) => self@.first(PropertyKind::Cclv) == Some(PropertyModel::Cclv(v)),
                None => self@.first(PropertyKind::Cclv) is None,
            },
    {
        match self.find(PropertyKind::Cclv) {
            Some(Property::Cclv(v)) => Some(*v),
            _ => None,
        }
    }

    /// `rloc`.
    pub fn rloc(&self) -> (r: Option<Rloc>)
        ensures
            match r {
                Some(v) => self@.first(PropertyKind::Rloc) == Some(PropertyModel::Rloc(v)),
                None => self@.first(PropertyKind::Rloc) is None,
            },
    {
        match self.find(PropertyKind::Rloc) {
            Some(Property::Rloc(v)) => Some(*v),
            _ => None,
        }
    }

    /// `lsel`.
    pub fn lsel(&self) -> (r: Option<Lsel>)
        ensures
            match r {
                Some(v) => self@.first(PropertyKind::Lsel) == Some(PropertyModel::Lsel(v)),
                None => self@.first(PropertyKind::Lsel) is None,
            },
    {
        match self.find(PropertyKind::Lsel) {
            Some(Property::Lsel(v)) => Some(*v),
            _ => None,
        }
    }

    /// `a1op`.
    pub fn a1op(&self) -> (r: Option<A1op>)
        ensures
            match r {
                Some(v) => self@.first(PropertyKind::A1op) == Some(PropertyModel::A1op(v)),
                None => self@.first(PropertyKind::A1op) is None,
            },
    {
        match self.find(PropertyKind::A1op) {
            Some(Property::A1op(v)) => Some(*v),
            _ => None,
        }
    }

    /// `a1lx`.
    pub fn a1lx(&self) -> (r: Option<A1lx>)
        ensures
            match r {
                Some(v) => self@.first(PropertyKind::A1lx) == Some(PropertyModel::A1lx(v)),
                None => self@.first(PropertyKind::A1lx) is None,
            },
    {
        match self.find(PropertyKind::A1lx) {
            Some(Property::A1lx(v)) => Some(*v),
            _ => None,
        }
    }

    /// `rref`.
    pub fn rref(&self) -> (r: Option<&Rref>)
        ensures
            match r {
                Some(v) => self@.first(PropertyKind::Rref) == Some(PropertyModel::Rref(v@)),
                None => self@.first(PropertyKind::Rref) is None,
            },
    {
        match self.find(PropertyKind::Rref) {
            Some(Property::Rref(v)) => Some(v),
            _ => None,
        }
    }

    /// `clap` (from the transformative chain).
    pub fn clap(&self) -> (r: Option<Clap>)
        ensures
            match r {
                Some(v) => self@.first_transform(PropertyKind::Clap) == Some(PropertyModel::Clap(v)),
                None => self@.first_transform(PropertyKind::Clap) is None,
            },
    {
        match self.find_transform(PropertyKind::Clap) {
            Some(Property::Clap(v)) => Some(*v),
            _ => None,
        }
    }

    /// `irot` (from the transformative chain).
    pub fn irot(&self) -> (r: Option<Irot>)
        ensures
            match r {
                Some(v) => self@.first_transform(PropertyKind::Irot) == Some(PropertyModel::Irot(v)),
                None => self@.first_transform(PropertyKind::Irot) is None,
            },
    {
        match self.find_transform(PropertyKind::Irot) {
            Some(Property::Irot(v)) => Some(*v),
            _ => None,
        }
    }

    /// `imir` (from the transformative chain).
    pub fn imir(&self) -> (r: Option<Imir>)
        ensures
            match r {
                Some(v) => self@.first_transform(PropertyKind::Imir) == Some(PropertyModel::Imir(v)),
                None => self@.first_transform(PropertyKind::Imir) is None,
            },
    {
        match self.find_transform(PropertyKind::Imir) {
            Some(Property::Imir(v)) => Some(*v),
            _ => None,
        }
    }

    /// Every `colr` (an item may carry one ICC and one `nclx`).
    pub fn colrs(&self) -> (r: Vec<&Colr>)
        ensures
            colr_views(r@) == self@.colrs(),
    {
        let v: Vec<&PropertyEntry> = self.descriptive();
        let ghost all = entry_views(v@);
        let mut out: Vec<&Colr> = Vec::new();
        proof {
            assert(all.take(0) =~= Seq::empty());
            assert(colr_views(out@) =~= Seq::empty());
        }
        for i in 0..v.len()
            invariant
                all == entry_views(v@),
                colr_views(out@) == colr_list(all.take(i as int)),
        {
            let e: &PropertyEntry = v[i];
            proof {
                assert(all.take(i + 1).drop_last() =~= all.take(i as int));
                assert(all[i as int] == e@);
            }
            if let Property::Colr(c) = &e.property {
                let ghost before = colr_views(out@);
                out.push(c);
                proof {
                    assert(colr_views(out@) =~= before.push(c@));
                }
            }
        }
        proof {
            assert(all.take(all.len() as int) =~= all);
        }
        out
    }

    /// The `nclx` colour information, when present.
    pub fn nclx(&self) -> (r: Option<&Colr>)
        ensures
            match r {
                Some(c) => first_nclx(self@.colrs()) == Some(c@),
                None => first_nclx(self@.colrs()) is None,
            },
    {
        let v: Vec<&Colr> = self.colrs();
        let ghost all = colr_views(v@);
        proof {
            assert(all.skip(0) =~= all);
        }
        for i in 0..v.len()
            invariant
                all == colr_views(v@),
                all == self@.colrs(),
                first_nclx(all) == first_nclx(all.skip(i as int)),
        {
            let c: &Colr = v[i];
            proof {
                assert(all.skip(i as int)[0] == c@);
                assert(all.skip(i as int).drop_first() =~= all.skip(i as int + 1));
            }
            if matches!(c, Colr::Nclx { .. }) {
                return Some(c);
            }
        }
        None
    }

    /// The ICC profile bytes, when present.
    pub fn icc_profile(&self) -> (r: Option<&[u8]>)
        ensures
            match r {
                Some(b) => first_icc(self@.colrs()) == Some(b@),
                None => first_icc(self@.colrs()) is None,
            },
    {
        let v: Vec<&Colr> = self.colrs();
        let ghost all = colr_views(v@);
        proof {
            assert(all.skip(0) =~= all);
        }
        for i in 0..v.len()
            invariant
                all == colr_views(v@),
                all == self@.colrs(),
                first_icc(all) == first_icc(all.skip(i as int)),
        {
            let c: &Colr = v[i];
            proof {
                assert(all.skip(i as int)[0] == c@);
                assert(all.skip(i as int).drop_first() =~= all.skip(i as int + 1));
            }
            if let Colr::Icc { profile, .. } = c {
                return Some(profile.as_slice());
            }
        }
        None
    }

    /// Output size after the transformative chain, starting from `ispe`
    /// (or the given reconstructed size). Follows §6.3: each transform
    /// applies to the output of the previous one; `essential_only`
    /// skips non-essential transforms (a permitted reader choice).
    pub fn output_size(&self, reconstructed: (u32, u32), essential_only: bool) -> (r: Result<
        (u32, u32),
    >)
        ensures
            plain_outcome(r) == self@.output_size(reconstructed, essential_only),
    {
        let v: Vec<&PropertyEntry> = self.transformative();
        let ghost all = entry_views(v@);
        let ghost goal = size_from(all, 0, reconstructed, essential_only);
        let mut w: u32 = reconstructed.0;
        let mut h: u32 = reconstructed.1;
        for i in 0..v.len()
            invariant
                all == entry_views(v@),
                all == self@.transformative(),
                goal == size_from(all, 0, reconstructed, essential_only),
                goal == size_from(all, i as int, (w, h), essential_only),
        {
            let e: &PropertyEntry = v[i];
            assert(all[i as int] == e@);
            if !(essential_only && !e.essential) {
                match &e.property {
                    Property::Clap(c) => {
                        let r: CropRect = c.resolve(w, h)?;
                        w = r.width;
                        h = r.height;
                    },
                    Property::Irot(r) => {
                        if r.angle % 2 == 1 {
                            let t: u32 = w;
                            w = h;
                            h = t;
                        }
                    },
                    Property::Iscl(s) => {
                        let (nw, nh) = s.output_size(w, h)?;
                        w = nw;
                        h = nh;
                    },
                    _ => {},
                }
            }
        }
        Ok((w, h))
    }
}

fn find_kind<'a>(v: &Vec<&'a PropertyEntry>, k: PropertyKind) -> (r: Option<&'a Property>)
    ensures
        match r {
            Some(p) => first_of_kind(entry_views(v@), k) == Some(p@) && p@.kind() == k,
            None => first_of_kind(entry_views(v@), k) is None,
        },
{
    let ghost all = entry_views(v@);
    proof {
        assert(all.skip(0) =~= all);
    }
    for i in 0..v.len()
        invariant
            all == entry_views(v@),
            first_of_kind(all, k) == first_of_kind(all.skip(i as int), k),
    {
        let e: &'a PropertyEntry = v[i];
        proof {
            assert(all.skip(i as int)[0] == e@);
            assert(all.skip(i as int).drop_first() =~= all.skip(i as int + 1));
        }
        if e.property.kind() == k {
            return Some(&e.property);
        }
    }
    None
}

} // verus!
