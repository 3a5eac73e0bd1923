//! `AVCDecoderConfigurationRecord` (`avcC`, ISO/IEC 14496-15 §5.3.3.1) — the
//! decoder configuration property of `avc1` image items (HEIF Annex E.2.3).
use crate::boxes::Reader;
use crate::bytes::{copy_lists, copy_of, lists};
use crate::error::{outcome, plain_outcome, ErrorKind, HeifError, Result};
use crate::hvcc::{nal_list_at, nal_list_bytes, put_nal_list, read_nal_list};
use crate::image::{coded_layout, layout_of_codes, HeifPixelFormat};
use crate::text::{concat, decimal};
use vstd::prelude::*;

verus! {

/// Parsed `avcC` record.
#[derive(Debug, PartialEq, Eq)]
pub struct AvcConfig {
    /// `configurationVersion` (1).
    pub configuration_version: u8,
    /// `AVCProfileIndication` (`profile_idc`).
    pub profile_idc: u8,
    /// `profile_compatibility` (the constraint-set byte of the SPS).
    pub profile_compatibility: u8,
    /// `AVCLevelIndication` (`level_idc`).
    pub level_idc: u8,
    /// `lengthSizeMinusOne + 1` — the NAL length-prefix width in bytes.
    pub length_size: u8,
    /// The SPS NAL units (one-byte header + payload each).
    pub sps: Vec<Vec<u8>>,
    /// The PPS NAL units.
    pub pps: Vec<Vec<u8>>,
    /// `chroma_format` when the High-family trailer is present.
    pub chroma_format: Option<u8>,
    /// `bit_depth_luma_minus8` when the trailer is present.
    pub bit_depth_luma_minus8: Option<u8>,
    /// `bit_depth_chroma_minus8` when the trailer is present.
    pub bit_depth_chroma_minus8: Option<u8>,
    /// SPS extension NAL units of the trailer.
    pub sps_ext: Vec<Vec<u8>>,
    /// The record bytes as parsed / serialized.
    pub raw: Vec<u8>,
}

/// Model of [`AvcConfig`].
#[verifier::ext_equal]
pub struct AvcModel {
    /// `configurationVersion` (1).
    pub configuration_version: u8,
    /// `AVCProfileIndication` (`profile_idc`).
    pub profile_idc: u8,
    /// `profile_compatibility` (the constraint-set byte of the SPS).
    pub profile_compatibility: u8,
    /// `AVCLevelIndication` (`level_idc`).
    pub level_idc: u8,
    /// `lengthSizeMinusOne + 1` — the NAL length-prefix width in bytes.
    pub length_size: u8,
    /// The SPS NAL units (one-byte header + payload each).
    pub sps: Seq<Seq<u8>>,
    /// The PPS NAL units.
    pub pps: Seq<Seq<u8>>,
    /// `chroma_format` when the High-family trailer is present.
    pub chroma_format: Option<u8>,
    /// `bit_depth_luma_minus8` when the trailer is present.
    pub bit_depth_luma_minus8: Option<u8>,
    /// `bit_depth_chroma_minus8` when the trailer is present.
    pub bit_depth_chroma_minus8: Option<u8>,
    /// SPS extension NAL units of the trailer.
    pub sps_ext: Seq<Seq<u8>>,
    /// The record bytes as parsed / serialized.
    pub raw: Seq<u8>,
}

impl View for AvcConfig {
    type V = AvcModel;

    open spec fn view(&self) -> AvcModel {
        AvcModel {
            configuration_version: self.configuration_version,
            profile_idc: self.profile_idc,
            profile_compatibility: self.profile_compatibility,
            level_idc: self.level_idc,
            length_size: self.length_size,
            sps: lists(self.sps@),
            pps: lists(self.pps@),
            chroma_format: self.chroma_format,
            bit_depth_luma_minus8: self.bit_depth_luma_minus8,
            bit_depth_chroma_minus8: self.bit_depth_chroma_minus8,
            sps_ext: lists(self.sps_ext@),
            raw: self.raw@,
        }
    }
}

impl DeepView for AvcConfig {
    type V = AvcModel;

    open spec fn deep_view(&self) -> AvcModel {
        self@
    }
}

impl Clone for AvcConfig {
    fn clone(&self) -> (r: Self)
        ensures
            r@ == self@,
    {
        AvcConfig {
            configuration_version: self.configuration_version,
            profile_idc: self.profile_idc,
            profile_compatibility: self.profile_compatibility,
            level_idc: self.level_idc,
            length_size: self.length_size,
            sps: copy_lists(&self.sps),
            pps: copy_lists(&self.pps),
            chroma_format: self.chroma_format,
            bit_depth_luma_minus8: self.bit_depth_luma_minus8,
            bit_depth_chroma_minus8: self.bit_depth_chroma_minus8,
            sps_ext: copy_lists(&self.sps_ext),
            raw: copy_of(self.raw.as_slice()),
        }
    }
}

/// Whether a profile carries the trailer: any but Baseline, Main, Extended.
pub open spec fn has_trailer(profile_idc: u8) -> bool {
    profile_idc != 66 && profile_idc != 77 && profile_idc != 88
}

/// The SPS units, the PPS units and the offset behind them.
pub open spec fn parameter_sets_at(b: Seq<u8>) -> core::result::Result<
    (Seq<Seq<u8>>, Seq<Seq<u8>>, int),
    ErrorKind,
> {
    match nal_list_at(b, 6, (b[5] % 32) as int, Seq::empty()) {
        Err(e) => Err(e),
        Ok((sps, p)) => if p + 1 > b.len() {
            Err(ErrorKind::Invalid)
        } else {
            match nal_list_at(b, p + 1, b[p] as int, Seq::empty()) {
                Err(e) => Err(e),
                Ok((pps, q)) => Ok((sps, pps, q)),
            }
        },
    }
}

/// The record `b` holds. Three-byte length prefixes are refused; the trailer
/// is read when the profile has one and at least four bytes are left.
pub open spec fn avc_config_of(b: Seq<u8>) -> core::result::Result<AvcModel, ErrorKind> {
    if b.len() < 6 || b[0] != 1 || b[4] % 4 == 2 {
        Err(ErrorKind::Invalid)
    } else {
        match parameter_sets_at(b) {
            Err(e) => Err(e),
            Ok((sps, pps, q)) => {
                let plain = AvcModel {
                    configuration_version: 1,
                    profile_idc: b[1],
                    profile_compatibility: b[2],
                    level_idc: b[3],
                    length_size: (b[4] % 4 + 1) as u8,
                    sps,
                    pps,
                    chroma_format: None,
                    bit_depth_luma_minus8: None,
                    bit_depth_chroma_minus8: None,
                    sps_ext: Seq::empty(),
                    raw: b,
                };
                if has_trailer(b[1]) && b.len() - q >= 4 {
                    match nal_list_at(b, q + 4, b[q + 3] as int, Seq::empty()) {
                        Err(e) => Err(e),
                        Ok((ext, _)) => Ok(
                            AvcModel {
                                chroma_format: Some((b[q] % 4) as u8),
                                bit_depth_luma_minus8: Some((b[q + 1] % 8) as u8),
                                bit_depth_chroma_minus8: Some((b[q + 2] % 8) as u8),
                                sps_ext: ext,
                                ..plain
                            },
                        ),
                    }
                } else {
                    Ok(plain)
                }
            },
        }
    }
}

/// The first `n` of `s`, or all of it.
pub open spec fn at_most<T>(s: Seq<T>, n: nat) -> Seq<T> {
    if s.len() <= n {
        s
    } else {
        s.take(n as int)
    }
}

/// `lengthSizeMinusOne` of a length size held to `1..=4`.
pub open spec fn clamped_length_code(length_size: u8) -> int {
    if length_size == 0 {
        0
    } else if length_size > 4 {
        3
    } else {
        length_size - 1
    }
}

impl AvcModel {
    /// Whether the trailer is written: the profile has one and its fields are
    /// known.
    pub open spec fn writes_trailer(self) -> bool {
        has_trailer(self.profile_idc) && self.chroma_format is Some && self.bit_depth_luma_minus8
            is Some && self.bit_depth_chroma_minus8 is Some
    }

    /// The record up to the trailer.
    pub open spec fn front(self) -> Seq<u8> {
        (Seq::<u8>::empty().push(1u8).push(self.profile_idc).push(self.profile_compatibility).push(
            self.level_idc,
        ).push((0xfc + clamped_length_code(self.length_size)) as u8).push(
            (0xe0 + at_most(self.sps, 31).len()) as u8,
        ) + nal_list_bytes(at_most(self.sps, 31))).push(at_most(self.pps, 255).len() as u8)
            + nal_list_bytes(at_most(self.pps, 255))
    }

    /// The record of these fields.
    pub open spec fn bytes(self) -> Seq<u8> {
        if self.writes_trailer() {
            self.front().push((0xfc + self.chroma_format->0 % 4) as u8).push(
                (0xf8 + self.bit_depth_luma_minus8->0 % 8) as u8,
            ).push((0xf8 + self.bit_depth_chroma_minus8->0 % 8) as u8).push(
                at_most(self.sps_ext, 255).len() as u8,
            ) + nal_list_bytes(at_most(self.sps_ext, 255))
        } else {
            self.front()
        }
    }

    /// The sample layout the record announces.
    pub open spec fn layout(self) -> core::result::Result<HeifPixelFormat, ErrorKind> {
        let idc = match self.chroma_format {
            Some(c) => c,
            None => 1u8,
        };
        let depth = match self.bit_depth_luma_minus8 {
            Some(d) => d,
            None => 0u8,
        };
        coded_layout(idc, depth)
    }

    /// Luma bit depth, 8 without a trailer.
    pub open spec fn luma_depth(self) -> u8 {
        match self.bit_depth_luma_minus8 {
            Some(d) => (8 + d) as u8,
            None => 8,
        }
    }

    /// Whether every field fits its bits and the record says all of it.
    pub open spec fn fits(self) -> bool {
        &&& self.configuration_version == 1
        &&& 1 <= self.length_size <= 4
        &&& self.length_size != 3
        &&& self.sps.len() < 32
        &&& self.pps.len() < 256
        &&& units_short(self.sps)
        &&& units_short(self.pps)
        &&& if self.writes_trailer() {
            &&& self.chroma_format->0 < 4
            &&& self.bit_depth_luma_minus8->0 < 8
            &&& self.bit_depth_chroma_minus8->0 < 8
            &&& self.sps_ext.len() < 256
            &&& units_short(self.sps_ext)
        } else {
            &&& self.chroma_format is None
            &&& self.bit_depth_luma_minus8 is None
            &&& self.bit_depth_chroma_minus8 is None
            &&& self.sps_ext.len() == 0
        }
    }
}

/// Whether every unit fits a 16-bit length.
pub open spec fn units_short(units: Seq<Seq<u8>>) -> bool {
    forall|j: int| 0 <= j < units.len() ==> (#[trigger] units[j]).len() < 0x1_0000
}

fn put_counted(out: &mut Vec<u8>, base: u8, list: &Vec<Vec<u8>>, max: usize)
    requires
        base + max <= 255,
    ensures
        final(out)@ == old(out)@.push((base + at_most(lists(list@), max as nat).len()) as u8)
            + nal_list_bytes(at_most(lists(list@), max as nat)),
{
    let n: usize = if list.len() <= max {
        list.len()
    } else {
        max
    };
    proof {
        assert(lists(list@).take(n as int) =~= at_most(lists(list@), max as nat));
    }
    out.push(base + n as u8);
    put_nal_list(out, list, n);
}

impl AvcConfig {
    /// `true` when `profile_idc` carries the trailer (§5.3.2.1.2: any
    /// profile other than Baseline 66, Main 77, Extended 88).
    pub fn has_extension_trailer(profile_idc: u8) -> (r: bool)
        ensures
            r == has_trailer(profile_idc),
    {
        profile_idc != 66 && profile_idc != 77 && profile_idc != 88
    }

    /// Parse an `avcC` record body.
    pub fn parse(b: &[u8]) -> (res: Result<Self>)
        ensures
            outcome(res) == avc_config_of(b@),
    {
        let mut r: Reader = Reader::new(b);
        let configuration_version: u8 = r.u8("avcC configurationVersion")?;
        if configuration_version != 1 {
            let v: String = decimal(configuration_version as u64);
            return Err(
                HeifError::invalid(
                    concat(&["avcC configurationVersion ", v.as_str(), " (shall be 1)"]),
                ),
            );
        }
        let profile_idc: u8 = r.u8("avcC AVCProfileIndication")?;
        let profile_compatibility: u8 = r.u8("avcC profile_compatibility")?;
        let level_idc: u8 = r.u8("avcC AVCLevelIndication")?;
        let l: u8 = r.u8("avcC lengthSizeMinusOne")?;
        let length_size: u8 = l % 4 + 1;
        if length_size == 3 {
            return Err(
                HeifError::invalid(
                    "avcC lengthSizeMinusOne 2 (three-byte prefixes are not permitted)",
                ),
            );
        }
        let n_sps: u8 = r.u8("avcC numOfSequenceParameterSets")?;
        let sps: Vec<Vec<u8>> = read_nal_list(&mut r, (n_sps % 32) as usize)?;
        let n_pps: u8 = r.u8("avcC numOfPictureParameterSets")?;
        let pps: Vec<Vec<u8>> = read_nal_list(&mut r, n_pps as usize)?;
        let mut chroma_format: Option<u8> = None;
        let mut bit_depth_luma_minus8: Option<u8> = None;
        let mut bit_depth_chroma_minus8: Option<u8> = None;
        let mut sps_ext: Vec<Vec<u8>> = Vec::new();
        proof {
            assert(lists(sps_ext@) =~= Seq::empty());
        }
        // The trailer is mandatory for High-family profiles but some
        // writers omit it; a record that ends here is accepted.
        if Self::has_extension_trailer(profile_idc) && r.remaining() >= 4 {
            let c: u8 = r.u8("avcC chroma_format")?;
            let dl: u8 = r.u8("avcC bit_depth_luma_minus8")?;
            let dc: u8 = r.u8("avcC bit_depth_chroma_minus8")?;
            chroma_format = Some(c % 4);
            bit_depth_luma_minus8 = Some(dl % 8);
            bit_depth_chroma_minus8 = Some(dc % 8);
            let n: u8 = r.u8("avcC numOfSequenceParameterSetExt")?;
            sps_ext = read_nal_list(&mut r, n as usize)?;
        }
        Ok(
            Self {
                configuration_version,
                profile_idc,
                profile_compatibility,
                level_idc,
                length_size,
                sps,
                pps,
                chroma_format,
                bit_depth_luma_minus8,
                bit_depth_chroma_minus8,
                sps_ext,
                raw: copy_of(b),
            },
        )
    }

    /// Serialize to record bytes (the trailer is written when the
    /// profile calls for it and the fields are known).
    pub fn serialize(&self) -> (v: Vec<u8>)
        ensures
            v@ == self@.bytes(),
    {
        let mut v: Vec<u8> = Vec::new();
        v.push(1);
        v.push(self.profile_idc);
        v.push(self.profile_compatibility);
        v.push(self.level_idc);
        let code: u8 = if self.length_size == 0 {
            0
        } else if self.length_size > 4 {
            3
        } else {
            self.length_size - 1
        };
        v.push(0xfc + code);
        put_counted(&mut v, 0xe0, &self.sps, 31);
        put_counted(&mut v, 0, &self.pps, 255);
        if Self::has_extension_trailer(self.profile_idc) {
            if let (Some(c), Some(l), Some(ch)) = (
                self.chroma_format,
                self.bit_depth_luma_minus8,
                self.bit_depth_chroma_minus8,
            ) {
                v.push(0xfc + c % 4);
                v.push(0xf8 + l % 8);
                v.push(0xf8 + ch % 8);
                put_counted(&mut v, 0, &self.sps_ext, 255);
            }
        }
        v
    }

    /// Luma bit depth (8 without a trailer).
    pub fn bit_depth_luma(&self) -> (r: u8)
        requires
            self.bit_depth_luma_minus8 matches Some(d) ==> d <= 247,
        ensures
            r == self@.luma_depth(),
    {
        match self.bit_depth_luma_minus8 {
            Some(d) => 8 + d,
            None => 8,
        }
    }

    /// Sample layout the record announces: the trailer's
    /// `chroma_format` / bit depth, else 4:2:0 8-bit (the only layout
    /// of the Baseline / Main / Extended profiles).
    pub fn layout(&self) -> (r: Result<HeifPixelFormat>)
        ensures
            plain_outcome(r) == self@.layout(),
            r matches Ok(f) ==> f.wf(),
    {
        let idc: u8 = match self.chroma_format {
            Some(c) => c,
            None => 1,
        };
        let depth: u8 = match self.bit_depth_luma_minus8 {
            Some(d) => d,
            None => 0,
        };
        layout_of_codes(idc, depth)
    }
}

proof fn lemma_front(c: AvcModel, t: Seq<u8>)
    requires
        c.fits(),
    ensures
        c.front().len() >= 7,
        (c.front() + t)[0] == 1,
        (c.front() + t)[1] == c.profile_idc,
        (c.front() + t)[2] == c.profile_compatibility,
        (c.front() + t)[3] == c.level_idc,
        (c.front() + t)[4] == 0xfc + (c.length_size - 1),
        (c.front() + t)[5] == 0xe0 + c.sps.len(),
        parameter_sets_at(c.front() + t) == Ok::<(Seq<Seq<u8>>, Seq<Seq<u8>>, int), ErrorKind>(
            (c.sps, c.pps, c.front().len() as int),
        ),
{
    let h = Seq::<u8>::empty().push(1u8).push(c.profile_idc).push(c.profile_compatibility).push(
        c.level_idc,
    ).push((0xfc + clamped_length_code(c.length_size)) as u8).push((0xe0 + c.sps.len()) as u8);
    let s = nal_list_bytes(c.sps);
    let p = nal_list_bytes(c.pps);
    let mid = (h + s).push(c.pps.len() as u8);
    let b = c.front() + t;
    assert(c.front() == mid + p);
    let one = Seq::<u8>::empty().push(c.pps.len() as u8);
    assert(b =~= h + s + (one + p + t));
    assert(b =~= mid + p + t);
    crate::hvcc::lemma_nal_list(h, c.sps, one + p + t, Seq::empty());
    crate::hvcc::lemma_nal_list(mid, c.pps, t, Seq::empty());
    assert(Seq::<Seq<u8>>::empty() + c.sps =~= c.sps);
    assert(Seq::<Seq<u8>>::empty() + c.pps =~= c.pps);
    assert(b[(h + s).len() as int] == c.pps.len());
}

/// Parsing a serialized record whose fields fit their bits, and that has its
/// trailer where the profile asks for one or nothing of it, gives the record
/// back, with the bytes kept.
#[verifier::rlimit(90)]
#[verifier::spinoff_prover]
pub proof fn law_avc_config_round_trip(c: AvcModel)
    requires
        c.fits(),
    ensures
        avc_config_of(c.bytes()) == Ok::<AvcModel, ErrorKind>(AvcModel { raw: c.bytes(), ..c }),
{
    let b = c.bytes();
    let f = c.front();
    if c.writes_trailer() {
        let x = Seq::<u8>::empty().push((0xfc + c.chroma_format->0 % 4) as u8).push(
            (0xf8 + c.bit_depth_luma_minus8->0 % 8) as u8,
        ).push((0xf8 + c.bit_depth_chroma_minus8->0 % 8) as u8).push(c.sps_ext.len() as u8);
        let e = nal_list_bytes(c.sps_ext);
        assert(b =~= f + (x + e));
        lemma_front(c, x + e);
        assert(b =~= f + x + e + Seq::<u8>::empty());
        crate::hvcc::lemma_nal_list(f + x, c.sps_ext, Seq::empty(), Seq::empty());
        assert(Seq::<Seq<u8>>::empty() + c.sps_ext =~= c.sps_ext);
        assert(b[f.len() as int] == x[0]);
        assert(b[f.len() as int + 1] == x[1]);
        assert(b[f.len() as int + 2] == x[2]);
        assert(b[f.len() as int + 3] == x[3]);
    } else {
        lemma_front(c, Seq::empty());
        assert(b =~= f + Seq::<u8>::empty());
        assert(c.sps_ext =~= Seq::empty());
    }
}

/// What parses as a record fits its fields.
pub proof fn lemma_parsed_fits(b: Seq<u8>)
    ensures
        avc_config_of(b) matches Ok(c) ==> c.fits(),
{
    match avc_config_of(b) {
        Ok(c) => {
            let n = (b[5] % 32) as int;
            crate::hvcc::lemma_read_list(b, 6, n, Seq::empty());
            crate::hvcc::lemma_list_end(b, 6, n, Seq::empty());
            let p = nal_list_at(b, 6, n, Seq::empty())->Ok_0.1;
            crate::hvcc::lemma_read_list(b, p + 1, b[p] as int, Seq::empty());
            crate::hvcc::lemma_list_end(b, p + 1, b[p] as int, Seq::empty());
            let q = nal_list_at(b, p + 1, b[p] as int, Seq::empty())->Ok_0.1;
            if has_trailer(b[1]) && b.len() - q >= 4 {
                crate::hvcc::lemma_read_list(b, q + 4, b[q + 3] as int, Seq::empty());
            }
        },
        Err(_) => {},
    }
}

/// Whatever parses as a record serializes, and parses again to the same fields;
/// serializing those gives the same bytes.
#[verifier::rlimit(50)]
pub proof fn law_parsed_avc_record(b: Seq<u8>)
    ensures
        avc_config_of(b) matches Ok(c) ==> {
            let again = AvcModel { raw: c.bytes(), ..c };
            &&& avc_config_of(c.bytes()) == Ok::<AvcModel, ErrorKind>(again)
            &&& again.bytes() == c.bytes()
        },
{
    match avc_config_of(b) {
        Ok(c) => {
            lemma_parsed_fits(b);
            law_avc_config_round_trip(c);
        },
        Err(_) => {},
    }
}

} // verus!
