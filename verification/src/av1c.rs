//! `AV1CodecConfigurationRecord` (`av1C`, AV1-ISOBMFF §2.3.3) — the decoder
//! configuration property of `av01` image items and sample entries.
use crate::bytes::{copy_of, put, span};
use crate::error::{outcome, ErrorKind, HeifError, Result};
use crate::hvcc::bit;
use crate::text::{concat, decimal};
use vstd::prelude::*;

verus! {

/// Parsed `av1C` record.
#[derive(Debug, PartialEq, Eq)]
pub struct Av1Config {
    /// `seq_profile`.
    pub seq_profile: u8,
    /// `seq_level_idx_0`.
    pub seq_level_idx_0: u8,
    /// `seq_tier_0`.
    pub seq_tier_0: bool,
    /// `high_bitdepth`.
    pub high_bitdepth: bool,
    /// `twelve_bit`.
    pub twelve_bit: bool,
    /// `monochrome`.
    pub monochrome: bool,
    /// `chroma_subsampling_x`.
    pub chroma_subsampling_x: bool,
    /// `chroma_subsampling_y`.
    pub chroma_subsampling_y: bool,
    /// `chroma_sample_position`.
    pub chroma_sample_position: u8,
    /// `initial_presentation_delay_minus_one` when present.
    pub initial_presentation_delay_minus_one: Option<u8>,
    /// `configOBUs` (typically the Sequence Header OBU).
    pub config_obus: Vec<u8>,
    /// The record bytes as found in the file.
    pub raw: Vec<u8>,
}

/// Model of [`Av1Config`].
#[verifier::ext_equal]
pub struct Av1Model {
    /// `seq_profile`.
    pub seq_profile: u8,
    /// `seq_level_idx_0`.
    pub seq_level_idx_0: u8,
    /// `seq_tier_0`.
    pub seq_tier_0: bool,
    /// `high_bitdepth`.
    pub high_bitdepth: bool,
    /// `twelve_bit`.
    pub twelve_bit: bool,
    /// `monochrome`.
    pub monochrome: bool,
    /// `chroma_subsampling_x`.
    pub chroma_subsampling_x: bool,
    /// `chroma_subsampling_y`.
    pub chroma_subsampling_y: bool,
    /// `chroma_sample_position`.
    pub chroma_sample_position: u8,
    /// `initial_presentation_delay_minus_one` when present.
    pub initial_presentation_delay_minus_one: Option<u8>,
    /// `configOBUs` (typically the Sequence Header OBU).
    pub config_obus: Seq<u8>,
    /// The record bytes as found in the file.
    pub raw: Seq<u8>,
}

impl View for Av1Config {
    type V = Av1Model;

    open spec fn view(&self) -> Av1Model {
        Av1Model {
            seq_profile: self.seq_profile,
            seq_level_idx_0: self.seq_level_idx_0,
            seq_tier_0: self.seq_tier_0,
            high_bitdepth: self.high_bitdepth,
            twelve_bit: self.twelve_bit,
            monochrome: self.monochrome,
            chroma_subsampling_x: self.chroma_subsampling_x,
            chroma_subsampling_y: self.chroma_subsampling_y,
            chroma_sample_position: self.chroma_sample_position,
            initial_presentation_delay_minus_one: self.initial_presentation_delay_minus_one,
            config_obus: self.config_obus@,
            raw: self.raw@,
        }
    }
}

impl DeepView for Av1Config {
    type V = Av1Model;

    open spec fn deep_view(&self) -> Av1Model {
        self@
    }
}

impl Clone for Av1Config {
    fn clone(&self) -> (r: Self)
        ensures
            r@ == self@,
    {
        Av1Config {
            seq_profile: self.seq_profile,
            seq_level_idx_0: self.seq_level_idx_0,
            seq_tier_0: self.seq_tier_0,
            high_bitdepth: self.high_bitdepth,
            twelve_bit: self.twelve_bit,
            monochrome: self.monochrome,
            chroma_subsampling_x: self.chroma_subsampling_x,
            chroma_subsampling_y: self.chroma_subsampling_y,
            chroma_sample_position: self.chroma_sample_position,
            initial_presentation_delay_minus_one: self.initial_presentation_delay_minus_one,
            config_obus: copy_of(self.config_obus.as_slice()),
            raw: copy_of(self.raw.as_slice()),
        }
    }
}

/// The record `b` holds: a marker bit and version 1, then the packed fields.
pub open spec fn av1_config_of(b: Seq<u8>) -> core::result::Result<Av1Model, ErrorKind> {
    if b.len() < 4 || b[0] != 0x81 {
        Err(ErrorKind::Invalid)
    } else {
        Ok(
            Av1Model {
                seq_profile: b[1] / 32,
                seq_level_idx_0: (b[1] % 32) as u8,
                seq_tier_0: b[2] / 128 == 1,
                high_bitdepth: b[2] / 64 % 2 == 1,
                twelve_bit: b[2] / 32 % 2 == 1,
                monochrome: b[2] / 16 % 2 == 1,
                chroma_subsampling_x: b[2] / 8 % 2 == 1,
                chroma_subsampling_y: b[2] / 4 % 2 == 1,
                chroma_sample_position: (b[2] % 4) as u8,
                initial_presentation_delay_minus_one: if b[3] / 16 % 2 == 1 {
                    Some((b[3] % 16) as u8)
                } else {
                    None
                },
                config_obus: b.subrange(4, b.len() as int),
                raw: b,
            },
        )
    }
}

impl Av1Model {
    /// Bit depth the flags stand for.
    pub open spec fn depth(self) -> u8 {
        if !self.high_bitdepth {
            8
        } else if self.twelve_bit {
            12
        } else {
            10
        }
    }

    /// Equivalent HEVC-style `chroma_format_idc`.
    pub open spec fn chroma_idc(self) -> u8 {
        if self.monochrome {
            0
        } else if self.chroma_subsampling_x {
            if self.chroma_subsampling_y {
                1
            } else {
                2
            }
        } else {
            3
        }
    }

    /// The byte of packed flags.
    pub open spec fn flags(self) -> u8 {
        (bit(self.seq_tier_0) * 128 + bit(self.high_bitdepth) * 64 + bit(self.twelve_bit) * 32
            + bit(self.monochrome) * 16 + bit(self.chroma_subsampling_x) * 8 + bit(
            self.chroma_subsampling_y,
        ) * 4 + self.chroma_sample_position % 4) as u8
    }

    /// The record of these fields.
    pub open spec fn bytes(self) -> Seq<u8> {
        Seq::<u8>::empty().push(0x81u8).push(
            (self.seq_profile % 8 * 32 + self.seq_level_idx_0 % 32) as u8,
        ).push(self.flags()).push(
            match self.initial_presentation_delay_minus_one {
                Some(d) => (16 + d % 16) as u8,
                None => 0u8,
            },
        ) + self.config_obus
    }

    /// Whether every field fits its bits.
    pub open spec fn fits(self) -> bool {
        &&& self.seq_profile < 8
        &&& self.seq_level_idx_0 < 32
        &&& self.chroma_sample_position < 4
        &&& self.initial_presentation_delay_minus_one matches Some(d) ==> d < 16
    }
}

impl Av1Config {
    /// Parse a record.
    pub fn parse(b: &[u8]) -> (r: Result<Self>)
        ensures
            outcome(r) == av1_config_of(b@),
    {
        if b.len() < 4 {
            let n: String = decimal(b.len() as u64);
            return Err(
                HeifError::invalid(
                    concat(&["av1C: record is ", n.as_str(), " bytes (need at least 4)"]),
                ),
            );
        }
        if b[0] < 128 {
            return Err(HeifError::invalid("av1C: marker bit is 0"));
        }
        let version: u8 = b[0] - 128;
        if version != 1 {
            let v: String = decimal(version as u64);
            return Err(
                HeifError::invalid(concat(&["av1C: version ", v.as_str(), " (expected 1)"])),
            );
        }
        let f: u8 = b[2];
        Ok(
            Self {
                seq_profile: b[1] / 32,
                seq_level_idx_0: b[1] % 32,
                seq_tier_0: f / 128 == 1,
                high_bitdepth: f / 64 % 2 == 1,
                twelve_bit: f / 32 % 2 == 1,
                monochrome: f / 16 % 2 == 1,
                chroma_subsampling_x: f / 8 % 2 == 1,
                chroma_subsampling_y: f / 4 % 2 == 1,
                chroma_sample_position: f % 4,
                initial_presentation_delay_minus_one: if b[3] / 16 % 2 == 1 {
                    Some(b[3] % 16)
                } else {
                    None
                },
                config_obus: copy_of(span(b, 4, b.len())),
                raw: copy_of(b),
            },
        )
    }

    /// Bit depth (8 / 10 / 12).
    pub fn bit_depth(&self) -> (r: u8)
        ensures
            r == self@.depth(),
    {
        if !self.high_bitdepth {
            8
        } else if self.twelve_bit {
            12
        } else {
            10
        }
    }

    /// Equivalent HEVC-style `chroma_format_idc` (0 mono, 1 4:2:0,
    /// 2 4:2:2, 3 4:4:4).
    pub fn chroma_format_idc(&self) -> (r: u8)
        ensures
            r == self@.chroma_idc(),
            r <= 3,
    {
        if self.monochrome {
            0
        } else if self.chroma_subsampling_x {
            if self.chroma_subsampling_y {
                1
            } else {
                2
            }
        } else {
            3
        }
    }

    /// Serialize the record (original bytes when available).
    pub fn to_bytes(&self) -> (v: Vec<u8>)
        ensures
            v@ == (if self.raw@.len() > 0 {
                self.raw@
            } else {
                self@.bytes()
            }),
    {
        if self.raw.len() > 0 {
            return copy_of(self.raw.as_slice());
        }
        self.serialize()
    }

    /// Serialize the record from its fields.
    pub fn serialize(&self) -> (v: Vec<u8>)
        ensures
            v@ == self@.bytes(),
    {
        let mut b: Vec<u8> = Vec::new();
        b.push(0x81);
        b.push(self.seq_profile % 8 * 32 + self.seq_level_idx_0 % 32);
        let mut f: u8 = self.chroma_sample_position % 4;
        if self.chroma_subsampling_y {
            f = f + 4;
        }
        if self.chroma_subsampling_x {
            f = f + 8;
        }
        if self.monochrome {
            f = f + 16;
        }
        if self.twelve_bit {
            f = f + 32;
        }
        if self.high_bitdepth {
            f = f + 64;
        }
        if self.seq_tier_0 {
            f = f + 128;
        }
        b.push(f);
        b.push(
            match self.initial_presentation_delay_minus_one {
                Some(d) => 16 + d % 16,
                None => 0,
            },
        );
        put(&mut b, self.config_obus.as_slice());
        b
    }
}

/// Parsing a serialized record whose fields fit their bits gives the record
/// back, with the bytes kept.
#[verifier::rlimit(50)]
pub proof fn law_av1_config_round_trip(c: Av1Model)
    requires
        c.fits(),
    ensures
        av1_config_of(c.bytes()) == Ok::<Av1Model, ErrorKind>(Av1Model { raw: c.bytes(), ..c }),
{
    let b = c.bytes();
    assert(b[2] == c.flags());
    lemma_flags(
        c.flags(),
        bit(c.seq_tier_0) as u8,
        bit(c.high_bitdepth) as u8,
        bit(c.twelve_bit) as u8,
        bit(c.monochrome) as u8,
        bit(c.chroma_subsampling_x) as u8,
        bit(c.chroma_subsampling_y) as u8,
        c.chroma_sample_position,
    );
    assert(b.subrange(4, b.len() as int) =~= c.config_obus);
}

proof fn lemma_flags(x: u8, a: u8, b: u8, c: u8, d: u8, e: u8, f: u8, p: u8)
    by (bit_vector)
    requires
        a < 2,
        b < 2,
        c < 2,
        d < 2,
        e < 2,
        f < 2,
        p < 4,
        x == a * 128 + b * 64 + c * 32 + d * 16 + e * 8 + f * 4 + p,
    ensures
        x / 128 == a,
        x / 64 % 2 == b,
        x / 32 % 2 == c,
        x / 16 % 2 == d,
        x / 8 % 2 == e,
        x / 4 % 2 == f,
        x % 4 == p,
{
}

/// Whatever parses as a record serializes, and parses again to the same fields;
/// serializing those gives the same bytes.
#[verifier::rlimit(50)]
pub proof fn law_parsed_av1_record(b: Seq<u8>)
    ensures
        av1_config_of(b) matches Ok(c) ==> {
            let again = Av1Model { raw: c.bytes(), ..c };
            &&& av1_config_of(c.bytes()) == Ok::<Av1Model, ErrorKind>(again)
            &&& again.bytes() == c.bytes()
        },
{
    match av1_config_of(b) {
        Ok(c) => {
            law_av1_config_round_trip(c);
        },
        Err(_) => {},
    }
}

} // verus!
