//! ISO 21496-1 gain maps: the binary metadata payload (Annex C.2) a
//! `tmap` derived item carries, and the choices that applying a gain map to
//! a baseline image (§6) makes from it.
//!
//! Carriage in HEIF (which `dimg` input is the baseline, that the
//! `tmap` item body is the C.2 structure behind a version byte, and that the
//! `tmap` item's own `colr` describes the alternate image) follows ISO/IEC
//! 23008-12 Amd 1 §6.6.2.4.
use crate::bytes::{be16, be32, enc16, enc32, get16, get32, put, put16, put32, signed32, span, to_i32};
use crate::bytes::{lemma_read16, lemma_read32};
use crate::error::{view_outcome, ErrorKind, HeifError, Outcome, Result};
use crate::image::Chroma;
use crate::props::{Colr, ColrModel};
use crate::compose::fill::option_colr;
use crate::text::{concat, decimal};
use vstd::prelude::*;

verus! {

/// A signed rational (`numerator / denominator`) as stored in the
/// metadata; `den` is never 0 after a successful parse.
#[derive(Clone, Copy, Debug, PartialEq, Eq, Structural)]
pub struct Rational {
    /// Numerator (signed for the min / max / offsets, non-negative
    /// for gamma and the headrooms).
    pub num: i64,
    /// Denominator.
    pub den: u32,
}

impl Rational {
    /// Whether the rational can be stored.
    pub open spec fn fits(self, signed: bool) -> bool {
        &&& self.den > 0
        &&& if signed {
            i32::MIN <= self.num <= i32::MAX
        } else {
            0 <= self.num <= u32::MAX
        }
    }

    /// Whether the rational is less than another, for denominators above 0.
    pub open spec fn less(self, other: Rational) -> bool {
        self.num * other.den < other.num * self.den
    }

    fn is_less(&self, other: &Rational) -> (r: bool)
        ensures
            r == self.less(*other),
    {
        proof {
            assert(-0x8000_0000_0000_0000_0000_0000 <= self.num * other.den
                <= 0x8000_0000_0000_0000_0000_0000) by (nonlinear_arith)
                requires
                    -0x8000_0000_0000_0000 <= self.num <= 0x8000_0000_0000_0000,
                    0 <= other.den <= 0x1_0000_0000,
            ;
            assert(-0x8000_0000_0000_0000_0000_0000 <= other.num * self.den
                <= 0x8000_0000_0000_0000_0000_0000) by (nonlinear_arith)
                requires
                    -0x8000_0000_0000_0000 <= other.num <= 0x8000_0000_0000_0000,
                    0 <= self.den <= 0x1_0000_0000,
            ;
        }
        (self.num as i128 * other.den as i128) < (other.num as i128 * self.den as i128)
    }
}

/// Per-channel metadata (`GainMapChannel`, C.2.2).
#[derive(Clone, Copy, Debug, PartialEq, Eq, Structural)]
pub struct GainMapChannel {
    /// `min(G)`, log₂ domain (5.2.5.2).
    pub gain_map_min: Rational,
    /// `max(G)`, log₂ domain (5.2.5.3).
    pub gain_map_max: Rational,
    /// `γ` (5.2.5.6), > 0.
    pub gamma: Rational,
    /// `k_baseline` (5.2.5.4).
    pub base_offset: Rational,
    /// `k_alternate` (5.2.5.5).
    pub alternate_offset: Rational,
}

impl GainMapChannel {
    /// Whether the entry can be stored and read back.
    pub open spec fn fits(self) -> bool {
        &&& self.gain_map_min.fits(true)
        &&& self.gain_map_max.fits(true)
        &&& self.gamma.fits(false)
        &&& self.gamma.num != 0
        &&& self.base_offset.fits(true)
        &&& self.alternate_offset.fits(true)
        &&& !self.gain_map_max.less(self.gain_map_min)
    }
}

/// `GainMapMetadata` (C.2.2), the body of a `tmap` item.
#[derive(Clone, Debug, PartialEq, Eq)]
pub struct GainMapMetadata {
    /// `minimum_version` — 0 for this edition.
    pub minimum_version: u16,
    /// `writer_version` (≥ `minimum_version`).
    pub writer_version: u16,
    /// `is_multichannel`: three per-channel entries (R, G, B) rather
    /// than one shared entry.
    pub is_multichannel: bool,
    /// `use_base_colour_space`: the gain-map application space takes
    /// the baseline image's primaries (else the alternate's).
    pub use_base_colour_space: bool,
    /// `H_baseline` (5.2.6).
    pub base_hdr_headroom: Rational,
    /// `H_alternate` (5.2.7).
    pub alternate_hdr_headroom: Rational,
    /// One entry, or three in R, G, B order when multichannel.
    pub channels: Vec<GainMapChannel>,
}

/// Model of [`GainMapMetadata`].
#[verifier::ext_equal]
pub struct GainMapModel {
    /// `minimum_version`.
    pub minimum_version: u16,
    /// `writer_version`.
    pub writer_version: u16,
    /// `is_multichannel`.
    pub is_multichannel: bool,
    /// `use_base_colour_space`.
    pub use_base_colour_space: bool,
    /// `H_baseline`.
    pub base_hdr_headroom: Rational,
    /// `H_alternate`.
    pub alternate_hdr_headroom: Rational,
    /// The entries.
    pub channels: Seq<GainMapChannel>,
}

impl View for GainMapMetadata {
    type V = GainMapModel;

    open spec fn view(&self) -> GainMapModel {
        GainMapModel {
            minimum_version: self.minimum_version,
            writer_version: self.writer_version,
            is_multichannel: self.is_multichannel,
            use_base_colour_space: self.use_base_colour_space,
            base_hdr_headroom: self.base_hdr_headroom,
            alternate_hdr_headroom: self.alternate_hdr_headroom,
            channels: self.channels@,
        }
    }
}

/// The rational stored at `at`, `None` when it is cut off or has no value.
#[verifier::opaque]
pub open spec fn rational_at(b: Seq<u8>, at: int, signed: bool) -> Option<Rational> {
    if at + 8 > b.len() || be32(b, at + 4) == 0 {
        None
    } else {
        let n = be32(b, at);
        Some(
            Rational {
                num: if signed {
                    signed32(n) as i64
                } else {
                    n as i64
                },
                den: be32(b, at + 4),
            },
        )
    }
}

/// The entry stored at `at`, `None` when a field is missing or not allowed.
pub open spec fn channel_at(b: Seq<u8>, at: int) -> Option<GainMapChannel> {
    match (
        rational_at(b, at, true),
        rational_at(b, at + 8, true),
        rational_at(b, at + 16, false),
        rational_at(b, at + 24, true),
        rational_at(b, at + 32, true),
    ) {
        (
            Some(gain_map_min),
            Some(gain_map_max),
            Some(gamma),
            Some(base_offset),
            Some(alternate_offset),
        ) => if gamma.num == 0 || gain_map_max.less(gain_map_min) {
            None
        } else {
            Some(
                GainMapChannel { gain_map_min, gain_map_max, gamma, base_offset, alternate_offset },
            )
        },
        _ => None,
    }
}

/// The `n` entries stored from `at` on, after those in `acc`.
pub open spec fn channels_at(
    b: Seq<u8>,
    at: int,
    n: int,
    acc: Seq<GainMapChannel>,
) -> Option<Seq<GainMapChannel>>
    decreases n,
{
    if n <= 0 {
        Some(acc)
    } else {
        match channel_at(b, at) {
            None => None,
            Some(c) => channels_at(b, at + 40, n - 1, acc.push(c)),
        }
    }
}

/// The number of entries.
pub open spec fn entry_count(is_multichannel: bool) -> int {
    if is_multichannel {
        3
    } else {
        1
    }
}

/// The metadata a C.2 structure holds.
pub open spec fn gain_map_of(b: Seq<u8>) -> Outcome<GainMapModel> {
    if b.len() < 4 {
        Err(ErrorKind::Invalid)
    } else if be16(b, 0) != 0 {
        Err(ErrorKind::Unsupported)
    } else if b.len() < 5 {
        Err(ErrorKind::Invalid)
    } else {
        let multi = b[4] >= 128;
        match (
            rational_at(b, 5, false),
            rational_at(b, 13, false),
            channels_at(b, 21, entry_count(multi), Seq::empty()),
        ) {
            (Some(base), Some(alternate), Some(channels)) => Ok(
                GainMapModel {
                    minimum_version: 0,
                    writer_version: be16(b, 2),
                    is_multichannel: multi,
                    use_base_colour_space: b[4] / 64 % 2 == 1,
                    base_hdr_headroom: base,
                    alternate_hdr_headroom: alternate,
                    channels,
                },
            ),
            _ => Err(ErrorKind::Invalid),
        }
    }
}

/// The metadata the body of a `tmap` item holds.
pub open spec fn tone_map_of(b: Seq<u8>) -> Outcome<GainMapModel> {
    if b.len() == 0 {
        Err(ErrorKind::Invalid)
    } else if b[0] != 0 {
        Err(ErrorKind::Unsupported)
    } else {
        gain_map_of(b.skip(1))
    }
}

/// The low 32 bits of a number.
pub open spec fn low32(v: i64) -> u32 {
    (v as int % 0x1_0000_0000) as u32
}

/// The stored form of a rational.
#[verifier::opaque]
pub open spec fn rational_bytes(r: Rational) -> Seq<u8> {
    enc32(low32(r.num)) + enc32(r.den)
}

/// The stored form of an entry.
#[verifier::opaque]
pub open spec fn channel_bytes(c: GainMapChannel) -> Seq<u8> {
    rational_bytes(c.gain_map_min) + rational_bytes(c.gain_map_max) + rational_bytes(c.gamma)
        + rational_bytes(c.base_offset) + rational_bytes(c.alternate_offset)
}

/// The stored form of a list of entries.
pub open spec fn channels_bytes(c: Seq<GainMapChannel>) -> Seq<u8>
    decreases c.len(),
{
    if c.len() == 0 {
        Seq::empty()
    } else {
        channels_bytes(c.drop_last()) + channel_bytes(c.last())
    }
}

impl GainMapModel {
    /// The entries that are stored.
    pub open spec fn stored(self) -> Seq<GainMapChannel> {
        let n = entry_count(self.is_multichannel);
        if self.channels.len() < n {
            self.channels
        } else {
            self.channels.take(n)
        }
    }

    /// The flag byte.
    pub open spec fn flags(self) -> u8 {
        ((if self.is_multichannel {
            128int
        } else {
            0
        }) + (if self.use_base_colour_space {
            64int
        } else {
            0
        })) as u8
    }

    /// The C.2 structure.
    pub open spec fn bytes(self) -> Seq<u8> {
        enc16(self.minimum_version) + enc16(self.writer_version) + seq![self.flags()]
            + rational_bytes(self.base_hdr_headroom) + rational_bytes(self.alternate_hdr_headroom)
            + channels_bytes(self.stored())
    }

    /// Whether the metadata can be stored and read back.
    pub open spec fn fits(self) -> bool {
        &&& self.minimum_version == 0
        &&& self.base_hdr_headroom.fits(false)
        &&& self.alternate_hdr_headroom.fits(false)
        &&& self.channels.len() == entry_count(self.is_multichannel)
        &&& forall|i: int| 0 <= i < self.channels.len() ==> (#[trigger] self.channels[i]).fits()
    }
}

fn low_bits(v: i64) -> (r: u32)
    ensures
        r == low32(v),
{
    if v >= 0 {
        (v as u64 % 0x1_0000_0000) as u32
    } else {
        let k: u64 = (-(v + 1)) as u64;
        (0xffff_ffff - k % 0x1_0000_0000) as u32
    }
}

fn put_rational(out: &mut Vec<u8>, r: &Rational)
    ensures
        final(out)@ == old(out)@ + rational_bytes(*r),
{
    proof {
        reveal(rational_bytes);
    }
    put32(out, low_bits(r.num));
    put32(out, r.den);
}

fn rational(b: &[u8], at: usize, signed: bool) -> (r: Result<Rational>)
    requires
        at <= 1000,
    ensures
        match r {
            Ok(v) => rational_at(b@, at as int, signed) == Some(v),
            Err(e) => rational_at(b@, at as int, signed) is None && e.kind() == ErrorKind::Invalid,
        },
{
    proof {
        reveal(rational_at);
    }
    if b.len() < 8 || at > b.len() - 8 {
        return Err(HeifError::invalid("gain map metadata truncated"));
    }
    let n: u32 = get32(b, at);
    let d: u32 = get32(b, at + 4);
    if d == 0 {
        return Err(HeifError::invalid("gain map metadata: zero denominator"));
    }
    Ok(
        Rational {
            num: if signed {
                to_i32(n) as i64
            } else {
                n as i64
            },
            den: d,
        },
    )
}

fn channel_entry(b: &[u8], at: usize) -> (r: Result<GainMapChannel>)
    requires
        at <= 500,
    ensures
        match r {
            Ok(v) => channel_at(b@, at as int) == Some(v),
            Err(e) => channel_at(b@, at as int) is None && e.kind() == ErrorKind::Invalid,
        },
{
    let c = GainMapChannel {
        gain_map_min: rational(b, at, true)?,
        gain_map_max: rational(b, at + 8, true)?,
        gamma: rational(b, at + 16, false)?,
        base_offset: rational(b, at + 24, true)?,
        alternate_offset: rational(b, at + 32, true)?,
    };
    if c.gamma.num == 0 {
        return Err(HeifError::invalid("gain map metadata: zero gamma"));
    }
    if c.gain_map_max.is_less(&c.gain_map_min) {
        return Err(HeifError::invalid("gain map metadata: max(G) below min(G)"));
    }
    Ok(c)
}

impl GainMapMetadata {
    /// Parse the C.2 structure; trailing bytes beyond the recognised
    /// fields are ignored (C.2.1). An unknown `minimum_version` is an
    /// error: the reader must fall back to the base image (C.2.3).
    pub fn parse(b: &[u8]) -> (r: Result<Self>)
        ensures
            view_outcome(r) == gain_map_of(b@),
    {
        if b.len() < 4 {
            return Err(HeifError::invalid("gain map metadata truncated"));
        }
        let minimum_version: u16 = get16(b, 0);
        let writer_version: u16 = get16(b, 2);
        if minimum_version != 0 {
            let v: String = decimal(minimum_version as u64);
            return Err(
                HeifError::unsupported(concat(&["gain map metadata minimum_version ", v.as_str()])),
            );
        }
        if b.len() < 5 {
            return Err(HeifError::invalid("gain map metadata truncated"));
        }
        let flags: u8 = b[4];
        let is_multichannel: bool = flags >= 128;
        let use_base_colour_space: bool = flags / 64 % 2 == 1;
        let base_hdr_headroom: Rational = rational(b, 5, false)?;
        let alternate_hdr_headroom: Rational = rational(b, 13, false)?;
        let count: usize = if is_multichannel {
            3
        } else {
            1
        };
        let mut channels: Vec<GainMapChannel> = Vec::new();
        let mut i: usize = 0;
        let ghost goal = channels_at(b@, 21, count as int, Seq::empty());
        while i < count
            invariant
                i <= count <= 3,
                goal == channels_at(b@, 21 + 40 * i, count - i, channels@),
                goal == channels_at(b@, 21, entry_count(b@[4] >= 128), Seq::empty()),
                4 < b@.len(),
                be16(b@, 0) == 0,
            decreases count - i,
        {
            let c: GainMapChannel = channel_entry(b, 21 + 40 * i)?;
            channels.push(c);
            i = i + 1;
        }
        Ok(
            GainMapMetadata {
                minimum_version,
                writer_version,
                is_multichannel,
                use_base_colour_space,
                base_hdr_headroom,
                alternate_hdr_headroom,
                channels,
            },
        )
    }

    /// Parse the body of a `tmap` item — the `ToneMapImage` of
    /// ISO/IEC 23008-12:2025/Amd 1 §6.6.2.4.2: one `version` byte that
    /// shall be 0, then the C.2 `GainMapMetadata` to the end of the
    /// item. "Readers shall not process a ToneMapImage with an
    /// unrecognized version number" (§6.6.2.4.3): any other version is
    /// `Unsupported`.
    pub fn parse_tmap_body(b: &[u8]) -> (r: Result<Self>)
        ensures
            view_outcome(r) == tone_map_of(b@),
    {
        if b.len() == 0 {
            return Err(HeifError::invalid("empty tmap item body"));
        }
        if b[0] != 0 {
            let v: String = decimal(b[0] as u64);
            return Err(HeifError::unsupported(concat(&["ToneMapImage version ", v.as_str()])));
        }
        assert(b@.skip(1) =~= b@.subrange(1, b@.len() as int));
        Self::parse(span(b, 1, b.len()))
    }

    /// Serialise as a `tmap` item body (version prefix + C.2).
    pub fn serialize_tmap_body(&self) -> (r: Vec<u8>)
        ensures
            r@ == seq![0u8] + self@.bytes(),
    {
        let mut v: Vec<u8> = Vec::new();
        v.push(0);
        let rest: Vec<u8> = self.serialize();
        put(&mut v, rest.as_slice());
        v
    }

    /// Serialise to the C.2 layout.
    pub fn serialize(&self) -> (r: Vec<u8>)
        ensures
            r@ == self@.bytes(),
    {
        let mut v: Vec<u8> = Vec::new();
        put16(&mut v, self.minimum_version);
        put16(&mut v, self.writer_version);
        let multi: u8 = if self.is_multichannel {
            128
        } else {
            0
        };
        let base: u8 = if self.use_base_colour_space {
            64
        } else {
            0
        };
        v.push(multi + base);
        put_rational(&mut v, &self.base_hdr_headroom);
        put_rational(&mut v, &self.alternate_hdr_headroom);
        let ghost head = v@;
        let n: usize = if self.is_multichannel {
            3
        } else {
            1
        };
        let n: usize = if self.channels.len() < n {
            self.channels.len()
        } else {
            n
        };
        let ghost kept = self@.stored();
        assert(kept.take(0) =~= Seq::empty());
        for i in 0..n
            invariant
                n == kept.len(),
                kept == self@.stored(),
                n <= self.channels@.len(),
                v@ == head + channels_bytes(kept.take(i as int)),
        {
            let c: &GainMapChannel = &self.channels[i];
            let ghost before = v@;
            put_rational(&mut v, &c.gain_map_min);
            put_rational(&mut v, &c.gain_map_max);
            put_rational(&mut v, &c.gamma);
            put_rational(&mut v, &c.base_offset);
            put_rational(&mut v, &c.alternate_offset);
            proof {
                reveal(channel_bytes);
                assert(v@ =~= before + channel_bytes(*c));
                assert(kept.take(i + 1).drop_last() =~= kept.take(i as int));
                assert(kept.take(i + 1).last() == *c);
            }
        }
        assert(kept.take(n as int) =~= kept);
        assert(v@ =~= self@.bytes());
        v
    }

    /// The per-channel entry for RGB channel `c` (5.2.5.1: a single
    /// entry applies to all three).
    pub fn channel(&self, c: usize) -> (r: &GainMapChannel)
        requires
            self.channels@.len() > 0,
            self.is_multichannel && self.channels@.len() >= 3 ==> c < self.channels@.len(),
        ensures
            *r == (if self.is_multichannel && self.channels@.len() >= 3 {
                self.channels@[c as int]
            } else {
                self.channels@[0]
            }),
    {
        if self.is_multichannel && self.channels.len() >= 3 {
            &self.channels[c]
        } else {
            &self.channels[0]
        }
    }
}

/// The colour primaries and transfer of a `colr`, with the MIAF defaults for
/// an absent, ICC or unspecified one.
pub open spec fn code_points(colr: Option<ColrModel>) -> (u16, u16) {
    match colr {
        Some(ColrModel::Nclx { primaries, transfer, .. }) => (
            if primaries == 2 {
                1
            } else {
                primaries
            },
            transfer,
        ),
        _ => (1, 13),
    }
}

/// The colour code points of a `colr`, with the MIAF defaults for an
/// absent / ICC / unspecified one.
pub fn cicp(colr: Option<&Colr>) -> (r: (u16, u16))
    ensures
        r == code_points(option_colr(colr)),
{
    match colr {
        Some(Colr::Nclx { primaries, transfer, .. }) => (
            if *primaries == 2 {
                1
            } else {
                *primaries
            },
            *transfer,
        ),
        _ => (1, 13),
    }
}

/// The primaries of the gain-map application space (Annex B): the baseline
/// image's, or those of the alternate (the base's when it has no `colr`,
/// 5.3.3).
pub fn application_primaries(
    meta: &GainMapMetadata,
    base_colr: Option<&Colr>,
    alternate_colr: Option<&Colr>,
) -> (r: u16)
    ensures
        r == (if meta.use_base_colour_space || alternate_colr is None {
            code_points(option_colr(base_colr)).0
        } else {
            code_points(option_colr(alternate_colr)).0
        }),
{
    if meta.use_base_colour_space || alternate_colr.is_none() {
        cicp(base_colr).0
    } else {
        cicp(alternate_colr).0
    }
}

/// The number of channels a gain map is applied with: a single-channel map
/// with multi-channel metadata counts as three identical channels
/// (§6.6.2.4.1).
pub fn gain_channels(map: Chroma, meta: &GainMapMetadata) -> (r: usize)
    ensures
        r == (if map != Chroma::Mono || meta.is_multichannel {
            3int
        } else {
            1
        }),
{
    if map != Chroma::Mono || meta.is_multichannel {
        3
    } else {
        1
    }
}

/// The chroma structure of a tone-mapped image: monochrome when base and map
/// both are.
pub fn tone_mapped_chroma(base: Chroma, map: Chroma) -> (r: Chroma)
    ensures
        r == (if base == Chroma::Mono && map == Chroma::Mono {
            Chroma::Mono
        } else {
            Chroma::Yuv444
        }),
{
    if base == Chroma::Mono && map == Chroma::Mono {
        Chroma::Mono
    } else {
        Chroma::Yuv444
    }
}

proof fn lemma_rational(s: Seq<u8>, at: int, r: Rational, signed: bool)
    requires
        0 <= at,
        at + 8 <= s.len(),
        s.subrange(at, at + 8) =~= rational_bytes(r),
        r.fits(signed),
    ensures
        rational_at(s, at, signed) == Some(r),
{
    reveal(rational_at);
    reveal(rational_bytes);
    let t = rational_bytes(r);
    assert(s.subrange(at, at + 4) =~= s.subrange(at, at + 8).subrange(0, 4));
    assert(t.subrange(0, 4) =~= enc32(low32(r.num)));
    assert(s.subrange(at + 4, at + 8) =~= s.subrange(at, at + 8).subrange(4, 8));
    assert(t.subrange(4, 8) =~= enc32(r.den));
    lemma_read32(s, at, low32(r.num));
    lemma_read32(s, at + 4, r.den);
}

proof fn lemma_rational_len(r: Rational)
    ensures
        rational_bytes(r).len() == 8,
{
    reveal(rational_bytes);
}

proof fn lemma_channel_len(c: GainMapChannel)
    ensures
        channel_bytes(c).len() == 40,
{
    reveal(channel_bytes);
    lemma_rational_len(c.gain_map_min);
    lemma_rational_len(c.gain_map_max);
    lemma_rational_len(c.gamma);
    lemma_rational_len(c.base_offset);
    lemma_rational_len(c.alternate_offset);
}

proof fn lemma_channel(s: Seq<u8>, at: int, c: GainMapChannel)
    requires
        0 <= at,
        at + 40 <= s.len(),
        s.subrange(at, at + 40) =~= channel_bytes(c),
        c.fits(),
    ensures
        channel_at(s, at) == Some(c),
{
    reveal(channel_bytes);
    lemma_rational_len(c.gain_map_min);
    lemma_rational_len(c.gain_map_max);
    lemma_rational_len(c.gamma);
    lemma_rational_len(c.base_offset);
    lemma_rational_len(c.alternate_offset);
    let t = s.subrange(at, at + 40);
    assert(s.subrange(at, at + 8) =~= t.subrange(0, 8));
    assert(t.subrange(0, 8) =~= rational_bytes(c.gain_map_min));
    assert(s.subrange(at + 8, at + 8 + 8) =~= t.subrange(8, 16));
    assert(t.subrange(8, 16) =~= rational_bytes(c.gain_map_max));
    assert(s.subrange(at + 16, at + 16 + 8) =~= t.subrange(16, 24));
    assert(t.subrange(16, 24) =~= rational_bytes(c.gamma));
    assert(s.subrange(at + 24, at + 24 + 8) =~= t.subrange(24, 32));
    assert(t.subrange(24, 32) =~= rational_bytes(c.base_offset));
    assert(s.subrange(at + 32, at + 32 + 8) =~= t.subrange(32, 40));
    assert(t.subrange(32, 40) =~= rational_bytes(c.alternate_offset));
    lemma_rational(s, at, c.gain_map_min, true);
    lemma_rational(s, at + 8, c.gain_map_max, true);
    lemma_rational(s, at + 16, c.gamma, false);
    lemma_rational(s, at + 24, c.base_offset, true);
    lemma_rational(s, at + 32, c.alternate_offset, true);
}

proof fn lemma_channels_len(c: Seq<GainMapChannel>)
    ensures
        channels_bytes(c).len() == 40 * c.len(),
    decreases c.len(),
{
    if c.len() > 0 {
        lemma_channels_len(c.drop_last());
        lemma_channel_len(c.last());
    }
}

/// Entry `i` of a stored list.
proof fn lemma_channel_slot(c: Seq<GainMapChannel>, i: int)
    requires
        0 <= i < c.len(),
    ensures
        channels_bytes(c).len() == 40 * c.len(),
        channels_bytes(c).subrange(40 * i, 40 * i + 40) =~= channel_bytes(c[i]),
    decreases c.len(),
{
    lemma_channels_len(c);
    lemma_channels_len(c.drop_last());
    lemma_channel_len(c.last());
    let all = channels_bytes(c);
    let front = channels_bytes(c.drop_last());
    if i < c.len() - 1 {
        lemma_channel_slot(c.drop_last(), i);
        assert(all.subrange(40 * i, 40 * i + 40) =~= front.subrange(40 * i, 40 * i + 40));
    }
}

proof fn lemma_channels(s: Seq<u8>, at: int, c: Seq<GainMapChannel>, i: int)
    requires
        0 <= at,
        0 <= i <= c.len(),
        at + 40 * c.len() <= s.len(),
        s.subrange(at, at + 40 * c.len()) =~= channels_bytes(c),
        forall|k: int| 0 <= k < c.len() ==> (#[trigger] c[k]).fits(),
    ensures
        channels_at(s, at + 40 * i, c.len() - i, c.take(i)) == Some(c),
    decreases c.len() - i,
{
    if i == c.len() {
        assert(c.take(i) =~= c);
    } else {
        lemma_channel_slot(c, i);
        let p = at + 40 * i;
        assert(s.subrange(p, p + 40) =~= s.subrange(at, at + 40 * c.len()).subrange(
            40 * i,
            40 * i + 40,
        ));
        lemma_channel(s, p, c[i]);
        assert(c.take(i).push(c[i]) =~= c.take(i + 1));
        lemma_channels(s, at, c, i + 1);
    }
}

/// Reading stored metadata gives it back, whatever follows it.
#[verifier::rlimit(50)]
pub proof fn law_gain_map_round_trip(m: GainMapModel, tail: Seq<u8>)
    requires
        m.fits(),
    ensures
        gain_map_of(m.bytes() + tail) == Ok::<GainMapModel, ErrorKind>(m),
{
    let s = m.bytes() + tail;
    let c = m.channels;
    let n = c.len() as int;
    assert(c.take(n) =~= c);
    assert(m.stored() =~= c);
    lemma_rational_len(m.base_hdr_headroom);
    lemma_rational_len(m.alternate_hdr_headroom);
    lemma_channels_len(c);
    assert(s.subrange(0, 2) =~= enc16(m.minimum_version));
    assert(s.subrange(2, 4) =~= enc16(m.writer_version));
    assert(s[4] == m.flags());
    assert(s.subrange(5, 13) =~= rational_bytes(m.base_hdr_headroom));
    assert(s.subrange(13, 21) =~= rational_bytes(m.alternate_hdr_headroom));
    assert(s.subrange(21, 21 + 40 * n) =~= channels_bytes(c));
    lemma_read16(s, 0, m.minimum_version);
    lemma_read16(s, 2, m.writer_version);
    lemma_rational(s, 5, m.base_hdr_headroom, false);
    lemma_rational(s, 13, m.alternate_hdr_headroom, false);
    lemma_channels(s, 21, c, 0);
    assert(c.take(0) =~= Seq::empty());
}

/// Reading the stored body of a `tmap` item gives its metadata back.
#[verifier::rlimit(50)]
pub proof fn law_tone_map_round_trip(m: GainMapModel)
    requires
        m.fits(),
    ensures
        tone_map_of(seq![0u8] + m.bytes()) == Ok::<GainMapModel, ErrorKind>(m),
{
    law_gain_map_round_trip(m, Seq::empty());
    assert((seq![0u8] + m.bytes()).skip(1) =~= m.bytes() + Seq::empty());
}

/// What is read as a list of entries fits its fields.
proof fn lemma_read_channels(b: Seq<u8>, at: int, n: int, acc: Seq<GainMapChannel>)
    requires
        0 <= n,
        forall|i: int| 0 <= i < acc.len() ==> (#[trigger] acc[i]).fits(),
    ensures
        channels_at(b, at, n, acc) matches Some(c) ==> c.len() == acc.len() + n && forall|i: int|
            0 <= i < c.len() ==> (#[trigger] c[i]).fits(),
    decreases n,
{
    if n > 0 {
        reveal(rational_at);
        match channel_at(b, at) {
            Some(c) => {
                assert(c.fits());
                lemma_read_channels(b, at + 40, n - 1, acc.push(c));
            },
            None => {},
        }
    }
}

/// Whatever parses as the body of a `tmap` item serializes and parses again to
/// the same metadata.
#[verifier::rlimit(50)]
pub proof fn law_parsed_tone_map(b: Seq<u8>)
    ensures
        tone_map_of(b) matches Ok(m) ==> tone_map_of(seq![0u8] + m.bytes()) == Ok::<
            GainMapModel,
            ErrorKind,
        >(m),
{
    match tone_map_of(b) {
        Ok(m) => {
            reveal(rational_at);
            lemma_read_channels(b.skip(1), 21, entry_count(m.is_multichannel), Seq::empty());
            assert(m.fits());
            law_tone_map_round_trip(m);
        },
        Err(_) => {},
    }
}

} // verus!
