//! `HEVCDecoderConfigurationRecord` (`hvcC`, ISO/IEC 14496-15 §8.3.3.1)
//! — the decoder configuration property of `hvc1` image items (HEIF
//! Annex B.2.3.1) and of `hvc1` sample entries in image sequences.
//!
//! ```text
//! unsigned int(8)  configurationVersion = 1;
//! unsigned int(2)  general_profile_space;
//! unsigned int(1)  general_tier_flag;
//! unsigned int(5)  general_profile_idc;
//! unsigned int(32) general_profile_compatibility_flags;
//! unsigned int(48) general_constraint_indicator_flags;
//! unsigned int(8)  general_level_idc;
//! bit(4) reserved = '1111'b; unsigned int(12) min_spatial_segmentation_idc;
//! bit(6) reserved = '111111'b; unsigned int(2) parallelismType;
//! bit(6) reserved = '111111'b; unsigned int(2) chroma_format_idc;
//! bit(5) reserved = '11111'b;  unsigned int(3) bit_depth_luma_minus8;
//! bit(5) reserved = '11111'b;  unsigned int(3) bit_depth_chroma_minus8;
//! unsigned int(16) avgFrameRate;
//! unsigned int(2)  constantFrameRate;
//! unsigned int(3)  numTemporalLayers;
//! unsigned int(1)  temporalIdNested;
//! unsigned int(2)  lengthSizeMinusOne;
//! unsigned int(8)  numOfArrays;
//! for (j = 0; j < numOfArrays; j++) {
//!   unsigned int(1)  array_completeness;
//!   bit(1) reserved = 0;
//!   unsigned int(6)  NAL_unit_type;
//!   unsigned int(16) numNalus;
//!   for (i = 0; i < numNalus; i++) {
//!     unsigned int(16) nalUnitLength;
//!     bit(8*nalUnitLength) nalUnit;
//!   }
//! }
//! ```
use crate::boxes::{uint_at, Reader};
use crate::bytes::{
    be16, be24, be32, copy_lists, lemma_assoc, copy_of, enc16, enc24, enc32, lists, put, put16, put24, put32, span, views,
};
use crate::error::{outcome, ErrorKind, HeifError, Result};
use crate::text::{concat, decimal};
use vstd::prelude::*;

verus! {

/// Fixed-size head of the record, before the NAL arrays.
pub const HEVC_CONFIG_HEAD_LEN: usize = 23;

/// One parameter-set / SEI array of the record.
#[derive(Debug, PartialEq, Eq)]
pub struct NalArray {
    /// `array_completeness`.
    pub complete: bool,
    /// The `bit(1) reserved` between `array_completeness` and
    /// `NAL_unit_type`; kept so a record re-serializes byte-exact even
    /// when a writer set it (some encoders emit `1`).
    pub reserved_bit: bool,
    /// `NAL_unit_type` (32 = VPS, 33 = SPS, 34 = PPS, 39 / 40 = SEI).
    pub nal_unit_type: u8,
    /// The NAL units (two-byte header + payload each, no length prefix).
    pub nal_units: Vec<Vec<u8>>,
}

/// Model of a [`NalArray`].
#[verifier::ext_equal]
pub struct NalArrayModel {
    /// `array_completeness`.
    pub complete: bool,
    /// The reserved bit.
    pub reserved_bit: bool,
    /// `NAL_unit_type`.
    pub nal_unit_type: u8,
    /// The NAL units.
    pub nal_units: Seq<Seq<u8>>,
}

impl View for NalArray {
    type V = NalArrayModel;

    open spec fn view(&self) -> NalArrayModel {
        NalArrayModel {
            complete: self.complete,
            reserved_bit: self.reserved_bit,
            nal_unit_type: self.nal_unit_type,
            nal_units: lists(self.nal_units@),
        }
    }
}

impl DeepView for NalArray {
    type V = NalArrayModel;

    open spec fn deep_view(&self) -> NalArrayModel {
        self@
    }
}

impl Clone for NalArray {
    fn clone(&self) -> (r: Self)
        ensures
            r@ == self@,
    {
        NalArray {
            complete: self.complete,
            reserved_bit: self.reserved_bit,
            nal_unit_type: self.nal_unit_type,
            nal_units: copy_lists(&self.nal_units),
        }
    }
}

/// A copy of a list of NAL arrays.
pub(crate) fn clone_arrays(v: &Vec<NalArray>) -> (r: Vec<NalArray>)
    ensures
        r.deep_view() == v.deep_view(),
{
    let mut r: Vec<NalArray> = Vec::new();
    for i in 0..v.len()
        invariant
            r@.len() == i,
            forall|j: int| 0 <= j < i ==> (#[trigger] r@[j])@ == v@[j]@,
    {
        r.push(v[i].clone());
    }
    proof {
        assert(r.deep_view() =~= v.deep_view());
    }
    r
}

/// Parsed `hvcC` record. The raw bytes are kept for the decoder
/// hand-off and for byte-exact rewriting.
#[derive(Debug, PartialEq, Eq)]
pub struct HevcConfig {
    /// `configurationVersion` (1).
    pub configuration_version: u8,
    /// `general_profile_space`.
    pub general_profile_space: u8,
    /// `general_tier_flag`.
    pub general_tier_flag: bool,
    /// `general_profile_idc` (1 Main, 2 Main 10, 3 Main Still Picture, 4 RExt, …).
    pub general_profile_idc: u8,
    /// `general_profile_compatibility_flags` (bit 31 ↔ profile 0).
    pub general_profile_compatibility_flags: u32,
    /// `general_constraint_indicator_flags` (48 bits).
    pub general_constraint_indicator_flags: u64,
    /// `general_level_idc` (level × 30).
    pub general_level_idc: u8,
    /// `min_spatial_segmentation_idc`.
    pub min_spatial_segmentation_idc: u16,
    /// `parallelismType`.
    pub parallelism_type: u8,
    /// `chroma_format_idc` (0 mono, 1 4:2:0, 2 4:2:2, 3 4:4:4).
    pub chroma_format_idc: u8,
    /// `bit_depth_luma_minus8`.
    pub bit_depth_luma_minus8: u8,
    /// `bit_depth_chroma_minus8`.
    pub bit_depth_chroma_minus8: u8,
    /// `avgFrameRate`.
    pub avg_frame_rate: u16,
    /// `constantFrameRate`.
    pub constant_frame_rate: u8,
    /// `numTemporalLayers`.
    pub num_temporal_layers: u8,
    /// `temporalIdNested`.
    pub temporal_id_nested: bool,
    /// `lengthSizeMinusOne + 1`: the byte width of in-band NAL length prefixes.
    pub length_size: u8,
    /// The NAL arrays.
    pub arrays: Vec<NalArray>,
    /// The record bytes as found in the file.
    pub raw: Vec<u8>,
}

/// Model of an [`HevcConfig`].
#[verifier::ext_equal]
pub struct HevcModel {
    /// `configurationVersion`.
    pub configuration_version: u8,
    /// `general_profile_space`.
    pub general_profile_space: u8,
    /// `general_tier_flag`.
    pub general_tier_flag: bool,
    /// `general_profile_idc`.
    pub general_profile_idc: u8,
    /// `general_profile_compatibility_flags`.
    pub general_profile_compatibility_flags: u32,
    /// `general_constraint_indicator_flags`.
    pub general_constraint_indicator_flags: u64,
    /// `general_level_idc`.
    pub general_level_idc: u8,
    /// `min_spatial_segmentation_idc`.
    pub min_spatial_segmentation_idc: u16,
    /// `parallelismType`.
    pub parallelism_type: u8,
    /// `chroma_format_idc`.
    pub chroma_format_idc: u8,
    /// `bit_depth_luma_minus8`.
    pub bit_depth_luma_minus8: u8,
    /// `bit_depth_chroma_minus8`.
    pub bit_depth_chroma_minus8: u8,
    /// `avgFrameRate`.
    pub avg_frame_rate: u16,
    /// `constantFrameRate`.
    pub constant_frame_rate: u8,
    /// `numTemporalLayers`.
    pub num_temporal_layers: u8,
    /// `temporalIdNested`.
    pub temporal_id_nested: bool,
    /// `lengthSizeMinusOne + 1`.
    pub length_size: u8,
    /// The NAL arrays.
    pub arrays: Seq<NalArrayModel>,
    /// The record bytes.
    pub raw: Seq<u8>,
}

impl View for HevcConfig {
    type V = HevcModel;

    open spec fn view(&self) -> HevcModel {
        HevcModel {
            configuration_version: self.configuration_version,
            general_profile_space: self.general_profile_space,
            general_tier_flag: self.general_tier_flag,
            general_profile_idc: self.general_profile_idc,
            general_profile_compatibility_flags: self.general_profile_compatibility_flags,
            general_constraint_indicator_flags: self.general_constraint_indicator_flags,
            general_level_idc: self.general_level_idc,
            min_spatial_segmentation_idc: self.min_spatial_segmentation_idc,
            parallelism_type: self.parallelism_type,
            chroma_format_idc: self.chroma_format_idc,
            bit_depth_luma_minus8: self.bit_depth_luma_minus8,
            bit_depth_chroma_minus8: self.bit_depth_chroma_minus8,
            avg_frame_rate: self.avg_frame_rate,
            constant_frame_rate: self.constant_frame_rate,
            num_temporal_layers: self.num_temporal_layers,
            temporal_id_nested: self.temporal_id_nested,
            length_size: self.length_size,
            arrays: self.arrays.deep_view(),
            raw: self.raw@,
        }
    }
}

impl DeepView for HevcConfig {
    type V = HevcModel;

    open spec fn deep_view(&self) -> HevcModel {
        self@
    }
}

impl Clone for HevcConfig {
    fn clone(&self) -> (r: Self)
        ensures
            r@ == self@,
    {
        HevcConfig {
            configuration_version: self.configuration_version,
            general_profile_space: self.general_profile_space,
            general_tier_flag: self.general_tier_flag,
            general_profile_idc: self.general_profile_idc,
            general_profile_compatibility_flags: self.general_profile_compatibility_flags,
            general_constraint_indicator_flags: self.general_constraint_indicator_flags,
            general_level_idc: self.general_level_idc,
            min_spatial_segmentation_idc: self.min_spatial_segmentation_idc,
            parallelism_type: self.parallelism_type,
            chroma_format_idc: self.chroma_format_idc,
            bit_depth_luma_minus8: self.bit_depth_luma_minus8,
            bit_depth_chroma_minus8: self.bit_depth_chroma_minus8,
            avg_frame_rate: self.avg_frame_rate,
            constant_frame_rate: self.constant_frame_rate,
            num_temporal_layers: self.num_temporal_layers,
            temporal_id_nested: self.temporal_id_nested,
            length_size: self.length_size,
            arrays: clone_arrays(&self.arrays),
            raw: copy_of(self.raw.as_slice()),
        }
    }
}

/// `n` NAL units with 16-bit lengths from `p` on, after those in `acc`, and the
/// offset behind them.
pub open spec fn nal_list_at(b: Seq<u8>, p: int, n: int, acc: Seq<Seq<u8>>) -> core::result::Result<
    (Seq<Seq<u8>>, int),
    ErrorKind,
>
    decreases n,
{
    if n <= 0 {
        Ok((acc, p))
    } else if p + 2 > b.len() || p + 2 + be16(b, p) > b.len() {
        Err(ErrorKind::Invalid)
    } else {
        let end = p + 2 + be16(b, p);
        nal_list_at(b, end, n - 1, acc.push(b.subrange(p + 2, end)))
    }
}

/// The NAL array at `p` and the offset behind it.
pub open spec fn nal_array_at(b: Seq<u8>, p: int) -> core::result::Result<
    (NalArrayModel, int),
    ErrorKind,
> {
    if p + 3 > b.len() {
        Err(ErrorKind::Invalid)
    } else {
        match nal_list_at(b, p + 3, be16(b, p + 1) as int, Seq::empty()) {
            Err(e) => Err(e),
            Ok((units, end)) => Ok(
                (
                    NalArrayModel {
                        complete: b[p] / 128 == 1,
                        reserved_bit: b[p] / 64 % 2 == 1,
                        nal_unit_type: (b[p] % 64) as u8,
                        nal_units: units,
                    },
                    end,
                ),
            ),
        }
    }
}

/// `n` NAL arrays from `p` on, after those in `acc`, and the offset behind
/// them.
pub open spec fn nal_arrays_at(
    b: Seq<u8>,
    p: int,
    n: int,
    acc: Seq<NalArrayModel>,
) -> core::result::Result<(Seq<NalArrayModel>, int), ErrorKind>
    decreases n,
{
    if n <= 0 {
        Ok((acc, p))
    } else {
        match nal_array_at(b, p) {
            Err(e) => Err(e),
            Ok((a, end)) => nal_arrays_at(b, end, n - 1, acc.push(a)),
        }
    }
}

/// The NAL units with 16-bit lengths.
pub open spec fn nal_list_bytes(units: Seq<Seq<u8>>) -> Seq<u8>
    decreases units.len(),
{
    if units.len() == 0 {
        Seq::empty()
    } else {
        enc16((units[0].len() % 0x1_0000) as u16) + units[0] + nal_list_bytes(units.drop_first())
    }
}

/// One bit as an integer.
pub open spec fn bit(b: bool) -> int {
    if b {
        1
    } else {
        0
    }
}

/// The type byte of a NAL array.
pub open spec fn array_type_byte(a: NalArrayModel) -> u8 {
    (bit(a.complete) * 128 + bit(a.reserved_bit) * 64 + a.nal_unit_type % 64) as u8
}

/// One NAL array: its type byte, its count and its units.
pub open spec fn nal_array_bytes(a: NalArrayModel) -> Seq<u8> {
    seq![array_type_byte(a)] + enc16(
        (a.nal_units.len() % 0x1_0000) as u16,
    ) + nal_list_bytes(a.nal_units)
}

/// The NAL arrays one after the other.
pub open spec fn nal_arrays_bytes(arrays: Seq<NalArrayModel>) -> Seq<u8>
    decreases arrays.len(),
{
    if arrays.len() == 0 {
        Seq::empty()
    } else {
        nal_array_bytes(arrays[0]) + nal_arrays_bytes(arrays.drop_first())
    }
}

impl NalArrayModel {
    /// Whether the type, the count and the lengths fit their fields.
    pub open spec fn fits(self) -> bool {
        &&& self.nal_unit_type < 64
        &&& self.nal_units.len() < 0x1_0000
        &&& forall|j: int|
            0 <= j < self.nal_units.len() ==> (#[trigger] self.nal_units[j]).len() < 0x1_0000
    }
}

/// Whether the counts and lengths of the arrays fit their fields.
pub open spec fn arrays_fit(arrays: Seq<NalArrayModel>) -> bool {
    &&& arrays.len() < 0x100
    &&& forall|i: int| 0 <= i < arrays.len() ==> (#[trigger] arrays[i]).fits()
}

/// The record `b` holds.
pub open spec fn hevc_config_of(b: Seq<u8>) -> core::result::Result<HevcModel, ErrorKind> {
    if b.len() < 23 || b[0] != 1 {
        Err(ErrorKind::Invalid)
    } else {
        match nal_arrays_at(b, 23, b[22] as int, Seq::empty()) {
            Err(e) => Err(e),
            Ok((arrays, _)) => Ok(
                HevcModel {
                    configuration_version: 1,
                    general_profile_space: b[1] / 64,
                    general_tier_flag: b[1] / 32 % 2 == 1,
                    general_profile_idc: (b[1] % 32) as u8,
                    general_profile_compatibility_flags: be32(b, 2),
                    general_constraint_indicator_flags: (be16(b, 6) * 0x1_0000_0000 + be32(
                        b,
                        8,
                    )) as u64,
                    general_level_idc: b[12],
                    min_spatial_segmentation_idc: (be16(b, 13) % 0x1000) as u16,
                    parallelism_type: (b[15] % 4) as u8,
                    chroma_format_idc: (b[16] % 4) as u8,
                    bit_depth_luma_minus8: (b[17] % 8) as u8,
                    bit_depth_chroma_minus8: (b[18] % 8) as u8,
                    avg_frame_rate: be16(b, 19),
                    constant_frame_rate: b[21] / 64,
                    num_temporal_layers: (b[21] / 8 % 8) as u8,
                    temporal_id_nested: b[21] / 4 % 2 == 1,
                    length_size: (b[21] % 4 + 1) as u8,
                    arrays,
                    raw: b,
                },
            ),
        }
    }
}

impl HevcModel {
    /// The fixed head of the record of these fields.
    #[verifier::opaque]
    pub open spec fn head(self) -> Seq<u8> {
        (((Seq::<u8>::empty().push(1u8).push(
            (self.general_profile_space % 4 * 64 + bit(self.general_tier_flag) * 32
                + self.general_profile_idc % 32) as u8,
        ) + enc32(self.general_profile_compatibility_flags) + enc16(
            (self.general_constraint_indicator_flags / 0x1_0000_0000 % 0x1_0000) as u16,
        ) + enc32((self.general_constraint_indicator_flags % 0x1_0000_0000) as u32)).push(
            self.general_level_idc,
        ) + enc16((0xf000 + self.min_spatial_segmentation_idc % 0x1000) as u16)).push(
            (0xfc + self.parallelism_type % 4) as u8,
        ).push((0xfc + self.chroma_format_idc % 4) as u8).push(
            (0xf8 + self.bit_depth_luma_minus8 % 8) as u8,
        ).push((0xf8 + self.bit_depth_chroma_minus8 % 8) as u8) + enc16(self.avg_frame_rate)).push(
            (self.constant_frame_rate % 4 * 64 + self.num_temporal_layers % 8 * 8 + bit(
                self.temporal_id_nested,
            ) * 4 + length_code(self.length_size)) as u8,
        ).push((self.arrays.len() % 0x100) as u8)
    }

    /// The record of these fields.
    pub open spec fn bytes(self) -> Seq<u8> {
        self.head() + nal_arrays_bytes(self.arrays)
    }

    /// Whether every field fits its bits.
    pub open spec fn fits(self) -> bool {
        &&& self.configuration_version == 1
        &&& self.general_profile_space < 4
        &&& self.general_profile_idc < 32
        &&& self.general_constraint_indicator_flags < 0x1_0000_0000_0000
        &&& self.min_spatial_segmentation_idc < 0x1000
        &&& self.parallelism_type < 4
        &&& self.chroma_format_idc < 4
        &&& self.bit_depth_luma_minus8 < 8
        &&& self.bit_depth_chroma_minus8 < 8
        &&& self.constant_frame_rate < 4
        &&& self.num_temporal_layers < 8
        &&& 1 <= self.length_size <= 4
        &&& arrays_fit(self.arrays)
    }

    /// The NAL units of arrays of type `t`, in record order.
    pub open spec fn units_of_type(self, t: u8) -> Seq<Seq<u8>> {
        units_of(self.arrays, t)
    }
}

/// `lengthSizeMinusOne` of a length size.
pub open spec fn length_code(length_size: u8) -> int {
    if length_size == 0 {
        0
    } else {
        (length_size - 1) % 4
    }
}

/// The NAL units of arrays of type `t`, in order.
pub open spec fn units_of(arrays: Seq<NalArrayModel>, t: u8) -> Seq<Seq<u8>>
    decreases arrays.len(),
{
    if arrays.len() == 0 {
        Seq::empty()
    } else {
        let before = units_of(arrays.drop_last(), t);
        if arrays.last().nal_unit_type == t {
            before + arrays.last().nal_units
        } else {
            before
        }
    }
}

/// Number of NAL units across the arrays.
pub open spec fn unit_count(arrays: Seq<NalArrayModel>) -> int
    decreases arrays.len(),
{
    if arrays.len() == 0 {
        0
    } else {
        unit_count(arrays.drop_last()) + arrays.last().nal_units.len()
    }
}

/// Reads `n` NAL units with 16-bit lengths.
pub(crate) fn read_nal_list(r: &mut Reader, n: usize) -> (res: Result<Vec<Vec<u8>>>)
    requires
        old(r).wf(),
    ensures
        final(r).wf(),
        final(r).data() == old(r).data(),
        match res {
            Ok(v) => nal_list_at(old(r).data(), old(r).at(), n as int, Seq::empty()) == Ok::<
                (Seq<Seq<u8>>, int),
                ErrorKind,
            >((lists(v@), final(r).at())),
            Err(e) => nal_list_at(old(r).data(), old(r).at(), n as int, Seq::empty()) == Err::<
                (Seq<Seq<u8>>, int),
                ErrorKind,
            >(e.kind()),
        },
{
    let ghost b = r.data();
    let ghost goal = nal_list_at(b, r.at(), n as int, Seq::empty());
    let mut units: Vec<Vec<u8>> = Vec::new();
    let mut i: usize = 0;
    proof {
        assert(lists(units@) =~= Seq::empty());
    }
    while i < n
        invariant
            i <= n,
            r.wf(),
            r.data() == b,
            b == old(r).data(),
            goal == nal_list_at(b, old(r).at(), n as int, Seq::empty()),
            goal == nal_list_at(b, r.at(), n - i, lists(units@)),
        decreases n - i,
    {
        let len: u16 = r.u16("nalUnitLength")?;
        let unit: &[u8] = r.bytes(len as usize, "nalUnit")?;
        let ghost before = lists(units@);
        units.push(copy_of(unit));
        proof {
            assert(lists(units@) =~= before.push(unit@));
        }
        i = i + 1;
    }
    Ok(units)
}

/// Reads `n` NAL arrays.
pub(crate) fn read_nal_arrays(r: &mut Reader, n: usize) -> (res: Result<Vec<NalArray>>)
    requires
        old(r).wf(),
    ensures
        final(r).wf(),
        final(r).data() == old(r).data(),
        match res {
            Ok(v) => nal_arrays_at(old(r).data(), old(r).at(), n as int, Seq::empty()) == Ok::<
                (Seq<NalArrayModel>, int),
                ErrorKind,
            >((v.deep_view(), final(r).at())),
            Err(e) => nal_arrays_at(old(r).data(), old(r).at(), n as int, Seq::empty()) == Err::<
                (Seq<NalArrayModel>, int),
                ErrorKind,
            >(e.kind()),
        },
{
    let ghost b = r.data();
    let ghost goal = nal_arrays_at(b, r.at(), n as int, Seq::empty());
    let mut arrays: Vec<NalArray> = Vec::new();
    let mut k: usize = 0;
    proof {
        assert(arrays.deep_view() =~= Seq::empty());
    }
    while k < n
        invariant
            k <= n,
            r.wf(),
            r.data() == b,
            b == old(r).data(),
            goal == nal_arrays_at(b, old(r).at(), n as int, Seq::empty()),
            goal == nal_arrays_at(b, r.at(), n - k, arrays.deep_view()),
        decreases n - k,
    {
        let t: u8 = r.u8("array type")?;
        let count: u16 = r.u16("numNalus")?;
        let nal_units: Vec<Vec<u8>> = read_nal_list(r, count as usize)?;
        let ghost before = arrays.deep_view();
        let a: NalArray = NalArray {
            complete: t / 128 == 1,
            reserved_bit: t / 64 % 2 == 1,
            nal_unit_type: t % 64,
            nal_units,
        };
        arrays.push(a);
        proof {
            assert(arrays.deep_view() =~= before.push(a@));
        }
        k = k + 1;
    }
    Ok(arrays)
}

/// Appends the first `n` NAL units with 16-bit lengths.
pub(crate) fn put_nal_list(out: &mut Vec<u8>, list: &Vec<Vec<u8>>, n: usize)
    requires
        n <= list@.len(),
    ensures
        final(out)@ == old(out)@ + nal_list_bytes(lists(list@).take(n as int)),
{
    let ghost head = out@;
    let ghost units = lists(list@).take(n as int);
    proof {
        assert(units.skip(0) =~= units);
    }
    for i in 0..n
        invariant
            n <= list@.len(),
            units == lists(list@).take(n as int),
            out@ + nal_list_bytes(units.skip(i as int)) =~= head + nal_list_bytes(units),
    {
        proof {
            assert(units.skip(i as int)[0] == list@[i as int]@);
            assert(units.skip(i as int).drop_first() =~= units.skip(i as int + 1));
        }
        put16(out, (list[i].len() % 0x1_0000) as u16);
        put(out, list[i].as_slice());
    }
    proof {
        assert(nal_list_bytes(units.skip(units.len() as int)) =~= Seq::empty());
        assert(out@ =~= head + nal_list_bytes(units));
    }
}

/// Appends the type byte of a NAL array.
pub(crate) fn put_array_type(out: &mut Vec<u8>, a: &NalArray)
    ensures
        final(out)@ == old(out)@.push(array_type_byte(a@)),
{
    let c: u8 = if a.complete {
        128
    } else {
        0
    };
    let s: u8 = if a.reserved_bit {
        64
    } else {
        0
    };
    out.push(c + s + a.nal_unit_type % 64);
}

/// Appends NAL arrays.
pub(crate) fn put_nal_arrays(out: &mut Vec<u8>, arrays: &Vec<NalArray>)
    ensures
        final(out)@ == old(out)@ + nal_arrays_bytes(arrays.deep_view()),
{
    let ghost all = arrays.deep_view();
    let ghost start = out@;
    proof {
        assert(all.skip(0) =~= all);
    }
    for k in 0..arrays.len()
        invariant
            all == arrays.deep_view(),
            out@ + nal_arrays_bytes(all.skip(k as int)) =~= start + nal_arrays_bytes(all),
    {
        let a: &NalArray = &arrays[k];
        let ghost m = a@;
        let ghost here = out@;
        proof {
            assert(all.skip(k as int)[0] == m);
            assert(all.skip(k as int).drop_first() =~= all.skip(k as int + 1));
        }
        put_array_type(out, a);
        put16(out, (a.nal_units.len() % 0x1_0000) as u16);
        put_nal_list(out, &a.nal_units, a.nal_units.len());
        proof {
            assert(m.nal_units.take(m.nal_units.len() as int) =~= m.nal_units);
            assert(out@ =~= here + nal_array_bytes(m));
        }
    }
    proof {
        assert(nal_arrays_bytes(all.skip(all.len() as int)) =~= Seq::empty());
        assert(out@ =~= start + nal_arrays_bytes(all));
    }
}

impl HevcConfig {
    /// Parse a record.
    pub fn parse(b: &[u8]) -> (res: Result<Self>)
        ensures
            outcome(res) == hevc_config_of(b@),
    {
        let mut r: Reader = Reader::new(b);
        let configuration_version: u8 = r.u8("hvcC configurationVersion")?;
        if configuration_version != 1 {
            let v: String = decimal(configuration_version as u64);
            return Err(
                HeifError::invalid(
                    concat(&["hvcC configurationVersion ", v.as_str(), " (expected 1)"]),
                ),
            );
        }
        let b1: u8 = r.u8("hvcC profile byte")?;
        let general_profile_compatibility_flags: u32 = r.u32(
            "hvcC general_profile_compatibility_flags",
        )?;
        let hi: u16 = r.u16("hvcC general_constraint_indicator_flags")?;
        let lo: u32 = r.u32("hvcC general_constraint_indicator_flags")?;
        let general_level_idc: u8 = r.u8("hvcC general_level_idc")?;
        let seg: u16 = r.u16("hvcC min_spatial_segmentation_idc")?;
        let par: u8 = r.u8("hvcC parallelismType")?;
        let chroma: u8 = r.u8("hvcC chroma_format_idc")?;
        let luma_depth: u8 = r.u8("hvcC bit_depth_luma_minus8")?;
        let chroma_depth: u8 = r.u8("hvcC bit_depth_chroma_minus8")?;
        let avg_frame_rate: u16 = r.u16("hvcC avgFrameRate")?;
        let b21: u8 = r.u8("hvcC lengthSizeMinusOne")?;
        let num_arrays: u8 = r.u8("hvcC numOfArrays")?;
        let arrays: Vec<NalArray> = read_nal_arrays(&mut r, num_arrays as usize)?;
        Ok(
            Self {
                configuration_version,
                general_profile_space: b1 / 64,
                general_tier_flag: b1 / 32 % 2 == 1,
                general_profile_idc: b1 % 32,
                general_profile_compatibility_flags,
                general_constraint_indicator_flags: hi as u64 * 0x1_0000_0000 + lo as u64,
                general_level_idc,
                min_spatial_segmentation_idc: seg % 0x1000,
                parallelism_type: par % 4,
                chroma_format_idc: chroma % 4,
                bit_depth_luma_minus8: luma_depth % 8,
                bit_depth_chroma_minus8: chroma_depth % 8,
                avg_frame_rate,
                constant_frame_rate: b21 / 64,
                num_temporal_layers: b21 / 8 % 8,
                temporal_id_nested: b21 / 4 % 2 == 1,
                length_size: b21 % 4 + 1,
                arrays,
                raw: copy_of(b),
            },
        )
    }

    /// Luma bit depth.
    pub fn bit_depth_luma(&self) -> (r: u8)
        requires
            self.bit_depth_luma_minus8 <= 247,
        ensures
            r == self.bit_depth_luma_minus8 + 8,
    {
        self.bit_depth_luma_minus8 + 8
    }

    /// Chroma bit depth.
    pub fn bit_depth_chroma(&self) -> (r: u8)
        requires
            self.bit_depth_chroma_minus8 <= 247,
        ensures
            r == self.bit_depth_chroma_minus8 + 8,
    {
        self.bit_depth_chroma_minus8 + 8
    }

    /// Total number of NAL units across the arrays.
    pub fn nal_count(&self) -> (r: usize)
        requires
            unit_count(self@.arrays) <= usize::MAX,
        ensures
            r == unit_count(self@.arrays),
    {
        let ghost all = self@.arrays;
        let mut n: usize = 0;
        proof {
            assert(all.take(0) =~= Seq::empty());
        }
        for i in 0..self.arrays.len()
            invariant
                all == self@.arrays,
                unit_count(all) <= usize::MAX,
                n == unit_count(all.take(i as int)),
        {
            proof {
                assert(all.take(i + 1).drop_last() =~= all.take(i as int));
                lemma_unit_count_grows(all, i + 1);
            }
            n = n + self.arrays[i].nal_units.len();
        }
        proof {
            assert(all.take(all.len() as int) =~= all);
        }
        n
    }

    /// NAL units of the given type, in record order.
    pub fn nal_units_of_type(&self, nal_unit_type: u8) -> (r: Vec<&[u8]>)
        ensures
            views(r@) == self@.units_of_type(nal_unit_type),
    {
        let ghost all = self@.arrays;
        let mut out: Vec<&[u8]> = Vec::new();
        proof {
            assert(all.take(0) =~= Seq::empty());
            assert(views(out@) =~= Seq::empty());
        }
        for i in 0..self.arrays.len()
            invariant
                all == self@.arrays,
                views(out@) == units_of(all.take(i as int), nal_unit_type),
        {
            proof {
                assert(all.take(i + 1).drop_last() =~= all.take(i as int));
            }
            let a: &NalArray = &self.arrays[i];
            if a.nal_unit_type == nal_unit_type {
                let ghost before = views(out@);
                let ghost units = a@.nal_units;
                for j in 0..a.nal_units.len()
                    invariant
                        units == lists(a.nal_units@),
                        views(out@) =~= before + units.take(j as int),
                {
                    let ghost prior = views(out@);
                    out.push(a.nal_units[j].as_slice());
                    proof {
                        assert(views(out@) =~= prior.push(units[j as int]));
                    }
                }
                proof {
                    assert(units.take(units.len() as int) =~= units);
                }
            }
        }
        proof {
            assert(all.take(all.len() as int) =~= all);
        }
        out
    }

    /// `true` when `general_profile_idc` or the compatibility flags
    /// declare `profile_idc`.
    pub fn declares_profile(&self, profile_idc: u8) -> (r: bool)
        ensures
            r == (self.general_profile_idc == profile_idc || (profile_idc < 32
                && self.general_profile_compatibility_flags & (1u32 << ((31 - profile_idc) as u32))
                != 0)),
    {
        self.general_profile_idc == profile_idc || (profile_idc < 32
            && self.general_profile_compatibility_flags & (1u32 << ((31 - profile_idc) as u32)) != 0)
    }

    /// Serialize the record. When the record bytes were kept they are returned
    /// unchanged.
    pub fn to_bytes(&self) -> (v: Vec<u8>)
        ensures
            v@ == (if self.raw@.len() > 0 {
                self.raw@
            } else {
                self@.bytes()
            }),
    {
        if self.raw.len() > 0 {
            return copy_of(self.raw.as_slice());
        }
        self.serialize()
    }

    /// Serialize the record from its fields (ignoring `raw`).
    pub fn serialize(&self) -> (v: Vec<u8>)
        ensures
            v@ == self@.bytes(),
    {
        let mut b: Vec<u8> = Vec::new();
        b.push(1);
        let tier: u8 = if self.general_tier_flag {
            32
        } else {
            0
        };
        b.push(self.general_profile_space % 4 * 64 + tier + self.general_profile_idc % 32);
        put32(&mut b, self.general_profile_compatibility_flags);
        put16(
            &mut b,
            (self.general_constraint_indicator_flags / 0x1_0000_0000 % 0x1_0000) as u16,
        );
        put32(&mut b, (self.general_constraint_indicator_flags % 0x1_0000_0000) as u32);
        b.push(self.general_level_idc);
        put16(&mut b, 0xf000 + self.min_spatial_segmentation_idc % 0x1000);
        b.push(0xfc + self.parallelism_type % 4);
        b.push(0xfc + self.chroma_format_idc % 4);
        b.push(0xf8 + self.bit_depth_luma_minus8 % 8);
        b.push(0xf8 + self.bit_depth_chroma_minus8 % 8);
        put16(&mut b, self.avg_frame_rate);
        let nested: u8 = if self.temporal_id_nested {
            4
        } else {
            0
        };
        let code: u8 = if self.length_size == 0 {
            0
        } else {
            (self.length_size - 1) % 4
        };
        b.push(self.constant_frame_rate % 4 * 64 + self.num_temporal_layers % 8 * 8 + nested + code);
        b.push((self.arrays.len() % 0x100) as u8);
        proof {
            reveal(HevcModel::head);
        }
        put_nal_arrays(&mut b, &self.arrays);
        b
    }

    /// Human-readable chroma format (`mono`, `yuv420`, `yuv422`, `yuv444`).
    pub fn chroma_name(&self) -> (s: &'static str)
        ensures
            s@ == chroma_text(self.chroma_format_idc),
    {
        match self.chroma_format_idc {
            0 => "mono",
            1 => "yuv420",
            2 => "yuv422",
            _ => "yuv444",
        }
    }
}

/// The name of a chroma format.
pub open spec fn chroma_text(idc: u8) -> Seq<char> {
    if idc == 0 {
        "mono"@
    } else if idc == 1 {
        "yuv420"@
    } else if idc == 2 {
        "yuv422"@
    } else {
        "yuv444"@
    }
}

proof fn lemma_unit_count_grows(arrays: Seq<NalArrayModel>, i: int)
    requires
        0 <= i <= arrays.len(),
    ensures
        unit_count(arrays.take(i)) <= unit_count(arrays),
    decreases arrays.len(),
{
    if i < arrays.len() {
        lemma_unit_count_grows(arrays.drop_last(), i);
        assert(arrays.drop_last().take(i) =~= arrays.take(i));
    } else {
        assert(arrays.take(i) =~= arrays);
    }
}

/// The `k`-byte big-endian length at `p`.
pub open spec fn length_at(data: Seq<u8>, p: int, k: int) -> int {
    if k == 3 {
        be24(data, p) as int
    } else {
        uint_at(data, p, k) as int
    }
}

/// The units of a length-prefixed stream from `p` on, after those in `acc`.
pub open spec fn split_from(data: Seq<u8>, p: int, k: int, acc: Seq<Seq<u8>>) -> core::result::Result<
    Seq<Seq<u8>>,
    ErrorKind,
>
    decreases data.len() - p,
{
    if p >= data.len() {
        Ok(acc)
    } else if !(1 <= k <= 4) || p + k > data.len() {
        Err(ErrorKind::Invalid)
    } else {
        let end = p + k + length_at(data, p, k);
        if end == p + k || end > data.len() {
            Err(ErrorKind::Invalid)
        } else {
            split_from(data, end, k, acc.push(data.subrange(p + k, end)))
        }
    }
}

/// Split an `HEVCItemData` / sample payload into its NAL units
/// (`length_size`-byte big-endian length prefixes, HEIF Annex B.2.2.2).
pub fn split_length_prefixed(data: &[u8], length_size: u8) -> (res: Result<Vec<&[u8]>>)
    ensures
        match res {
            Ok(v) => 1 <= length_size <= 4 && split_from(
                data@,
                0,
                length_size as int,
                Seq::empty(),
            ) == Ok::<Seq<Seq<u8>>, ErrorKind>(views(v@)),
            Err(e) => e.kind() == ErrorKind::Invalid && (!(1 <= length_size <= 4) || split_from(
                data@,
                0,
                length_size as int,
                Seq::empty(),
            ) is Err),
        },
{
    if !(1 <= length_size && length_size <= 4) {
        let n: String = decimal(length_size as u64);
        return Err(
            HeifError::invalid(
                concat(&["NAL length prefix size ", n.as_str(), " (expected 1..=4)"]),
            ),
        );
    }
    let ghost goal = split_from(data@, 0, length_size as int, Seq::empty());
    let mut out: Vec<&[u8]> = Vec::new();
    let mut r: Reader = Reader::new(data);
    proof {
        assert(views(out@) =~= Seq::empty());
    }
    while !r.is_empty()
        invariant
            1 <= length_size <= 4,
            r.wf(),
            r.data() == data@,
            goal == split_from(data@, 0, length_size as int, Seq::empty()),
            goal == split_from(data@, r.at(), length_size as int, views(out@)),
        decreases data@.len() - r.at(),
    {
        let len: u64 = if length_size == 3 {
            r.u24("NALUnitLength")? as u64
        } else {
            r.uint(length_size as usize, "NALUnitLength")?
        };
        if len == 0 {
            return Err(HeifError::invalid("zero-length NAL unit"));
        }
        let unit: &[u8] = r.bytes(len as usize, "NALUnit")?;
        let ghost before = views(out@);
        out.push(unit);
        proof {
            assert(views(out@) =~= before.push(unit@));
        }
    }
    Ok(out)
}

/// The `k`-byte big-endian prefix of a unit of `len` bytes.
pub open spec fn length_prefix(len: nat, k: int) -> Seq<u8> {
    if k == 1 {
        seq![(len % 0x100) as u8]
    } else if k == 2 {
        enc16((len % 0x1_0000) as u16)
    } else if k == 3 {
        enc24((len % 0x100_0000) as u32)
    } else {
        enc32((len % 0x1_0000_0000) as u32)
    }
}

/// One past the largest length a `k`-byte prefix can hold.
pub open spec fn prefix_limit(k: int) -> nat {
    if k == 1 {
        0x100
    } else if k == 2 {
        0x1_0000
    } else if k == 3 {
        0x100_0000
    } else {
        0x1_0000_0000
    }
}

/// Whether every unit fits a `k`-byte prefix.
pub open spec fn units_fit(units: Seq<Seq<u8>>, k: int) -> bool {
    forall|i: int| 0 <= i < units.len() ==> (#[trigger] units[i]).len() < prefix_limit(k)
}

/// The units, each after its prefix.
pub open spec fn joined(units: Seq<Seq<u8>>, k: int) -> Seq<u8>
    decreases units.len(),
{
    if units.len() == 0 {
        Seq::empty()
    } else {
        length_prefix(units[0].len(), k) + units[0] + joined(units.drop_first(), k)
    }
}

fn put_prefix(out: &mut Vec<u8>, len: usize, k: u8)
    requires
        1 <= k <= 4,
        len < prefix_limit(k as int),
    ensures
        final(out)@ == old(out)@ + length_prefix(len as nat, k as int),
{
    if k == 1 {
        out.push(len as u8);
    } else if k == 2 {
        put16(out, len as u16);
    } else if k == 3 {
        put24(out, len as u32);
    } else {
        put32(out, len as u32);
    }
    proof {
        assert(out@ =~= old(out)@ + length_prefix(len as nat, k as int));
    }
}

/// Re-frame NAL units with `length_size`-byte length prefixes.
pub fn join_length_prefixed(nal_units: &[&[u8]], length_size: u8) -> (res: Result<Vec<u8>>)
    ensures
        match res {
            Ok(v) => 1 <= length_size <= 4 && units_fit(views(nal_units@), length_size as int)
                && v@ == joined(views(nal_units@), length_size as int),
            Err(e) => e.kind() == ErrorKind::Invalid && !(1 <= length_size <= 4 && units_fit(
                views(nal_units@),
                length_size as int,
            )),
        },
{
    if !(1 <= length_size && length_size <= 4) {
        let n: String = decimal(length_size as u64);
        return Err(
            HeifError::invalid(
                concat(&["NAL length prefix size ", n.as_str(), " (expected 1..=4)"]),
            ),
        );
    }
    let limit: u64 = if length_size == 1 {
        0x100
    } else if length_size == 2 {
        0x1_0000
    } else if length_size == 3 {
        0x100_0000
    } else {
        0x1_0000_0000
    };
    let ghost all = views(nal_units@);
    let mut out: Vec<u8> = Vec::new();
    proof {
        assert(all.skip(0) =~= all);
    }
    for i in 0..nal_units.len()
        invariant
            1 <= length_size <= 4,
            limit == prefix_limit(length_size as int),
            all == views(nal_units@),
            forall|j: int| 0 <= j < i ==> (#[trigger] all[j]).len() < limit,
            out@ + joined(all.skip(i as int), length_size as int) =~= joined(
                all,
                length_size as int,
            ),
    {
        let n: &[u8] = nal_units[i];
        proof {
            assert(all[i as int] == n@);
            assert(all.skip(i as int)[0] == n@);
            assert(all.skip(i as int).drop_first() =~= all.skip(i as int + 1));
        }
        if n.len() as u64 >= limit {
            let len: String = decimal(n.len() as u64);
            let k: String = decimal(length_size as u64);
            return Err(
                HeifError::invalid(
                    concat(
                        &[
                            "NAL unit of ",
                            len.as_str(),
                            " bytes does not fit a ",
                            k.as_str(),
                            "-byte length prefix",
                        ],
                    ),
                ),
            );
        }
        put_prefix(&mut out, n.len(), length_size);
        put(&mut out, n);
    }
    proof {
        assert(joined(all.skip(all.len() as int), length_size as int) =~= Seq::empty());
        assert(out@ =~= joined(all, length_size as int));
    }
    Ok(out)
}

/// Offset of the first `00 00 01` at or after `from`.
pub open spec fn start_code_at(s: Seq<u8>, from: int) -> Option<int>
    decreases s.len() - from,
{
    if from + 3 > s.len() {
        None
    } else if s[from] == 0 && s[from + 1] == 0 && s[from + 2] == 1 {
        Some(from)
    } else {
        start_code_at(s, from + 1)
    }
}

/// `end` moved back over zero bytes, not before `start`.
pub open spec fn trimmed(s: Seq<u8>, start: int, end: int) -> int
    decreases end - start,
{
    if start < end && s[end - 1] == 0 {
        trimmed(s, start, end - 1)
    } else {
        end
    }
}

/// `acc` and the unit between `start` and `end` without its trailing zeros,
/// when anything is left of it.
pub open spec fn with_unit(s: Seq<u8>, start: int, end: int, acc: Seq<Seq<u8>>) -> Seq<Seq<u8>> {
    let e = trimmed(s, start, end);
    if e > start {
        acc.push(s.subrange(start, e))
    } else {
        acc
    }
}

/// The units of an Annex B stream whose first payload byte is at `p`, after
/// those in `acc`.
pub open spec fn annex_b_from(s: Seq<u8>, p: int, acc: Seq<Seq<u8>>) -> Seq<Seq<u8>>
    decreases s.len() - p,
{
    match start_code_at(s, p) {
        None => with_unit(s, p, s.len() as int, acc),
        Some(j) => if p <= j && j + 3 < s.len() {
            annex_b_from(s, j + 3, with_unit(s, p, j, acc))
        } else {
            with_unit(s, p, j, acc)
        },
    }
}

/// The units of an Annex B stream.
pub open spec fn annex_b_units(s: Seq<u8>) -> Seq<Seq<u8>> {
    match start_code_at(s, 0) {
        None => Seq::empty(),
        Some(j) => annex_b_from(s, j + 3, Seq::empty()),
    }
}

proof fn lemma_start_code(s: Seq<u8>, from: int)
    requires
        0 <= from,
    ensures
        start_code_at(s, from) matches Some(j) ==> from <= j && j + 3 <= s.len(),
    decreases s.len() - from,
{
    if from + 3 <= s.len() && !(s[from] == 0 && s[from + 1] == 0 && s[from + 2] == 1) {
        lemma_start_code(s, from + 1);
    }
}

fn find_start_code(s: &[u8], from: usize) -> (r: Option<usize>)
    requires
        from <= s@.len(),
    ensures
        match r {
            Some(j) => start_code_at(s@, from as int) == Some(j as int),
            None => start_code_at(s@, from as int) is None,
        },
{
    let mut j: usize = from;
    while s.len() - j >= 3
        invariant
            from <= j <= s@.len(),
            start_code_at(s@, from as int) == start_code_at(s@, j as int),
        decreases s@.len() - j,
    {
        if s[j] == 0 && s[j + 1] == 0 && s[j + 2] == 1 {
            return Some(j);
        }
        j = j + 1;
    }
    None
}

fn push_unit<'a>(out: &mut Vec<&'a [u8]>, s: &'a [u8], start: usize, end: usize)
    requires
        start <= end <= s@.len(),
    ensures
        views(final(out)@) == with_unit(s@, start as int, end as int, views(old(out)@)),
{
    let mut e: usize = end;
    while e > start && s[e - 1] == 0
        invariant
            start <= e <= end <= s@.len(),
            trimmed(s@, start as int, end as int) == trimmed(s@, start as int, e as int),
        decreases e,
    {
        e = e - 1;
    }
    if e > start {
        let unit: &'a [u8] = span(s, start, e);
        out.push(unit);
        proof {
            assert(views(out@) =~= views(old(out)@).push(unit@));
        }
    }
}

/// Split an Annex B byte stream (3- or 4-byte start codes) into NAL
/// units. Leading zero bytes and trailing zero padding are tolerated.
pub fn split_annex_b(stream: &[u8]) -> (r: Vec<&[u8]>)
    ensures
        views(r@) == annex_b_units(stream@),
{
    let mut out: Vec<&[u8]> = Vec::new();
    proof {
        assert(views(out@) =~= Seq::empty());
        assert(stream.len() == stream@.len());
        lemma_start_code(stream@, 0);
    }
    let mut p: usize = match find_start_code(stream, 0) {
        Some(j) => j + 3,
        None => {
            return out;
        },
    };
    loop
        invariant
            p <= stream@.len() <= usize::MAX,
            annex_b_units(stream@) == annex_b_from(stream@, p as int, views(out@)),
        decreases stream@.len() - p,
    {
        proof {
            lemma_start_code(stream@, p as int);
        }
        match find_start_code(stream, p) {
            Some(j) => {
                push_unit(&mut out, stream, p, j);
                p = j + 3;
                if p >= stream.len() {
                    return out;
                }
            },
            None => {
                push_unit(&mut out, stream, p, stream.len());
                return out;
            },
        }
    }
}

/// `nal_unit_type` of a coded NAL unit (from its two-byte header).
pub fn nal_unit_type(nal: &[u8]) -> (r: Option<u8>)
    ensures
        r == (if nal@.len() > 0 {
            Some((nal@[0] / 2 % 64) as u8)
        } else {
            None
        }),
{
    if nal.len() > 0 {
        Some(nal[0] / 2 % 64)
    } else {
        None
    }
}

/// The `nuh_layer_id` of a coded NAL unit, `None` when it is shorter than its
/// header.
pub open spec fn layer_id_of(nal: Seq<u8>) -> Option<u8> {
    if nal.len() < 2 {
        None
    } else {
        Some((nal[0] % 2 * 32 + nal[1] / 8) as u8)
    }
}

/// `nuh_layer_id` of a coded NAL unit.
pub fn nal_layer_id(nal: &[u8]) -> (r: Option<u8>)
    ensures
        r == layer_id_of(nal@),
{
    if nal.len() < 2 {
        return None;
    }
    Some(nal[0] % 2 * 32 + nal[1] / 8)
}

/// HEVC NAL unit type of the VPS.
pub const NAL_VPS: u8 = 32;

/// HEVC NAL unit type of the SPS.
pub const NAL_SPS: u8 = 33;

/// HEVC NAL unit type of the PPS.
pub const NAL_PPS: u8 = 34;

/// HEVC NAL unit type of a prefix SEI.
pub const NAL_PREFIX_SEI: u8 = 39;

/// HEVC NAL unit type of a suffix SEI.
pub const NAL_SUFFIX_SEI: u8 = 40;

/// Reading NAL units back gives the units that were written.
pub proof fn lemma_nal_list(a: Seq<u8>, units: Seq<Seq<u8>>, t: Seq<u8>, acc: Seq<Seq<u8>>)
    requires
        forall|j: int| 0 <= j < units.len() ==> (#[trigger] units[j]).len() < 0x1_0000,
    ensures
        nal_list_at(
            a + nal_list_bytes(units) + t,
            a.len() as int,
            units.len() as int,
            acc,
        ) == Ok::<(Seq<Seq<u8>>, int), ErrorKind>(
            (acc + units, (a.len() + nal_list_bytes(units).len()) as int),
        ),
    decreases units.len(),
{
    let s = a + nal_list_bytes(units) + t;
    if units.len() == 0 {
        assert(acc + units =~= acc);
    } else {
        let n = units[0].len();
        let rest = units.drop_first();
        let head = enc16(n as u16) + units[0];
        assert forall|j: int| 0 <= j < rest.len() implies (#[trigger] rest[j]).len() < 0x1_0000 by {
            assert(rest[j] == units[j + 1]);
        }
        lemma_nal_list(a + head, rest, t, acc.push(units[0]));
        assert(s =~= a + head + nal_list_bytes(rest) + t);
        crate::bytes::lemma_be16_enc16(a, n as u16, units[0] + nal_list_bytes(rest) + t);
        assert(s =~= a + enc16(n as u16) + (units[0] + nal_list_bytes(rest) + t));
        assert(s.subrange(a.len() as int + 2, a.len() as int + 2 + n) =~= units[0]);
        assert(acc.push(units[0]) + rest =~= acc + units);
    }
}

#[verifier::rlimit(90)]
#[verifier::spinoff_prover]
proof fn lemma_nal_array(a: Seq<u8>, m: NalArrayModel, t: Seq<u8>)
    requires
        m.fits(),
    ensures
        nal_array_at(a + nal_array_bytes(m) + t, a.len() as int) == Ok::<
            (NalArrayModel, int),
            ErrorKind,
        >((m, (a.len() + nal_array_bytes(m).len()) as int)),
{
    let tb = array_type_byte(m);
    let n = m.nal_units.len() as u16;
    let h = seq![tb] + enc16(n);
    let l = nal_list_bytes(m.nal_units);
    let s = a + nal_array_bytes(m) + t;
    assert(s == a + h + l + t) by {
        lemma_assoc(a, h, l);
    }
    lemma_nal_list(a + h, m.nal_units, t, Seq::empty());
    assert(s == a + seq![tb] + enc16(n) + (l + t)) by {
        lemma_assoc(a, seq![tb], enc16(n));
        lemma_assoc(a + h, l, t);
    }
    crate::bytes::lemma_be16_enc16(a + seq![tb], n, l + t);
    assert(s[a.len() as int] == tb);
    assert(Seq::<Seq<u8>>::empty() + m.nal_units =~= m.nal_units);
}

/// Reading NAL arrays back gives the arrays that were written.
pub proof fn lemma_nal_arrays(
    a: Seq<u8>,
    arrays: Seq<NalArrayModel>,
    t: Seq<u8>,
    acc: Seq<NalArrayModel>,
)
    requires
        arrays_fit(arrays),
    ensures
        nal_arrays_at(
            a + nal_arrays_bytes(arrays) + t,
            a.len() as int,
            arrays.len() as int,
            acc,
        ) == Ok::<(Seq<NalArrayModel>, int), ErrorKind>(
            (acc + arrays, (a.len() + nal_arrays_bytes(arrays).len()) as int),
        ),
    decreases arrays.len(),
{
    if arrays.len() == 0 {
        assert(acc + arrays =~= acc);
    } else {
        let m = arrays[0];
        let rest = arrays.drop_first();
        let mb = nal_array_bytes(m);
        let rb = nal_arrays_bytes(rest);
        lemma_nal_array(a, m, rb + t);
        lemma_nal_arrays(a + mb, rest, t, acc.push(m));
        assert(a + nal_arrays_bytes(arrays) + t == a + mb + (rb + t)) by {
            lemma_assoc(a, mb, rb);
            lemma_assoc(a + mb, rb, t);
        }
        lemma_assoc(a + mb, rb, t);
        assert(acc.push(m) + rest =~= acc + arrays);
    }
}

#[verifier::rlimit(100)]
#[verifier::spinoff_prover]
proof fn lemma_head(c: HevcModel)
    ensures
        c.head().len() == 23,
        c.head()[0] == 1,
        c.head()[1] == (c.general_profile_space % 4 * 64 + bit(c.general_tier_flag) * 32
            + c.general_profile_idc % 32),
        be32(c.head(), 2) == c.general_profile_compatibility_flags,
        be16(c.head(), 6) == c.general_constraint_indicator_flags / 0x1_0000_0000 % 0x1_0000,
        be32(c.head(), 8) == c.general_constraint_indicator_flags % 0x1_0000_0000,
        c.head()[12] == c.general_level_idc,
        be16(c.head(), 13) == 0xf000 + c.min_spatial_segmentation_idc % 0x1000,
        c.head()[15] == 0xfc + c.parallelism_type % 4,
        c.head()[16] == 0xfc + c.chroma_format_idc % 4,
        c.head()[17] == 0xf8 + c.bit_depth_luma_minus8 % 8,
        c.head()[18] == 0xf8 + c.bit_depth_chroma_minus8 % 8,
        be16(c.head(), 19) == c.avg_frame_rate,
        c.head()[21] == (c.constant_frame_rate % 4 * 64 + c.num_temporal_layers % 8 * 8 + bit(
            c.temporal_id_nested,
        ) * 4 + length_code(c.length_size)),
        c.head()[22] == c.arrays.len() % 0x100,
{
    reveal(HevcModel::head);
}

/// Parsing a serialized record whose fields fit their bits gives the record
/// back, with the bytes kept.
#[verifier::spinoff_prover]
#[verifier::rlimit(50)]
pub proof fn law_hevc_config_round_trip(c: HevcModel)
    requires
        c.fits(),
    ensures
        hevc_config_of(c.bytes()) == Ok::<HevcModel, ErrorKind>(HevcModel { raw: c.bytes(), ..c }),
{
    let b = c.bytes();
    let h = c.head();
    let t = nal_arrays_bytes(c.arrays);
    lemma_head(c);
    lemma_nal_arrays(h, c.arrays, Seq::empty(), Seq::empty());
    assert(h + t + Seq::<u8>::empty() =~= b);
    assert(Seq::<NalArrayModel>::empty() + c.arrays =~= c.arrays);
    lemma_same_head(b, h);
    lemma_profile_byte(
        h[1],
        c.general_profile_space,
        bit(c.general_tier_flag),
        c.general_profile_idc,
    );
    lemma_layers_byte(
        h[21],
        c.constant_frame_rate,
        c.num_temporal_layers,
        bit(c.temporal_id_nested),
        length_code(c.length_size),
    );
    let x = c.general_constraint_indicator_flags;
    assert(x / 0x1_0000_0000 % 0x1_0000 * 0x1_0000_0000 + x % 0x1_0000_0000 == x);
}

proof fn lemma_same_head(b: Seq<u8>, h: Seq<u8>)
    requires
        h.len() == 23,
        b.len() >= 23,
        forall|i: int| 0 <= i < 23 ==> b[i] == h[i],
    ensures
        be32(b, 2) == be32(h, 2),
        be16(b, 6) == be16(h, 6),
        be32(b, 8) == be32(h, 8),
        be16(b, 13) == be16(h, 13),
        be16(b, 19) == be16(h, 19),
{
}

proof fn lemma_profile_byte(x: u8, a: u8, b: int, c: u8)
    requires
        a < 4,
        0 <= b < 2,
        c < 32,
        x == a % 4 * 64 + b * 32 + c % 32,
    ensures
        x / 64 == a,
        x / 32 % 2 == b,
        x % 32 == c,
{
}

proof fn lemma_layers_byte(x: u8, a: u8, b: u8, c: int, d: int)
    requires
        a < 4,
        b < 8,
        0 <= c < 2,
        0 <= d < 4,
        x == a % 4 * 64 + b % 8 * 8 + c * 4 + d,
    ensures
        x / 64 == a,
        x / 8 % 8 == b,
        x / 4 % 2 == c,
        x % 4 == d,
{
}

/// Splitting joined NAL units gives the units back, for prefixes of one to four
/// bytes and units that are not empty.
#[verifier::rlimit(50)]
pub proof fn law_split_of_joined(units: Seq<Seq<u8>>, k: int)
    requires
        1 <= k <= 4,
        units_fit(units, k),
        forall|i: int| 0 <= i < units.len() ==> (#[trigger] units[i]).len() > 0,
    ensures
        split_from(joined(units, k), 0, k, Seq::empty()) == Ok::<Seq<Seq<u8>>, ErrorKind>(units),
{
    lemma_split_joined(Seq::empty(), units, k, Seq::empty());
    assert(Seq::<u8>::empty() + joined(units, k) =~= joined(units, k));
    assert(Seq::<Seq<u8>>::empty() + units =~= units);
}

proof fn lemma_length_prefix(a: Seq<u8>, u: Seq<u8>, t: Seq<u8>, k: int)
    requires
        1 <= k <= 4,
        u.len() < prefix_limit(k),
    ensures
        length_prefix(u.len(), k).len() == k,
        length_at(a + length_prefix(u.len(), k) + (u + t), a.len() as int, k) == u.len(),
{
    if k == 2 {
        crate::bytes::lemma_be16_enc16(a, u.len() as u16, u + t);
    } else if k == 3 {
        crate::bytes::lemma_be24_enc24(a, u.len() as u32, u + t);
    } else if k == 4 {
        crate::bytes::lemma_be32_enc32(a, u.len() as u32, u + t);
    }
}

proof fn lemma_split_joined(a: Seq<u8>, units: Seq<Seq<u8>>, k: int, acc: Seq<Seq<u8>>)
    requires
        1 <= k <= 4,
        units_fit(units, k),
        forall|i: int| 0 <= i < units.len() ==> (#[trigger] units[i]).len() > 0,
    ensures
        split_from(a + joined(units, k), a.len() as int, k, acc) == Ok::<Seq<Seq<u8>>, ErrorKind>(
            acc + units,
        ),
    decreases units.len(),
{
    let s = a + joined(units, k);
    if units.len() == 0 {
        assert(acc + units =~= acc);
    } else {
        let u = units[0];
        let rest = units.drop_first();
        assert forall|j: int| 0 <= j < rest.len() implies (#[trigger] rest[j]).len() > 0
            && rest[j].len() < prefix_limit(k) by {
            assert(rest[j] == units[j + 1]);
        }
        let pre = length_prefix(u.len(), k);
        lemma_split_joined(a + pre + u, rest, k, acc.push(u));
        assert(s =~= a + pre + u + joined(rest, k));
        assert(s =~= a + pre + (u + joined(rest, k)));
        lemma_length_prefix(a, u, joined(rest, k), k);
        assert(length_at(s, a.len() as int, k) == u.len());
        assert(s.subrange(a.len() as int + k, a.len() as int + k + u.len()) =~= u);
        assert(acc.push(u) + rest =~= acc + units);
    }
}

/// The units of a list that was read fit 16-bit lengths.
pub proof fn lemma_read_list(b: Seq<u8>, p: int, n: int, acc: Seq<Seq<u8>>)
    requires
        0 <= p,
        0 <= n,
        forall|j: int| 0 <= j < acc.len() ==> (#[trigger] acc[j]).len() < 0x1_0000,
    ensures
        nal_list_at(b, p, n, acc) matches Ok((units, _)) ==> units.len() == acc.len() + n
            && forall|j: int| 0 <= j < units.len() ==> (#[trigger] units[j]).len() < 0x1_0000,
    decreases n,
{
    if n > 0 && p + 2 <= b.len() && p + 2 + be16(b, p) <= b.len() {
        let end = p + 2 + be16(b, p);
        lemma_read_list(b, end, n - 1, acc.push(b.subrange(p + 2, end)));
    }
}

/// The arrays of a list that was read fit their fields.
pub proof fn lemma_read_arrays(b: Seq<u8>, p: int, n: int, acc: Seq<NalArrayModel>)
    requires
        0 <= p,
        0 <= n,
        forall|i: int| 0 <= i < acc.len() ==> (#[trigger] acc[i]).fits(),
    ensures
        nal_arrays_at(b, p, n, acc) matches Ok((arrays, _)) ==> arrays.len() == acc.len() + n
            && forall|i: int| 0 <= i < arrays.len() ==> (#[trigger] arrays[i]).fits(),
    decreases n,
{
    if n > 0 {
        lemma_read_list(b, p + 3, be16(b, p + 1) as int, Seq::empty());
        match nal_array_at(b, p) {
            Ok((a, end)) => {
                lemma_list_end(b, p + 3, be16(b, p + 1) as int, Seq::empty());
                lemma_read_arrays(b, end, n - 1, acc.push(a));
            },
            Err(_) => {},
        }
    }
}

/// A list that was read ends behind its start.
pub proof fn lemma_list_end(b: Seq<u8>, p: int, n: int, acc: Seq<Seq<u8>>)
    ensures
        nal_list_at(b, p, n, acc) matches Ok((_, end)) ==> p <= end,
    decreases n,
{
    if n > 0 && p + 2 <= b.len() && p + 2 + be16(b, p) <= b.len() {
        let end = p + 2 + be16(b, p);
        lemma_list_end(b, end, n - 1, acc.push(b.subrange(p + 2, end)));
    }
}

/// Whatever parses as a record serializes, and parses again to the same fields;
/// serializing those gives the same bytes.
#[verifier::rlimit(50)]
pub proof fn law_parsed_hevc_record(b: Seq<u8>)
    ensures
        hevc_config_of(b) matches Ok(c) ==> {
            let again = HevcModel { raw: c.bytes(), ..c };
            &&& hevc_config_of(c.bytes()) == Ok::<HevcModel, ErrorKind>(again)
            &&& again.bytes() == c.bytes()
        },
{
    match hevc_config_of(b) {
        Ok(c) => {
            lemma_read_arrays(b, 23, b[22] as int, Seq::empty());
            assert(c.fits());
            law_hevc_config_round_trip(c);
            let again = HevcModel { raw: c.bytes(), ..c };
            reveal(HevcModel::head);
            assert(again.head() == c.head());
        },
        Err(_) => {},
    }
}

} // verus!
